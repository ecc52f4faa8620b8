use logfmt::json::json_value_text;
use logfmt::record::parse_record;

fn roundtrip_matches_generic(line: &str) {
    let ours = parse_record(line).expect("line should parse");
    let theirs: serde_json::Value = serde_json::from_str(line).unwrap();
    assert_eq!(json_value_text(&ours), theirs.to_string(), "input {line:?}");
}

#[test]
fn compact_rendering_matches_generic_serializer() {
    roundtrip_matches_generic(r#"{"a":[1,2.5,true,null,"x"],"b":{"c":"d"}}"#);
    roundtrip_matches_generic(r#"[0,-1,18446744073709551615,1e30,-0.25]"#);
    roundtrip_matches_generic(r#""plain string""#);
    roundtrip_matches_generic("null");
    roundtrip_matches_generic("true");
}

#[test]
fn string_escapes_match_generic_serializer() {
    roundtrip_matches_generic(r#"{"q":"a\"b","bs":"a\\b","nl":"a\nb\tc\rd"}"#);
    roundtrip_matches_generic(r#"{"ctl":"\u0001\u001f\b\f"}"#);
    roundtrip_matches_generic(r#"{"uni":"héllo wörld ☃"}"#);
    roundtrip_matches_generic(r#"{"emoji":"🚀"}"#);
}

#[test]
fn keys_are_escaped_too() {
    roundtrip_matches_generic(r#"{"we\"ird\nkey":1}"#);
}

#[test]
fn malformed_lines_are_rejected() {
    assert!(parse_record("not json").is_err());
    assert!(parse_record("{\"a\":").is_err());
    assert!(parse_record("").is_err());
}
