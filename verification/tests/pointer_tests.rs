use logfmt::json::JsonValue;
use logfmt::pointer::{locate, locate_str};

fn sample() -> JsonValue {
    // {"a":{"b":["x","y"]},"a/b":"slash","m~n":"tilde","num":7,"z":"0k"}
    JsonValue::Object(vec![
        (
            String::from("a"),
            JsonValue::Object(vec![(
                String::from("b"),
                JsonValue::Array(vec![
                    JsonValue::Str(String::from("x")),
                    JsonValue::Str(String::from("y")),
                ]),
            )]),
        ),
        (String::from("a/b"), JsonValue::Str(String::from("slash"))),
        (String::from("m~n"), JsonValue::Str(String::from("tilde"))),
        (String::from("num"), JsonValue::Number(String::from("7"))),
        (String::from("z"), JsonValue::Str(String::from("0k"))),
    ])
}

#[test]
fn locate_nested_object_and_array() {
    let v = sample();
    assert_eq!(locate_str(&v, "/a/b/0"), Some("x"));
    assert_eq!(locate_str(&v, "/a/b/1"), Some("y"));
    assert_eq!(locate_str(&v, "/a/b/2"), None);
}

#[test]
fn locate_escaped_tokens() {
    let v = sample();
    assert_eq!(locate_str(&v, "/a~1b"), Some("slash"));
    assert_eq!(locate_str(&v, "/m~0n"), Some("tilde"));
}

#[test]
fn locate_index_syntax_is_strict() {
    let v = sample();
    assert_eq!(locate_str(&v, "/a/b/01"), None);
    assert_eq!(locate_str(&v, "/a/b/+1"), None);
    assert_eq!(locate_str(&v, "/a/b/1 "), None);
    assert_eq!(locate_str(&v, "/a/b/-1"), None);
}

#[test]
fn empty_pointer_resolves_nothing() {
    let v = JsonValue::Str(String::from("hello"));
    assert_eq!(locate_str(&v, ""), None);
    assert!(locate(&sample(), "").is_none());
}

#[test]
fn pointer_without_leading_slash_resolves_nothing() {
    let v = sample();
    assert!(locate(&v, "a").is_none());
    assert_eq!(locate_str(&v, "num"), None);
}

#[test]
fn non_string_values_are_not_strings() {
    let v = sample();
    // present, but a number: the strict type guard yields nothing
    assert!(locate(&v, "/num").is_some());
    assert_eq!(locate_str(&v, "/num"), None);
    // absent entirely
    assert_eq!(locate_str(&v, "/missing"), None);
}

#[test]
fn agrees_with_generic_pointer_resolution() {
    let line = r#"{"a":{"b":["x","y"]},"a/b":"slash","deep":[{"k":"v"}]}"#;
    let ours = logfmt::record::parse_record(line).unwrap();
    let theirs: serde_json::Value = serde_json::from_str(line).unwrap();
    // the empty path is left out: here it resolves to nothing, while the
    // generic resolver returns the whole document for it
    for p in ["/a/b/0", "/a/b/1", "/a/b/2", "/a~1b", "/deep/0/k", "/x", "a", "/a/b/01"] {
        let got = locate_str(&ours, p);
        let want = theirs.pointer(p).and_then(serde_json::Value::as_str);
        assert_eq!(got, want, "pointer {p:?}");
    }
}
