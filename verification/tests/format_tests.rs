use logfmt::json::JsonValue;
use logfmt::render::{format_json, format_line, Config, FormatError};
use logfmt::spans::render_spans;

fn strip_ansi(s: &str) -> String {
    let mut out = String::new();
    let mut in_escape = false;
    for c in s.chars() {
        if in_escape {
            if c == 'm' {
                in_escape = false;
            }
        } else if c == '\u{1b}' {
            in_escape = true;
        } else {
            out.push(c);
        }
    }
    out
}

#[test]
fn line_mode_end_to_end_defaults() {
    let line = r#"{"timestamp":"2024-01-01T00:00:00Z","level":"info","target":"app","fields":{"message":"started"},"spans":[{"name":"main"}]}"#;
    let cfg = Config::defaults();
    let out = format_line(line, &cfg).unwrap();
    let expected = "[\u{1b}[38;2;180;180;180m2024-01-01T00:00:00Z\u{1b}[0m] \u{1b}[32mINFO\u{1b}[0m \u{1b}[38;2;128;128;128mapp\u{1b}[0m \u{1b}[38;2;128;128;255mmain\u{1b}[0m: started";
    assert_eq!(out, expected);
}

#[test]
fn formatting_twice_is_byte_identical() {
    let line = r#"{"timestamp":"2024-01-01T00:00:00Z","level":"info","target":"app","fields":{"message":"started"},"spans":[{"name":"main"}]}"#;
    let first = format_line(line, &Config::defaults()).unwrap();
    let second = format_line(line, &Config::defaults()).unwrap();
    assert_eq!(first, second);
    let j1 = format_json(line, &Config::defaults()).unwrap();
    let j2 = format_json(line, &Config::defaults()).unwrap();
    assert_eq!(j1, j2);
}

#[test]
fn empty_record_keeps_the_stray_span_space() {
    let out = format_line("{}", &Config::defaults()).unwrap();
    assert_eq!(out, " ");
}

#[test]
fn absent_timestamp_produces_no_bracket_segment() {
    let out = format_line(r#"{"level":"info"}"#, &Config::defaults()).unwrap();
    assert_eq!(out, " \u{1b}[32mINFO\u{1b}[0m ");
    assert!(!strip_ansi(&out).contains('['));
}

#[test]
fn absent_message_produces_no_colon_suffix() {
    let out = format_line(r#"{"timestamp":"t"}"#, &Config::defaults()).unwrap();
    assert_eq!(out, "[\u{1b}[38;2;180;180;180mt\u{1b}[0m] ");
    assert!(!out.contains(':'));
}

#[test]
fn wrong_typed_fields_are_omitted_like_absent_ones() {
    let out = format_line(
        r#"{"timestamp":42,"level":{"x":1},"target":[1],"fields":{"message":7}}"#,
        &Config::defaults(),
    )
    .unwrap();
    assert_eq!(out, " ");
}

#[test]
fn span_name_attribute_is_suppressed() {
    let line = r#"{"spans":[{"name":"req","id":42,"name2":"req"}]}"#;
    let out = format_line(line, &Config::defaults()).unwrap();
    let expected = " \u{1b}[38;2;128;128;255mreq\u{1b}[0m\u{1b}[38;2;200;200;255m{id=42,name2=\"req\"}\u{1b}[0m";
    assert_eq!(out, expected);
    assert!(!strip_ansi(&out).contains("name=req"));
}

#[test]
fn second_name_pair_with_other_value_is_kept() {
    let span = JsonValue::Object(vec![
        (String::from("name"), JsonValue::Str(String::from("req"))),
        (String::from("name"), JsonValue::Str(String::from("other"))),
    ]);
    let doc = JsonValue::Object(vec![(
        String::from("spans"),
        JsonValue::Array(vec![span]),
    )]);
    let chain = render_spans(&doc);
    let expected = "\u{1b}[38;2;128;128;255mreq\u{1b}[0m\u{1b}[38;2;200;200;255m{name=\"other\"}\u{1b}[0m";
    assert_eq!(chain, expected);
}

#[test]
fn span_chain_joins_with_styled_separator() {
    let line = r#"{"spans":[{"name":"a"},{"name":"b"}]}"#;
    let out = format_line(line, &Config::defaults()).unwrap();
    let expected = " \u{1b}[38;2;128;128;255ma\u{1b}[0m\u{1b}[38;2;128;128;255m::\u{1b}[0m\u{1b}[38;2;128;128;255mb\u{1b}[0m";
    assert_eq!(out, expected);
}

#[test]
fn nameless_or_non_object_spans_are_skipped_entirely() {
    let line = r#"{"spans":[{"id":1},"text",{"name":"ok"},7]}"#;
    let out = format_line(line, &Config::defaults()).unwrap();
    // only the object carrying a string name renders; the others leave no
    // empty entry behind, so no separator appears either
    assert_eq!(out, " \u{1b}[38;2;128;128;255mok\u{1b}[0m");
}

#[test]
fn custom_pointers_are_respected() {
    let cfg = Config {
        message_pointer: String::from("/msg"),
        timestamp_pointer: String::from("/ts"),
        level_pointer: String::from("/lvl"),
    };
    let out = format_line(r#"{"msg":"hi","lvl":"warn"}"#, &cfg).unwrap();
    assert_eq!(out, " \u{1b}[33mWARN\u{1b}[0m : hi");
}

#[test]
fn json_mode_end_to_end() {
    let line = r#"{"level":"ERROR","x":1}"#;
    let out = format_json(line, &Config::defaults()).unwrap();
    let heading = "\u{1b}[31mERROR\u{1b}[0m:\n";
    assert!(out.starts_with(heading));
    let body = &out[heading.len()..];
    // keys blue, string values green, numbers yellow; the text in between
    // stays exactly as it was
    let expected_body = "{\u{1b}[34m\"level\"\u{1b}[0m:\u{1b}[32m\"ERROR\"\u{1b}[0m,\u{1b}[34m\"x\"\u{1b}[0m:\u{1b}[33m1\u{1b}[0m}";
    assert_eq!(body, expected_body);
    assert_eq!(strip_ansi(&out), format!("ERROR:\n{line}"));
}

#[test]
fn json_mode_without_level_has_no_heading() {
    let line = r#"{"x":1}"#;
    let out = format_json(line, &Config::defaults()).unwrap();
    assert_eq!(
        out,
        "{\u{1b}[34m\"x\"\u{1b}[0m:\u{1b}[33m1\u{1b}[0m}"
    );
    assert_eq!(strip_ansi(&out), line);
}

#[test]
fn json_mode_body_preserves_text_exactly() {
    // unsorted keys, odd spacing, escapes and literals: stripping the added
    // coloring gives the source line back byte for byte
    let line = "{\"b\" : 2, \"a\":[true, null, false, \"t\\\"x\"], \"-9.5e2\": -9.5e2}";
    let out = format_json(line, &Config::defaults()).unwrap();
    assert_eq!(strip_ansi(&out), line);
}

#[test]
fn empty_message_path_omits_the_message_segment() {
    let cfg = Config {
        message_pointer: String::new(),
        timestamp_pointer: String::from("/timestamp"),
        level_pointer: String::from("/level"),
    };
    // the whole document is a string, yet an empty path resolves to nothing
    let out = format_line("\"hi\"", &cfg).unwrap();
    assert_eq!(out, " ");
}

#[test]
fn malformed_lines_fail_the_run() {
    assert_eq!(
        format_line("not json", &Config::defaults()),
        Err(FormatError::Parse)
    );
    assert_eq!(
        format_json("{\"a\":", &Config::defaults()),
        Err(FormatError::Parse)
    );
}

#[test]
fn default_config_values() {
    let cfg = Config::defaults();
    assert_eq!(cfg.message_pointer, "/fields/message");
    assert_eq!(cfg.timestamp_pointer, "/timestamp");
    assert_eq!(cfg.level_pointer, "/level");
}
