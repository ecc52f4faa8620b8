use logfmt::level::{classify, level_styled, Level};

#[test]
fn classify_error_any_casing() {
    assert!(matches!(classify("error"), Level::Error));
    assert!(matches!(classify("ERROR"), Level::Error));
    assert!(matches!(classify("Error"), Level::Error));
    assert!(matches!(classify("eRrOr"), Level::Error));
}

#[test]
fn classify_other_canonicals() {
    assert!(matches!(classify("warn"), Level::Warn));
    assert!(matches!(classify("wArN"), Level::Warn));
    assert!(matches!(classify("info"), Level::Info));
    assert!(matches!(classify("INFO"), Level::Info));
    assert!(matches!(classify("Debug"), Level::Debug));
    assert!(matches!(classify("trace"), Level::Trace));
}

#[test]
fn classify_unknown_preserves_original() {
    match classify("notice") {
        Level::Unknown(s) => assert_eq!(s, "notice"),
        _ => panic!("expected Unknown"),
    }
    match classify("") {
        Level::Unknown(s) => assert_eq!(s, ""),
        _ => panic!("expected Unknown"),
    }
    match classify("errors") {
        Level::Unknown(s) => assert_eq!(s, "errors"),
        _ => panic!("expected Unknown"),
    }
    match classify("warning") {
        Level::Unknown(s) => assert_eq!(s, "warning"),
        _ => panic!("expected Unknown"),
    }
}

#[test]
fn styled_levels_exact_escapes() {
    assert_eq!(level_styled(&Level::Error), "\u{1b}[31mERROR\u{1b}[0m");
    assert_eq!(level_styled(&Level::Warn), "\u{1b}[33mWARN\u{1b}[0m");
    assert_eq!(level_styled(&Level::Info), "\u{1b}[32mINFO\u{1b}[0m");
    assert_eq!(level_styled(&Level::Debug), "\u{1b}[34mDEBUG\u{1b}[0m");
    assert_eq!(level_styled(&Level::Trace), "TRACE");
    assert_eq!(
        level_styled(&Level::Unknown(String::from("audit"))),
        "audit"
    );
}
