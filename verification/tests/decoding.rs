use diff_filter::decode::{decode_diagnostic, diagnostic_from_value, span_from_value, DecodeError};
use diff_filter::diagnostics::{Diagnostic, Level, Message, Span};

fn span(file_name: &str, line_start: u32, line_end: u32) -> Span {
    Span { file_name: file_name.to_string(), line_start, line_end }
}

fn diagnostic(level: Level, spans: Vec<Span>) -> Diagnostic {
    Diagnostic { level, message: Some(Message { spans }) }
}

fn notice() -> Diagnostic {
    Diagnostic { level: Level::Unknown, message: None }
}

fn refused(line: &str) -> Result<Diagnostic, DecodeError> {
    Err(DecodeError { line: line.to_string() })
}

#[test]
fn level_names() {
    assert_eq!(Level::from_name("error"), Level::Error);
    assert_eq!(Level::from_name("warning"), Level::Warning);
    assert_eq!(Level::from_name("note"), Level::Note);
    assert_eq!(Level::from_name("help"), Level::Help);
    assert_eq!(Level::from_name("error: internal compiler error"), Level::Ice);
}

#[test]
fn level_names_that_are_not_known() {
    assert_eq!(Level::from_name("failure-note"), Level::Unknown);
    assert_eq!(Level::from_name(""), Level::Unknown);
    assert_eq!(Level::from_name("Error"), Level::Unknown);
    assert_eq!(Level::from_name("warning "), Level::Unknown);
    assert_eq!(Level::from_name("warn"), Level::Unknown);
}

#[test]
fn levels_are_ranked_by_severity() {
    assert_eq!(Level::Ice.rank(), 5);
    assert_eq!(Level::Error.rank(), 4);
    assert_eq!(Level::Warning.rank(), 3);
    assert_eq!(Level::Note.rank(), 2);
    assert_eq!(Level::Help.rank(), 1);
    assert_eq!(Level::Unknown.rank(), 0);
    assert!(Level::Ice.rank() > Level::Error.rank());
    assert!(Level::Error.rank() > Level::Warning.rank());
    assert!(Level::Warning.rank() > Level::Note.rank());
    assert!(Level::Note.rank() > Level::Help.rank());
}

#[test]
fn only_errors_and_warnings_gate() {
    assert!(Level::Error.is_gating());
    assert!(Level::Warning.is_gating());
    assert!(!Level::Ice.is_gating());
    assert!(!Level::Note.is_gating());
    assert!(!Level::Help.is_gating());
    assert!(!Level::Unknown.is_gating());
}

#[test]
fn message_of_a_compiler() {
    let line = r#"{"reason":"compiler-message","package_id":"p 0.1.0","message":{"message":"unused variable: `x`","code":{"code":"unused_variables","explanation":null},"level":"warning","spans":[{"file_name":"src/a.rs","byte_start":10,"byte_end":11,"line_start":3,"line_end":3,"column_start":9,"column_end":10,"is_primary":true,"text":[]}],"children":[],"rendered":"warning: unused variable"}}"#;
    assert_eq!(
        decode_diagnostic(line),
        Ok(diagnostic(Level::Warning, vec![span("src/a.rs", 3, 3)]))
    );
}

#[test]
fn several_spans_stay_in_order() {
    let line = r#"{"message":{"level":"error","spans":[{"file_name":"b.rs","line_start":7,"line_end":9},{"file_name":"a.rs","line_start":1,"line_end":1},{"file_name":"b.rs","line_start":7,"line_end":9}]}}"#;
    assert_eq!(
        decode_diagnostic(line),
        Ok(diagnostic(
            Level::Error,
            vec![span("b.rs", 7, 9), span("a.rs", 1, 1), span("b.rs", 7, 9)]
        ))
    );
}

#[test]
fn message_without_spans() {
    let line = r#"{"message":{"level":"error","spans":[]}}"#;
    assert_eq!(decode_diagnostic(line), Ok(diagnostic(Level::Error, vec![])));
}

#[test]
fn every_level_is_decoded() {
    let cases = [
        ("error", Level::Error),
        ("warning", Level::Warning),
        ("note", Level::Note),
        ("help", Level::Help),
        ("error: internal compiler error", Level::Ice),
        ("failure-note", Level::Unknown),
        ("something new", Level::Unknown),
    ];
    for (name, level) in cases {
        let line = format!(r#"{{"message":{{"level":"{}","spans":[]}}}}"#, name);
        assert_eq!(decode_diagnostic(&line), Ok(diagnostic(level, vec![])));
    }
}

#[test]
fn record_without_message_is_a_notice() {
    assert_eq!(
        decode_diagnostic(r#"{"reason":"build-finished","success":true}"#),
        Ok(notice())
    );
    assert_eq!(decode_diagnostic("{}"), Ok(notice()));
    assert_eq!(decode_diagnostic(" { } "), Ok(notice()));
}

#[test]
fn null_message_is_a_notice() {
    assert_eq!(decode_diagnostic(r#"{"message":null}"#), Ok(notice()));
}

#[test]
fn level_outside_the_message_is_not_read() {
    assert_eq!(decode_diagnostic(r#"{"level":"error"}"#), Ok(notice()));
}

#[test]
fn inverted_span_is_decoded_as_it_is() {
    let line = r#"{"message":{"level":"warning","spans":[{"file_name":"a.rs","line_start":9,"line_end":3}]}}"#;
    assert_eq!(decode_diagnostic(line), Ok(diagnostic(Level::Warning, vec![span("a.rs", 9, 3)])));
}

#[test]
fn line_numbers_up_to_32_bits() {
    let line = r#"{"message":{"level":"warning","spans":[{"file_name":"a.rs","line_start":0,"line_end":4294967295}]}}"#;
    assert_eq!(
        decode_diagnostic(line),
        Ok(diagnostic(Level::Warning, vec![span("a.rs", 0, u32::MAX)]))
    );
}

#[test]
fn file_name_is_unescaped() {
    let line = r#"{"message":{"level":"warning","spans":[{"file_name":"src\\grün \"x\".rs","line_start":1,"line_end":2}]}}"#;
    assert_eq!(
        decode_diagnostic(line),
        Ok(diagnostic(Level::Warning, vec![span("src\\gr\u{fc}n \"x\".rs", 1, 2)]))
    );
}

#[test]
fn text_that_is_not_json_is_refused_with_the_line() {
    for line in ["", "not json", "{", r#"{"message":}"#, "{} {}", r#"{"message":{"level":"error","spans":[]}"#] {
        assert_eq!(decode_diagnostic(line), refused(line));
    }
}

#[test]
fn json_that_is_no_object_is_refused() {
    for line in ["null", "1", "\"warning\"", "[]", r#"[{"message":null}]"#, "true"] {
        assert_eq!(decode_diagnostic(line), refused(line));
    }
}

#[test]
fn message_that_is_no_object_is_refused() {
    for line in [r#"{"message":"text"}"#, r#"{"message":[]}"#, r#"{"message":1}"#, r#"{"message":false}"#] {
        assert_eq!(decode_diagnostic(line), refused(line));
    }
}

#[test]
fn message_without_level_or_spans_is_refused() {
    for line in [
        r#"{"message":{}}"#,
        r#"{"message":{"level":"error"}}"#,
        r#"{"message":{"spans":[]}}"#,
        r#"{"message":{"level":null,"spans":[]}}"#,
        r#"{"message":{"level":3,"spans":[]}}"#,
        r#"{"message":{"level":"error","spans":null}}"#,
        r#"{"message":{"level":"error","spans":{}}}"#,
    ] {
        assert_eq!(decode_diagnostic(line), refused(line));
    }
}

#[test]
fn span_with_a_missing_or_wrong_member_is_refused() {
    for spans in [
        r#"[{}]"#,
        r#"[null]"#,
        r#"[3]"#,
        r#"[{"line_start":1,"line_end":2}]"#,
        r#"[{"file_name":"a.rs","line_end":2}]"#,
        r#"[{"file_name":"a.rs","line_start":1}]"#,
        r#"[{"file_name":7,"line_start":1,"line_end":2}]"#,
        r#"[{"file_name":null,"line_start":1,"line_end":2}]"#,
        r#"[{"file_name":"a.rs","line_start":"1","line_end":2}]"#,
        r#"[{"file_name":"a.rs","line_start":1,"line_end":null}]"#,
        r#"[{"file_name":"a.rs","line_start":-1,"line_end":2}]"#,
        r#"[{"file_name":"a.rs","line_start":1.0,"line_end":2}]"#,
        r#"[{"file_name":"a.rs","line_start":1,"line_end":2.5}]"#,
        r#"[{"file_name":"a.rs","line_start":1,"line_end":4294967296}]"#,
        r#"[{"file_name":"a.rs","line_start":18446744073709551616,"line_end":2}]"#,
        r#"[{"file_name":"a.rs","line_start":1,"line_end":2},{"file_name":"a.rs"}]"#,
    ] {
        let line = format!(r#"{{"message":{{"level":"warning","spans":{}}}}}"#, spans);
        assert_eq!(decode_diagnostic(&line), refused(&line));
    }
}

#[test]
fn value_of_a_record() {
    let value: serde_json::Value = serde_json::from_str(
        r#"{"message":{"level":"note","spans":[{"file_name":"a.rs","line_start":4,"line_end":6}]}}"#,
    )
    .unwrap();
    assert_eq!(
        diagnostic_from_value(&value),
        Some(diagnostic(Level::Note, vec![span("a.rs", 4, 6)]))
    );
    assert_eq!(diagnostic_from_value(&value["message"]), Some(notice()));
    assert_eq!(diagnostic_from_value(&value["message"]["spans"]), None);
    assert_eq!(diagnostic_from_value(&serde_json::Value::Null), None);
}

#[test]
fn value_of_a_span() {
    let mut members = serde_json::Map::new();
    members.insert("file_name".to_string(), serde_json::Value::from("src/a.rs"));
    members.insert("line_start".to_string(), serde_json::Value::from(12u64));
    members.insert("line_end".to_string(), serde_json::Value::from(14u64));
    let value = serde_json::Value::Object(members.clone());
    assert_eq!(span_from_value(&value), Some(span("src/a.rs", 12, 14)));
    members.insert("line_end".to_string(), serde_json::Value::from(-14i64));
    assert_eq!(span_from_value(&serde_json::Value::Object(members.clone())), None);
    members.insert("line_end".to_string(), serde_json::Value::from(1u64 << 32));
    assert_eq!(span_from_value(&serde_json::Value::Object(members.clone())), None);
    members.remove("line_end");
    assert_eq!(span_from_value(&serde_json::Value::Object(members)), None);
    assert_eq!(span_from_value(&serde_json::Value::from("src/a.rs")), None);
}
