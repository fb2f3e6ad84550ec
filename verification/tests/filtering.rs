use diff_filter::changes::FileChanges;
use diff_filter::diagnostics::{Diagnostic, Level, Message, Span};
use diff_filter::diff::parse_diff;
use diff_filter::engine::{run, FilterEngine, RunResult};
use diff_filter::filter::{
    classify, intersects, is_relevant, should_report_diagnostic, InvalidSpan, Verdict,
};

const COUNTED: Verdict = Verdict::Forward { counts_toward_failure: true };
const SHOWN: Verdict = Verdict::Forward { counts_toward_failure: false };

fn span(file_name: &str, line_start: u32, line_end: u32) -> Span {
    Span { file_name: file_name.to_string(), line_start, line_end }
}

fn diagnostic(level: Level, spans: Vec<Span>) -> Diagnostic {
    Diagnostic { level, message: Some(Message { spans }) }
}

fn changes() -> FileChanges {
    parse_diff("+++ b/a.rs\n@@ -1,0 +10,2 @@\n@@ -30 +40,5 @@\n+++ b/b.rs\n@@ -1 +1 @@\n").unwrap()
}

#[test]
fn intersects_on_a_changed_line() {
    let ranges = changes();
    assert_eq!(intersects("a.rs", 10, 10, &ranges), Ok(true));
    assert_eq!(intersects("a.rs", 11, 11, &ranges), Ok(true));
    assert_eq!(intersects("a.rs", 5, 10, &ranges), Ok(true));
    assert_eq!(intersects("a.rs", 11, 20, &ranges), Ok(true));
    assert_eq!(intersects("a.rs", 44, 44, &ranges), Ok(true));
    assert_eq!(intersects("a.rs", 1, 1000, &ranges), Ok(true));
    assert_eq!(intersects("b.rs", 1, 1, &ranges), Ok(true));
}

#[test]
fn intersects_beside_the_changed_lines() {
    let ranges = changes();
    assert_eq!(intersects("a.rs", 9, 9, &ranges), Ok(false));
    assert_eq!(intersects("a.rs", 12, 39, &ranges), Ok(false));
    assert_eq!(intersects("a.rs", 45, 45, &ranges), Ok(false));
    assert_eq!(intersects("a.rs", 1, 1, &ranges), Ok(false));
    assert_eq!(intersects("b.rs", 10, 10, &ranges), Ok(false));
}

#[test]
fn intersects_in_a_file_without_changes() {
    let ranges = changes();
    assert_eq!(intersects("c.rs", 10, 10, &ranges), Ok(false));
    assert_eq!(intersects("./a.rs", 10, 10, &ranges), Ok(false));
    assert_eq!(intersects("", 10, 10, &ranges), Ok(false));
    assert_eq!(intersects("a.rs", 10, 10, &FileChanges::new()), Ok(false));
}

#[test]
fn intersects_refuses_an_inverted_range() {
    let ranges = changes();
    assert_eq!(
        intersects("a.rs", 11, 10, &ranges),
        Err(InvalidSpan { line_start: 11, line_end: 10 })
    );
    assert_eq!(
        intersects("c.rs", 1, 0, &ranges),
        Err(InvalidSpan { line_start: 1, line_end: 0 })
    );
}

#[test]
fn inverted_span_is_relevant() {
    let ranges = changes();
    assert!(is_relevant(&span("a.rs", 100, 99), &ranges));
    assert!(is_relevant(&span("c.rs", 100, 99), &ranges));
    assert!(is_relevant(&span("a.rs", 10, 10), &ranges));
    assert!(!is_relevant(&span("a.rs", 99, 100), &ranges));
    assert!(!is_relevant(&span("c.rs", 10, 10), &ranges));
}

#[test]
fn warning_outside_the_changes_is_suppressed() {
    let ranges = changes();
    let warning = diagnostic(Level::Warning, vec![span("a.rs", 20, 20)]);
    assert_eq!(classify(&warning, &ranges), Verdict::Suppress);
    assert!(!should_report_diagnostic(&warning, &ranges));
}

#[test]
fn warning_on_a_changed_line_is_forwarded_and_counted() {
    let ranges = changes();
    let warning = diagnostic(Level::Warning, vec![span("a.rs", 11, 20)]);
    assert_eq!(classify(&warning, &ranges), COUNTED);
    assert!(should_report_diagnostic(&warning, &ranges));
}

#[test]
fn note_outside_the_changes_is_forwarded_and_not_counted() {
    let ranges = changes();
    let note = diagnostic(Level::Note, vec![span("a.rs", 20, 20)]);
    assert_eq!(classify(&note, &ranges), SHOWN);
    assert!(should_report_diagnostic(&note, &ranges));
}

#[test]
fn error_is_gated_as_a_warning_is() {
    let ranges = changes();
    assert_eq!(
        classify(&diagnostic(Level::Error, vec![span("a.rs", 20, 20)]), &ranges),
        Verdict::Suppress
    );
    assert_eq!(classify(&diagnostic(Level::Error, vec![span("a.rs", 10, 10)]), &ranges), COUNTED);
}

#[test]
fn levels_that_do_not_gate_are_never_counted() {
    let ranges = changes();
    for level in [Level::Note, Level::Help, Level::Ice, Level::Unknown] {
        assert_eq!(classify(&diagnostic(level, vec![span("a.rs", 10, 10)]), &ranges), SHOWN);
        assert_eq!(classify(&diagnostic(level, vec![span("a.rs", 20, 20)]), &ranges), SHOWN);
        assert_eq!(classify(&diagnostic(level, vec![span("c.rs", 1, 1)]), &ranges), SHOWN);
        assert_eq!(classify(&diagnostic(level, vec![]), &ranges), SHOWN);
        assert_eq!(classify(&diagnostic(level, vec![span("a.rs", 9, 1)]), &ranges), SHOWN);
    }
}

#[test]
fn error_without_span_is_forwarded_and_counted() {
    let error = diagnostic(Level::Error, vec![]);
    assert_eq!(classify(&error, &changes()), COUNTED);
    assert_eq!(classify(&error, &FileChanges::new()), COUNTED);
    assert!(should_report_diagnostic(&error, &FileChanges::new()));
}

#[test]
fn warning_without_span_is_forwarded_and_counted() {
    let warning = diagnostic(Level::Warning, vec![]);
    assert_eq!(classify(&warning, &changes()), COUNTED);
    assert_eq!(classify(&warning, &FileChanges::new()), COUNTED);
}

#[test]
fn one_span_on_a_changed_line_is_enough() {
    let ranges = changes();
    let spans = vec![span("c.rs", 1, 1), span("a.rs", 20, 20), span("b.rs", 1, 1)];
    assert_eq!(classify(&diagnostic(Level::Warning, spans), &ranges), COUNTED);
    let spans = vec![span("c.rs", 1, 1), span("a.rs", 20, 20), span("b.rs", 2, 2)];
    assert_eq!(classify(&diagnostic(Level::Warning, spans), &ranges), Verdict::Suppress);
}

#[test]
fn warning_with_an_inverted_span_is_forwarded_and_counted() {
    let ranges = changes();
    let spans = vec![span("a.rs", 20, 20), span("a.rs", 30, 29)];
    assert_eq!(classify(&diagnostic(Level::Warning, spans), &ranges), COUNTED);
    let spans = vec![span("c.rs", 2, 1)];
    assert_eq!(classify(&diagnostic(Level::Error, spans), &FileChanges::new()), COUNTED);
}

#[test]
fn warning_in_a_file_without_changes_is_suppressed() {
    let warning = diagnostic(Level::Warning, vec![span("c.rs", 10, 10)]);
    assert_eq!(classify(&warning, &changes()), Verdict::Suppress);
    assert_eq!(classify(&warning, &FileChanges::new()), Verdict::Suppress);
}

#[test]
fn record_without_message_is_forwarded_and_not_counted() {
    for level in [Level::Error, Level::Warning, Level::Note, Level::Unknown] {
        let record = Diagnostic { level, message: None };
        assert_eq!(classify(&record, &changes()), SHOWN);
        assert!(should_report_diagnostic(&record, &FileChanges::new()));
    }
}

#[test]
fn verdicts_tell_forwarding_and_counting() {
    assert!(!Verdict::Suppress.is_forwarded());
    assert!(!Verdict::Suppress.is_counted());
    assert!(SHOWN.is_forwarded());
    assert!(!SHOWN.is_counted());
    assert!(COUNTED.is_forwarded());
    assert!(COUNTED.is_counted());
}

#[test]
fn engine_counts_what_its_verdicts_count() {
    let mut engine = FilterEngine::new(changes());
    assert_eq!(engine.failures(), 0);
    assert_eq!(engine.consume(&diagnostic(Level::Warning, vec![span("a.rs", 10, 10)])), COUNTED);
    assert_eq!(engine.failures(), 1);
    assert_eq!(
        engine.consume(&diagnostic(Level::Warning, vec![span("a.rs", 20, 20)])),
        Verdict::Suppress
    );
    assert_eq!(engine.failures(), 1);
    assert_eq!(engine.consume(&diagnostic(Level::Note, vec![span("a.rs", 10, 10)])), SHOWN);
    assert_eq!(engine.failures(), 1);
    assert_eq!(engine.consume(&diagnostic(Level::Error, vec![])), COUNTED);
    assert_eq!(engine.failures(), 2);
    assert_eq!(engine.file_changes().get("b.rs"), changes().get("b.rs"));
    assert_eq!(engine.finish(), RunResult::Failure(2));
}

#[test]
fn engine_without_diagnostics_succeeds() {
    assert_eq!(FilterEngine::new(changes()).finish(), RunResult::Success);
    assert_eq!(FilterEngine::new(FileChanges::new()).finish(), RunResult::Success);
}

#[test]
fn engine_reads_lines() {
    let mut engine = FilterEngine::new(changes());
    let on_change = r#"{"message":{"level":"warning","spans":[{"file_name":"a.rs","line_start":10,"line_end":10}]}}"#;
    let elsewhere = r#"{"message":{"level":"warning","spans":[{"file_name":"a.rs","line_start":20,"line_end":20}]}}"#;
    assert_eq!(engine.consume_line(on_change), Ok(COUNTED));
    assert_eq!(engine.consume_line(elsewhere), Ok(Verdict::Suppress));
    assert_eq!(engine.consume_line(r#"{"reason":"build-finished"}"#), Ok(SHOWN));
    assert_eq!(engine.failures(), 1);
}

#[test]
fn engine_refuses_a_line_and_stays_as_it_was() {
    let mut engine = FilterEngine::new(changes());
    let on_change = r#"{"message":{"level":"error","spans":[{"file_name":"b.rs","line_start":1,"line_end":1}]}}"#;
    assert_eq!(engine.consume_line(on_change), Ok(COUNTED));
    let error = engine.consume_line("{\"message\":").unwrap_err();
    assert_eq!(error.line, "{\"message\":");
    assert_eq!(engine.failures(), 1);
    assert_eq!(engine.consume_line(on_change), Ok(COUNTED));
    assert_eq!(engine.finish(), RunResult::Failure(2));
}

#[test]
fn warning_on_the_change_fails_the_run() {
    let ranges = parse_diff("+++ b/a.rs\n@@ -1,0 +10,2 @@\n").unwrap();
    assert_eq!(
        ranges.get("a.rs"),
        Some(&vec![diff_filter::intervals::LineInterval { start: 10, end: 11 }])
    );
    let stream = vec![diagnostic(Level::Warning, vec![span("a.rs", 10, 10)])];
    assert_eq!(run(ranges, &stream), (vec![COUNTED], RunResult::Failure(1)));
}

#[test]
fn warning_beside_the_change_lets_the_run_succeed() {
    let ranges = parse_diff("+++ b/a.rs\n@@ -1,0 +10,2 @@\n").unwrap();
    let stream = vec![diagnostic(Level::Warning, vec![span("a.rs", 20, 20)])];
    assert_eq!(run(ranges, &stream), (vec![Verdict::Suppress], RunResult::Success));
}

#[test]
fn run_over_no_diagnostics_succeeds() {
    assert_eq!(run(changes(), &Vec::new()), (Vec::new(), RunResult::Success));
}

#[test]
fn run_gives_a_verdict_for_each_record_in_order() {
    let stream = vec![
        diagnostic(Level::Warning, vec![span("a.rs", 42, 42)]),
        diagnostic(Level::Help, vec![span("a.rs", 42, 42)]),
        Diagnostic { level: Level::Unknown, message: None },
        diagnostic(Level::Error, vec![span("a.rs", 12, 39)]),
        diagnostic(Level::Error, vec![span("b.rs", 1, 1)]),
        diagnostic(Level::Ice, vec![]),
        diagnostic(Level::Error, vec![]),
    ];
    assert_eq!(
        run(changes(), &stream),
        (
            vec![COUNTED, SHOWN, SHOWN, Verdict::Suppress, COUNTED, SHOWN, COUNTED],
            RunResult::Failure(3)
        )
    );
}

#[test]
fn second_run_gives_what_the_first_gave() {
    let text = "+++ b/a.rs\n@@ -1,0 +10,2 @@\n+++ b/b.rs\n@@ -4 +4,3 @@\n";
    let stream = vec![
        diagnostic(Level::Warning, vec![span("a.rs", 11, 11)]),
        diagnostic(Level::Warning, vec![span("a.rs", 12, 12)]),
        diagnostic(Level::Note, vec![span("a.rs", 12, 12)]),
        diagnostic(Level::Error, vec![span("b.rs", 1, 4)]),
    ];
    let first = run(parse_diff(text).unwrap(), &stream);
    let second = run(parse_diff(text).unwrap(), &stream);
    assert_eq!(first, second);
    assert_eq!(first, (vec![COUNTED, Verdict::Suppress, SHOWN, COUNTED], RunResult::Failure(2)));
}

#[test]
fn verdict_does_not_depend_on_what_came_before() {
    let warning = diagnostic(Level::Warning, vec![span("a.rs", 10, 10)]);
    let elsewhere = diagnostic(Level::Warning, vec![span("a.rs", 20, 20)]);
    let mut engine = FilterEngine::new(changes());
    for round in 0..5u64 {
        assert_eq!(engine.consume(&warning), COUNTED);
        assert_eq!(engine.consume(&elsewhere), Verdict::Suppress);
        assert_eq!(engine.consume(&warning), classify(&warning, &changes()));
        assert_eq!(engine.failures(), 2 * round + 2);
    }
}

#[test]
fn malformed_diff_ends_the_run_before_any_diagnostic() {
    let parsed = parse_diff("+++ b/a.rs\n@@ garbage @@\n");
    assert!(parsed.is_err());
    assert_eq!(parsed.unwrap_err().line, b"@@ garbage @@".to_vec());
}
