use ejectest::{json_escape, render_apply, render_check, Classification, FileResult, OutputFormat, Report};

fn report(results: Vec<FileResult>) -> Report {
    Report { results }
}

fn inline(path: &str, applied: bool) -> FileResult {
    FileResult {
        path: path.to_owned(),
        classification: Classification::Inline,
        test_file: Some("foo_tests.rs".to_owned()),
        applied,
    }
}

fn plain(path: &str, classification: Classification) -> FileResult {
    FileResult {
        path: path.to_owned(),
        classification,
        test_file: None,
        applied: false,
    }
}

#[test]
fn check_text_lists_only_inline() {
    let rep = report(vec![
        inline("src/foo.rs", false),
        plain("src/bar.rs", Classification::External),
        plain("src/baz.rs", Classification::NoTests),
    ]);
    let out = render_check(&rep, OutputFormat::Text);
    assert_eq!(out, "src/foo.rs\n");
}

#[test]
fn check_text_silent_when_clean() {
    let rep = report(vec![plain("src/bar.rs", Classification::NoTests)]);
    assert_eq!(render_check(&rep, OutputFormat::Text), "");
}

#[test]
fn check_json_has_summary_and_files() {
    let rep = report(vec![
        inline("src/foo.rs", false),
        plain("src/bar.rs", Classification::External),
    ]);
    let out = render_check(&rep, OutputFormat::Json);
    assert!(out.contains("\"path\":\"src/foo.rs\",\"status\":\"inline\""));
    assert!(out.contains("\"status\":\"external\""));
    assert!(out.contains("\"summary\":{\"total\":2,\"inline\":1,\"external\":1,\"no_tests\":0}"));
    assert!(out.ends_with("}\n"));
}

#[test]
fn apply_json_reports_ejected() {
    let rep = report(vec![inline("src/foo.rs", true)]);
    let out = render_apply(&rep, OutputFormat::Json, false);
    assert!(out.contains("\"action\":\"ejected\""));
    assert!(out.contains("\"test_file\":\"foo_tests.rs\""));
    assert!(out.contains("\"ejected\":1,\"would_eject\":0"));
}

#[test]
fn apply_json_reports_would_eject_on_dry_run() {
    let rep = report(vec![inline("src/foo.rs", false)]);
    let out = render_apply(&rep, OutputFormat::Json, true);
    assert!(out.contains("\"action\":\"would_eject\""));
    assert!(out.contains("\"would_eject\":1"));
}

#[test]
fn apply_text_dry_run_says_would() {
    let rep = report(vec![inline("src/foo.rs", false)]);
    let out = render_apply(&rep, OutputFormat::Text, true);
    assert!(out.contains("Would create: src/foo_tests.rs"));
    assert!(out.contains("Would modify: src/foo.rs"));
}

#[test]
fn json_escape_handles_quotes_and_control() {
    assert_eq!(json_escape("a\"b\\c"), "a\\\"b\\\\c");
    assert_eq!(json_escape("x\ty"), "x\\ty");
    assert_eq!(json_escape("\u{1}"), "\\u0001");
}
