//! The `apply` and `check` commands driven through the library on an
//! in-memory tree: file lists, filters, per-file results and rendering.

use ejectest::{
    apply_source, classify_source, eject_tests, file_list_entries, render_apply, render_check,
    EjectError, FileFilter, FileResult, FilterError, ListedPath, OutputFormat, Report,
};

fn sample_source() -> String {
    [
        "use std::collections::HashMap;\n",
        "\n",
        "pub fn add(aa: i32, bb: i32) -> i32 {\n",
        "    aa + bb\n",
        "}\n",
        "\n",
        "#[cfg(test)]\n",
        "mod tests {\n",
        "    use super::*;\n",
        "\n",
        "    #[test]\n",
        "    fn test_add() {\n",
        "        assert_eq!(add(1, 2), 3);\n",
        "    }\n",
        "}\n",
    ]
    .concat()
}

fn external_source() -> &'static str {
    "#[cfg(test)]\n#[path = \"ext_tests.rs\"]\nmod tests;\n"
}

fn no_tests_source() -> &'static str {
    "pub fn foo() -> i32 { 42 }\n"
}

/// A file of the tree: its path (already canonical) and its content.
struct SourceFile {
    path: &'static str,
    stem: &'static str,
    content: String,
}

fn file(path: &'static str, stem: &'static str, content: &str) -> SourceFile {
    SourceFile { path, stem, content: content.to_owned() }
}

/// Resolve listed paths against the files that exist.
fn resolve(listed: &[&str], existing: &[&str]) -> Vec<ListedPath> {
    listed
        .iter()
        .map(|path| ListedPath {
            path: (*path).to_owned(),
            canonical: if existing.contains(path) {
                Ok((*path).to_owned())
            } else {
                Err("No such file or directory (os error 2)".to_owned())
            },
        })
        .collect()
}

fn filter_for(listed: &[&str], existing: &[&str], lenient: bool) -> Result<FileFilter, FilterError> {
    FileFilter::from_paths("/work", "/work", resolve(listed, existing), lenient)
}

/// `apply` over the tree: the report, and the files it would write.
fn apply_tree(files: &[SourceFile], filter: &FileFilter, dry_run: bool) -> (Report, Vec<String>) {
    let mut results = Vec::new();
    let mut written = Vec::new();
    for f in files {
        if !filter.contains(f.path) {
            continue;
        }
        let (res, extraction) =
            apply_source(f.path.to_owned(), &f.content, f.stem, dry_run).expect("apply");
        if let Some(extraction) = extraction {
            if !dry_run {
                written.push(extraction.test_file_name);
            }
        }
        results.push(res);
    }
    (Report { results }, written)
}

/// `check` over the tree.
fn check_tree(files: &[SourceFile], filter: &FileFilter) -> Report {
    let results = files
        .iter()
        .filter(|f| filter.contains(f.path))
        .map(|f| FileResult {
            path: f.path.to_owned(),
            classification: classify_source(&f.content),
            test_file: None,
            applied: false,
        })
        .collect();
    Report { results }
}

#[test]
fn dry_run_shows_plan_without_writing() {
    let source = sample_source();
    let (res, extraction) = apply_source("/work/math.rs".to_owned(), &source, "math", true).expect("apply");
    let extraction = extraction.expect("inline");
    assert!(!res.applied);
    let out = render_apply(&Report { results: vec![res] }, OutputFormat::Text, true);
    assert!(out.contains("Would create"));
    assert!(out.contains("math_tests.rs"));
    assert_eq!(extraction.test_file_name, "math_tests.rs");
}

#[test]
fn extraction_creates_test_file_and_modifies_source() {
    let source = sample_source();
    let (res, extraction) = apply_source("/work/math.rs".to_owned(), &source, "math", false).expect("apply");
    let extraction = extraction.expect("inline");
    assert!(res.applied);
    let out = render_apply(&Report { results: vec![res] }, OutputFormat::Text, false);
    assert!(out.contains("Created"));
    assert!(out.contains("Modified"));

    let modified = extraction.modified_source;
    assert!(modified.contains("#[path = \"math_tests.rs\"]"));
    assert!(modified.contains("mod tests;"));
    assert!(!modified.contains("fn test_add"));

    assert_eq!(extraction.test_file_name, "math_tests.rs");
    assert!(extraction.test_content.contains("fn test_add"));
    assert!(extraction.test_content.contains("use super::*;"));
}

#[test]
fn no_test_module_fails() {
    let result = eject_tests("pub fn foo() -> i32 { 42 }\n", "empty");
    assert!(matches!(result, Err(EjectError::NoTestModule)));
}

#[test]
fn already_external_fails() {
    let result = eject_tests("#[cfg(test)]\n#[path = \"ext_tests.rs\"]\nmod tests;\n", "ext");
    assert!(matches!(result, Err(EjectError::AlreadyExternal)));
}

#[test]
fn no_trailing_blank_lines_after_extraction() {
    let source = [
        "pub fn foo() -> i32 { 42 }\n",
        "\n",
        "\n",
        "#[cfg(test)]\n",
        "mod tests {\n",
        "    #[test]\n",
        "    fn test_foo() {}\n",
        "}\n",
    ]
    .concat();
    let result = eject_tests(&source, "trail").expect("should succeed");
    assert!(result.modified_source.ends_with("mod tests;\n"));
    assert!(!result.modified_source.ends_with("\n\n"));
}

#[test]
fn apply_files_from_processes_only_listed() {
    let files = [
        file("/work/aa.rs", "aa", &sample_source()),
        file("/work/bb.rs", "bb", &sample_source()),
    ];
    let entries = file_list_entries("/work/aa.rs");
    let listed: Vec<&str> = entries.iter().map(String::as_str).collect();
    let filter = filter_for(&listed, &["/work/aa.rs", "/work/bb.rs"], false).expect("filter");
    let (report, written) = apply_tree(&files, &filter, false);
    let out = render_apply(&report, OutputFormat::Text, false);
    assert!(out.contains("aa_tests.rs"));
    assert!(!out.contains("bb_tests.rs"));
    assert_eq!(written, vec!["aa_tests.rs".to_owned()]);
}

#[test]
fn apply_files_from_stdin_processes_only_listed() {
    let files = [
        file("/work/aa.rs", "aa", &sample_source()),
        file("/work/bb.rs", "bb", &sample_source()),
    ];
    let entries = file_list_entries("/work/aa.rs");
    assert_eq!(entries, vec!["/work/aa.rs".to_owned()]);
    let listed: Vec<&str> = entries.iter().map(String::as_str).collect();
    let filter = filter_for(&listed, &["/work/aa.rs", "/work/bb.rs"], false).expect("filter");
    let (_, written) = apply_tree(&files, &filter, false);
    assert_eq!(written, vec!["aa_tests.rs".to_owned()]);
}

#[test]
fn apply_files_from_outside_root_errors() {
    let err = filter_for(&["/other/outside.rs"], &["/other/outside.rs"], false);
    assert!(matches!(err, Err(FilterError::OutsideRoot { .. })));
}

#[test]
fn apply_files_from_missing_file_errors() {
    let err = filter_for(&["/nonexistent/path/foo.rs"], &[], false);
    match err {
        Err(FilterError::Unresolvable { path, .. }) => assert_eq!(path, "/nonexistent/path/foo.rs"),
        _ => panic!("expected an unresolvable path"),
    }
}

#[test]
fn apply_files_from_lenient_skips_outside_and_missing() {
    let files = [file("/work/aa.rs", "aa", &sample_source())];
    let filter = filter_for(
        &["/work/aa.rs", "/other/outside.rs", "/nonexistent/foo.rs"],
        &["/work/aa.rs", "/other/outside.rs"],
        true,
    )
    .expect("lenient");
    assert!(!filter.contains("/other/outside.rs"));
    let (_, written) = apply_tree(&files, &filter, false);
    assert_eq!(written, vec!["aa_tests.rs".to_owned()]);
}

#[test]
fn apply_files_from_dry_run_works() {
    let files = [file("/work/aa.rs", "aa", &sample_source())];
    let filter = filter_for(&["/work/aa.rs"], &["/work/aa.rs"], false).expect("filter");
    let (report, written) = apply_tree(&files, &filter, true);
    assert!(render_apply(&report, OutputFormat::Text, true).contains("Would create"));
    assert!(written.is_empty());
}

#[test]
fn check_files_from_checks_only_listed() {
    let files = [
        file("/work/aa.rs", "aa", &sample_source()),
        file("/work/bb.rs", "bb", &sample_source()),
    ];
    let filter = filter_for(&["/work/aa.rs"], &["/work/aa.rs", "/work/bb.rs"], false).expect("filter");
    let report = check_tree(&files, &filter);
    assert!(report.has_inline());
    let out = render_check(&report, OutputFormat::Text);
    assert!(out.contains("aa.rs"));
    assert!(!out.contains("bb.rs"));
}

#[test]
fn check_files_from_clean_list_succeeds() {
    let files = [
        file("/work/aa.rs", "aa", external_source()),
        file("/work/bb.rs", "bb", &sample_source()),
    ];
    let filter = filter_for(&["/work/aa.rs"], &["/work/aa.rs", "/work/bb.rs"], false).expect("filter");
    let report = check_tree(&files, &filter);
    assert!(!report.has_inline());
    assert_eq!(render_check(&report, OutputFormat::Text), "");
}

#[test]
fn check_files_from_outside_root_errors() {
    let err = filter_for(&["/other/outside.rs"], &["/other/outside.rs"], false);
    match err {
        Err(FilterError::OutsideRoot { path, root }) => {
            assert_eq!(path, "/other/outside.rs");
            assert_eq!(root, "/work");
        }
        _ => panic!("expected outside root"),
    }
}

#[test]
fn check_files_from_lenient_skips_invalid() {
    let files = [file("/work/aa.rs", "aa", external_source())];
    let filter = filter_for(&["/work/aa.rs", "/nonexistent/foo.rs"], &["/work/aa.rs"], true).expect("lenient");
    let report = check_tree(&files, &filter);
    assert!(!report.has_inline());
    assert_eq!(render_check(&report, OutputFormat::Text), "");
}

#[test]
fn apply_files_from_json_reports_correctly() {
    let files = [
        file("/work/aa.rs", "aa", &sample_source()),
        file("/work/bb.rs", "bb", &sample_source()),
    ];
    let filter = filter_for(&["/work/aa.rs"], &["/work/aa.rs", "/work/bb.rs"], false).expect("filter");
    let (report, _) = apply_tree(&files, &filter, false);
    let out = render_apply(&report, OutputFormat::Json, false);
    assert!(out.contains("\"action\":\"ejected\""));
    assert!(out.contains("\"total\":1"));
}

#[test]
fn apply_files_from_empty_list_processes_nothing() {
    let files = [file("/work/aa.rs", "aa", &sample_source())];
    let entries = file_list_entries("");
    assert!(entries.is_empty());
    let filter = filter_for(&[], &["/work/aa.rs"], false).expect("filter");
    let (report, written) = apply_tree(&files, &filter, false);
    assert_eq!(render_apply(&report, OutputFormat::Text, false), "");
    assert!(written.is_empty());
}

#[test]
fn apply_files_from_with_external_and_no_tests() {
    let files = [
        file("/work/aa.rs", "aa", &sample_source()),
        file("/work/bb.rs", "bb", external_source()),
        file("/work/cc.rs", "cc", no_tests_source()),
    ];
    let all = ["/work/aa.rs", "/work/bb.rs", "/work/cc.rs"];
    let filter = filter_for(&all, &all, false).expect("filter");
    let (report, written) = apply_tree(&files, &filter, false);
    let out = render_apply(&report, OutputFormat::Text, false);
    assert!(out.contains("Summary: 1 ejected, 1 external, 1 no tests (3 scanned)"));
    assert_eq!(written, vec!["aa_tests.rs".to_owned()]);
}

#[test]
fn apply_files_from_lenient_with_missing_file() {
    let files = [file("/work/aa.rs", "aa", &sample_source())];
    let filter =
        filter_for(&["/work/aa.rs", "/nonexistent/missing.rs"], &["/work/aa.rs"], true).expect("lenient");
    let (_, written) = apply_tree(&files, &filter, false);
    assert_eq!(written, vec!["aa_tests.rs".to_owned()]);
}
