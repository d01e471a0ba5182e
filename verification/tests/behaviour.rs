use ejectest::{
    apply_file, apply_source, classify_source, count, dedent, eject_tests, eject_tests_unvalidated,
    file_list_entries, find_test_module_region, json_escape, render_apply, render_check,
    BraceAction, Classification, EjectError, FileFilter, FileResult, FilterError, ListedPath,
    OutputFormat, Report, ScanState,
};

fn sample() -> String {
    [
        "pub fn add(aa: i32, bb: i32) -> i32 {\n",
        "    aa + bb\n",
        "}\n",
        "\n",
        "#[cfg(test)]\n",
        "mod tests {\n",
        "    use super::*;\n",
        "\n",
        "    #[test]\n",
        "    fn test_add() {\n",
        "        assert_eq!(add(1, 2), 3);\n",
        "    }\n",
        "}\n",
    ]
    .concat()
}

fn result(path: &str, classification: Classification, test_file: Option<&str>, applied: bool) -> FileResult {
    FileResult {
        path: path.to_owned(),
        classification,
        test_file: test_file.map(|name| name.to_owned()),
        applied,
    }
}

#[test]
fn extraction_exact_output() {
    let out = eject_tests(&sample(), "math").expect("should succeed");
    assert_eq!(
        out.modified_source,
        "pub fn add(aa: i32, bb: i32) -> i32 {\n    aa + bb\n}\n\n#[cfg(test)]\n#[path = \"math_tests.rs\"]\nmod tests;\n"
    );
    assert_eq!(
        out.test_content,
        "\nuse super::*;\n\n#[test]\nfn test_add() {\n    assert_eq!(add(1, 2), 3);\n}\n"
    );
}

#[test]
fn extraction_is_idempotent() {
    let first = eject_tests(&sample(), "math").expect("should succeed");
    assert_eq!(classify_source(&first.modified_source), Classification::External);
    let second = eject_tests(&first.modified_source, "math");
    assert!(matches!(second, Err(EjectError::AlreadyExternal)));
}

#[test]
fn classification_mirrors_extraction() {
    let unbalanced = "#[cfg(test)]\nmod tests {\n    fn a() {\n";
    let external = "#[cfg(test)]\n#[path = \"x_tests.rs\"]\nmod tests;\n";
    let none = "fn main() {}\n";
    assert_eq!(classify_source(&sample()), Classification::Inline);
    assert!(eject_tests_unvalidated(&sample(), "x").is_ok());
    assert_eq!(classify_source(external), Classification::External);
    assert!(matches!(eject_tests_unvalidated(external, "x"), Err(EjectError::AlreadyExternal)));
    assert_eq!(classify_source(none), Classification::NoTests);
    assert!(matches!(eject_tests_unvalidated(none, "x"), Err(EjectError::NoTestModule)));
    assert_eq!(classify_source(unbalanced), Classification::NoTests);
    assert!(matches!(eject_tests_unvalidated(unbalanced, "x"), Err(EjectError::RegionNotFound)));
}

#[test]
fn unbalanced_module_is_region_not_found() {
    let src = "#[cfg(test)]\nmod tests {\n    fn a() {\n";
    assert!(matches!(find_test_module_region(src), Err(EjectError::RegionNotFound)));
    assert!(matches!(eject_tests(src, "x"), Err(EjectError::RegionNotFound)));
}

#[test]
fn unparsable_result_is_validation_failed() {
    let src = "fn main( {\n#[cfg(test)]\nmod tests {\n    fn a() {}\n}\n";
    assert!(eject_tests_unvalidated(src, "x").is_ok());
    match eject_tests(src, "x") {
        Err(EjectError::ValidationFailed { reason }) => assert!(!reason.is_empty()),
        Err(other) => panic!("expected a validation failure, got {other:?}"),
        Ok(_) => panic!("expected a validation failure"),
    }
}

#[test]
fn outer_attributes_are_lifted() {
    let src = "#[cfg(test)]\n#[allow(dead_code)]\n#[cfg(test)]\nmod tests {\n    fn a() {}\n}\n";
    let out = eject_tests(src, "m").expect("should succeed");
    assert_eq!(out.test_content, "#![allow(dead_code)]\nfn a() {}\n");
    assert_eq!(out.modified_source, "#[cfg(test)]\n#[path = \"m_tests.rs\"]\nmod tests;\n");
}

#[test]
fn module_on_one_line() {
    let src = "fn f() {}\n#[cfg(test)] mod tests { fn a() {} }";
    let out = eject_tests(src, "one").expect("should succeed");
    assert_eq!(out.test_content, "fn a() {} ");
    assert_eq!(out.modified_source, "fn f() {}\n#[cfg(test)]\n#[path = \"one_tests.rs\"]\nmod tests;\n");
}

#[test]
fn brace_on_next_line_and_other_names() {
    assert_eq!(classify_source("#[cfg(test)]\nmod tests\n{\n}\n"), Classification::Inline);
    assert_eq!(classify_source("#[cfg(test)]\nmod testsuite {}\n"), Classification::NoTests);
}

#[test]
fn braces_in_literals_and_comments_inside_module() {
    let src = [
        "fn f<'a>(x: &'a str) -> &'a str { x }\n",
        "#[cfg(test)]\n",
        "mod tests {\n",
        "    const A: char = '{';\n",
        "    const B: &str = r##\"}\"#}\"##;\n",
        "    /* } /* } */ } */\n",
        "    fn a() { let _ = \"}\\\"}\"; }\n",
        "}\n",
        "fn after() {}\n",
    ]
    .concat();
    let region = find_test_module_region(&src).expect("should find region");
    let inner = &src[region.inner_start..region.inner_end];
    assert!(inner.ends_with("fn a() { let _ = \"}\\\"}\"; }\n"));
    assert!(src[region.outer_end..].starts_with("fn after()"));
}

#[test]
fn region_offsets_are_bytes() {
    let src = "// héllo wörld\n#[cfg(test)]\nmod tests {\n    fn ü() {}\n}\n";
    let region = find_test_module_region(src).expect("should find region");
    assert_eq!(&src[region.outer_start..region.outer_start + 12], "#[cfg(test)]");
    assert_eq!(&src[region.inner_start..region.inner_end], "\n    fn ü() {}\n");
    assert_eq!(region.outer_end, src.len());
}

#[test]
fn dedent_unicode_indent_off_boundary() {
    assert_eq!(dedent("\u{3000}a\n  b\n"), "\nb\n");
}

#[test]
fn dedent_crlf_and_blank_lines() {
    assert_eq!(dedent("    a\r\n    b\r\n"), "a\nb\n");
    assert_eq!(dedent("    a\n  \n    b"), "a\n\nb");
    assert_eq!(dedent("   \n  \n"), "   \n  \n");
}

#[test]
fn dedent_twice_is_dedent_once() {
    for text in [
        "    a\n      b\n",
        "\u{3000}a\n  b\n",
        "    a\r\r\n    b",
        "\t\tx\n\n\t\ty\n",
        "no indent\n  here\n",
    ] {
        let once = dedent(text);
        assert_eq!(dedent(&once), once);
    }
    assert_eq!(dedent("\t\tx\n\n\t\ty\n"), "x\n\ny\n");
}

#[test]
fn state_machine_ignores_braces_in_comments() {
    let mut state = ScanState::Normal;
    let mut braces = Vec::new();
    for ch in "// {\n/* } */ { }".chars() {
        let action = state.advance(ch);
        state = action.next;
        if action.brace != BraceAction::Neutral {
            braces.push(action.brace);
        }
    }
    assert_eq!(braces, vec![BraceAction::Open, BraceAction::Close]);
}

#[test]
fn json_escape_exact() {
    assert_eq!(json_escape("\u{1f}\r\n/é"), "\\u001f\\r\\n/é");
}

/// Reads the body of a JSON string literal back into text.
fn unescape_json(body: &str) -> String {
    let mut out = String::new();
    let mut chars = body.chars();
    while let Some(c) = chars.next() {
        if c != '\\' {
            out.push(c);
            continue;
        }
        match chars.next().expect("escape") {
            'n' => out.push('\n'),
            'r' => out.push('\r'),
            't' => out.push('\t'),
            'u' => {
                let hex: String = chars.by_ref().take(4).collect();
                let code = u32::from_str_radix(&hex, 16).expect("hex");
                out.push(char::from_u32(code).expect("scalar"));
            }
            other => out.push(other),
        }
    }
    out
}

#[test]
fn json_escape_reads_back() {
    for text in ["plain.rs", "a \"q\"\\b.rs", "\u{0}\u{1f}\t\r\n", "dir/é ü/x.rs"] {
        let escaped = json_escape(text);
        assert!(!escaped.chars().any(|c| (c as u32) < 0x20));
        assert_eq!(unescape_json(&escaped), text);
    }
}

#[test]
fn check_outputs_exact() {
    let mut results = vec![result("a \"q\".rs", Classification::Inline, None, false)];
    for i in 0..11 {
        results.push(result(&format!("n{i}.rs"), Classification::NoTests, None, false));
    }
    let report = Report { results };
    assert!(report.has_inline());
    assert_eq!(count(&report, Classification::NoTests), 11);
    assert_eq!(render_check(&report, OutputFormat::Text), "a \"q\".rs\n");
    let json = render_check(&report, OutputFormat::Json);
    assert!(json.starts_with("{\"files\":[{\"path\":\"a \\\"q\\\".rs\",\"status\":\"inline\"},{\"path\":\"n0.rs\""));
    assert!(json.ends_with("],\"summary\":{\"total\":12,\"inline\":1,\"external\":0,\"no_tests\":11}}\n"));
    let clean = Report { results: vec![result("b.rs", Classification::External, None, false)] };
    assert!(!clean.has_inline());
    assert_eq!(render_check(&clean, OutputFormat::Text), "");
    assert_eq!(render_check(&Report { results: Vec::new() }, OutputFormat::Json),
        "{\"files\":[],\"summary\":{\"total\":0,\"inline\":0,\"external\":0,\"no_tests\":0}}\n");
}

#[test]
fn apply_outputs_exact() {
    let report = Report {
        results: vec![
            result("src/aa.rs", Classification::Inline, Some("aa_tests.rs"), true),
            result("src/bb.rs", Classification::External, None, false),
            result("src/cc.rs", Classification::NoTests, None, false),
        ],
    };
    assert_eq!(
        render_apply(&report, OutputFormat::Text, false),
        "Created: src/aa_tests.rs\nModified: src/aa.rs\nSkipped (external): src/bb.rs\nSkipped (no tests): src/cc.rs\nSummary: 1 ejected, 1 external, 1 no tests (3 scanned)\n"
    );
    assert_eq!(
        render_apply(&report, OutputFormat::Json, false),
        "{\"files\":[{\"path\":\"src/aa.rs\",\"action\":\"ejected\",\"test_file\":\"aa_tests.rs\"},{\"path\":\"src/bb.rs\",\"action\":\"skipped_external\"},{\"path\":\"src/cc.rs\",\"action\":\"skipped_no_tests\"}],\"summary\":{\"total\":3,\"ejected\":1,\"would_eject\":0,\"external\":1,\"no_tests\":1}}\n"
    );
    assert_eq!(render_apply(&Report { results: Vec::new() }, OutputFormat::Text, false), "");
}

#[test]
fn apply_text_paths_without_parent() {
    let report = Report {
        results: vec![
            result("foo.rs", Classification::Inline, Some("foo_tests.rs"), false),
            result("/", Classification::Inline, Some("x_tests.rs"), false),
        ],
    };
    assert_eq!(
        render_apply(&report, OutputFormat::Text, true),
        "Would create: foo_tests.rs\nWould modify: foo.rs\nWould create: ./x_tests.rs\nWould modify: /\nSummary: 2 would eject, 0 external, 0 no tests (2 scanned)\n"
    );
}

#[test]
fn apply_source_per_file() {
    let (skipped, none) = apply_source("b.rs".to_owned(), "fn b() {}\n", "b", false).expect("ok");
    assert_eq!(skipped.classification, Classification::NoTests);
    assert!(none.is_none() && skipped.test_file.is_none() && !skipped.applied);
    let (done, extraction) = apply_source("a.rs".to_owned(), &sample(), "a", true).expect("ok");
    assert_eq!(done.classification, Classification::Inline);
    assert_eq!(done.test_file.as_deref(), Some("a_tests.rs"));
    assert!(!done.applied);
    assert!(extraction.expect("extraction").modified_source.contains("#[path = \"a_tests.rs\"]"));
}

#[test]
fn apply_file_single() {
    let (res, extraction) = apply_file("src/a.rs".to_owned(), &sample(), "a", false).expect("ok");
    assert_eq!(res.path, "src/a.rs");
    assert_eq!(res.classification, Classification::Inline);
    assert_eq!(res.test_file.as_deref(), Some("a_tests.rs"));
    assert!(res.applied);
    assert_eq!(extraction.test_file_name, "a_tests.rs");
    assert!(matches!(
        apply_file("b.rs".to_owned(), "fn b() {}\n", "b", false),
        Err(EjectError::NoTestModule)
    ));
    let external = "#[cfg(test)]\n#[path = \"c_tests.rs\"]\nmod tests;\n";
    assert!(matches!(
        apply_file("c.rs".to_owned(), external, "c", true),
        Err(EjectError::AlreadyExternal)
    ));
}

fn listed(path: &str, canonical: Result<&str, &str>) -> ListedPath {
    ListedPath {
        path: path.to_owned(),
        canonical: canonical.map(|c| c.to_owned()).map_err(|e| e.to_owned()),
    }
}

#[test]
fn file_filter_strict_and_lenient() {
    let ok = FileFilter::from_paths(
        "proj",
        "/home/u/proj",
        vec![listed("proj/a.rs", Ok("/home/u/proj/a.rs")), listed("proj/a.rs", Ok("/home/u/proj/a.rs"))],
        false,
    )
    .expect("accepted");
    assert!(ok.contains("/home/u/proj/a.rs"));
    assert!(!ok.contains("/home/u/proj/b.rs"));

    let outside = FileFilter::from_paths(
        "proj",
        "/home/u/proj",
        vec![listed("../projx/a.rs", Ok("/home/u/projx/a.rs"))],
        false,
    );
    match outside {
        Err(FilterError::OutsideRoot { path, root }) => {
            assert_eq!(path, "../projx/a.rs");
            assert_eq!(root, "proj");
        }
        _ => panic!("expected outside root"),
    }

    let missing = FileFilter::from_paths("proj", "/home/u/proj", vec![listed("x.rs", Err("not found"))], false);
    assert!(matches!(missing, Err(FilterError::Unresolvable { .. })));

    let lenient = FileFilter::from_paths(
        "proj",
        "/home/u/proj/",
        vec![
            listed("x.rs", Err("not found")),
            listed("../o.rs", Ok("/home/u/o.rs")),
            listed("proj/sub/c.rs", Ok("/home/u/proj/sub/c.rs")),
        ],
        true,
    )
    .expect("lenient never fails");
    assert!(lenient.contains("/home/u/proj/sub/c.rs"));
    assert!(!lenient.contains("/home/u/o.rs"));

    let root = FileFilter::from_paths("/", "/", vec![listed("/x.rs", Ok("/x.rs"))], false).expect("under root");
    assert!(root.contains("/x.rs"));
}

#[test]
fn file_list_skips_empty_lines() {
    assert_eq!(file_list_entries("a.rs\n\nb.rs\r\n"), vec!["a.rs".to_owned(), "b.rs".to_owned()]);
    assert!(file_list_entries("").is_empty());
}
