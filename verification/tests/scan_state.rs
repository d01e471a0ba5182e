use ejectest::{BraceAction, ScanState};

/// Run the state machine over source and collect brace actions at code positions.
fn scan_braces(source: &str) -> Vec<(usize, BraceAction)> {
    let mut state = ScanState::Normal;
    let mut out = Vec::new();
    for (idx, ch) in source.char_indices() {
        let action = state.advance(ch);
        state = action.next;
        if action.brace != BraceAction::Neutral {
            out.push((idx, action.brace));
        }
    }
    out
}

#[test]
fn raw_string_braces_ignored() {
    // r#"}"# — brace inside a raw string should be ignored.
    let src = r##"let ss = r#"}"#; fn foo() {}"##;
    let braces = scan_braces(src);
    // Only the braces in `fn foo() {}` should be detected.
    assert_eq!(braces.len(), 2);
    assert!(braces.first().is_some_and(|bb| bb.1 == BraceAction::Open));
    assert!(braces.last().is_some_and(|bb| bb.1 == BraceAction::Close));
}

#[test]
fn raw_string_no_hashes() {
    let src = "let ss = r\"}\"; fn foo() {}";
    let braces = scan_braces(src);
    assert_eq!(braces.len(), 2);
}

#[test]
fn raw_string_multiple_hashes() {
    let src = r###"let ss = r##"}"##; fn foo() {}"###;
    let braces = scan_braces(src);
    assert_eq!(braces.len(), 2);
}

#[test]
fn nested_block_comment() {
    let src = "/* /* } */ } */ fn foo() {}";
    let braces = scan_braces(src);
    // Only braces in `fn foo() {}` after the outer comment closes.
    assert_eq!(braces.len(), 2);
}

#[test]
fn lifetime_followed_by_brace() {
    let src = "fn foo<'a>() {}";
    let braces = scan_braces(src);
    assert_eq!(braces.len(), 2);
    assert!(braces.first().is_some_and(|bb| bb.1 == BraceAction::Open));
    assert!(braces.last().is_some_and(|bb| bb.1 == BraceAction::Close));
}

#[test]
fn byte_raw_string_handled() {
    // br#"}"# — brace inside a byte raw string should be ignored.
    // Constructed at runtime to avoid raw-string nesting issues.
    let hash = '#';
    let quote = '\"';
    let src = format!("let ss = br{hash}{quote}}}{quote}{hash}; fn foo() {{}}");
    let braces = scan_braces(&src);
    assert_eq!(braces.len(), 2);
}

#[test]
fn seen_r_steps() {
    let quote = ScanState::advance_seen_r('"');
    assert_eq!(quote.next, ScanState::InRawString { hashes: 0 });
    assert_eq!(quote.brace, BraceAction::Neutral);
    assert_eq!(ScanState::advance_seen_r('#').next, ScanState::RawStringHashes { count: 1 });
    for ch in ['{', '}', 'x', '/', '\'', 'r'] {
        let a = ScanState::advance_seen_r(ch);
        let b = ScanState::advance_normal(ch);
        assert_eq!((a.next, a.brace), (b.next, b.brace));
    }
}

#[test]
fn raw_string_hashes_steps() {
    let more = ScanState::advance_raw_string_hashes(3, '#');
    assert_eq!(more.next, ScanState::RawStringHashes { count: 4 });
    assert_eq!(more.brace, BraceAction::Neutral);
    assert_eq!(ScanState::advance_raw_string_hashes(3, '"').next, ScanState::InRawString { hashes: 3 });
    for ch in ['{', '}', 'x', '/', 'r'] {
        let a = ScanState::advance_raw_string_hashes(2, ch);
        let b = ScanState::advance_normal(ch);
        assert_eq!((a.next, a.brace), (b.next, b.brace));
    }
}
