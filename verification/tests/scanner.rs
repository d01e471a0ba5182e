use ejectest::{find_test_module_region, EjectError};

#[test]
fn basic_region() {
    let src = "fn main() {}\n\n#[cfg(test)]\nmod tests {\n    use super::*;\n}\n";
    let rg = find_test_module_region(src).expect("should find region");
    let outer = src.get(rg.outer_start..rg.outer_end).expect("valid range");
    assert!(outer.starts_with("#[cfg(test)]"));
    assert!(outer.contains("mod tests"));
}

#[test]
fn scanner_already_external() {
    let src = "#[cfg(test)]\n#[path = \"t.rs\"]\nmod tests;\n";
    let err = find_test_module_region(src).expect_err("should fail");
    assert!(matches!(err, EjectError::AlreadyExternal));
}

#[test]
fn scanner_no_test_module() {
    let src = "fn main() {}\n";
    let err = find_test_module_region(src).expect_err("should fail");
    assert!(matches!(err, EjectError::NoTestModule));
}

#[test]
fn braces_in_string() {
    let src = &[
        "#[cfg(test)]\nmod tests {\n",
        "    fn t() { let s = \"}\"; }\n",
        "}\n"
    ].concat();
    let rg = find_test_module_region(src).expect("should handle string braces");
    let inner = src.get(rg.inner_start..rg.inner_end).expect("valid range");
    assert!(inner.contains("let s"));
}

#[test]
fn braces_in_comments() {
    let src = &[
        "#[cfg(test)]\nmod tests {\n",
        "    // }\n",
        "    /* } */\n",
        "    fn t() {}\n",
        "}\n"
    ].concat();
    let rg = find_test_module_region(src).expect("should handle comment braces");
    let inner = src.get(rg.inner_start..rg.inner_end).expect("valid range");
    assert!(inner.contains("fn t()"));
}

#[test]
fn same_line_cfg() {
    let src = "fn main() {}\n#[cfg(test)] mod tests {\n    fn t() {}\n}\n";
    let rg = find_test_module_region(src).expect("should find same-line cfg");
    assert!(src
        .get(rg.outer_start..rg.outer_end)
        .expect("valid")
        .starts_with("#[cfg(test)]"));
}

#[test]
fn cfg_test_in_doc_comment_skipped() {
    let src = &[
        "/// No inline `#[cfg(test)] mod tests` here.\n",
        "pub fn foo() {}\n",
        "\n",
        "#[cfg(test)]\n",
        "mod tests {\n",
        "    fn real_test() {}\n",
        "}\n"
    ].concat();
    let rg = find_test_module_region(src).expect("should skip doc comment");
    let inner = src.get(rg.inner_start..rg.inner_end).expect("valid range");
    assert!(inner.contains("real_test"));
}

#[test]
fn char_literal_with_quote() {
    let src = &[
        "fn foo() { let _c = '\"'; }\n",
        "\n",
        "#[cfg(test)]\n",
        "mod tests {\n",
        "    fn real_test() {}\n",
        "}\n"
    ].concat();
    let rg = find_test_module_region(src).expect("should handle char literal with quote");
    let inner = src.get(rg.inner_start..rg.inner_end).expect("valid range");
    assert!(inner.contains("real_test"));
}

#[test]
fn cfg_test_in_string_literal_skipped() {
    let src = &[
        "fn foo() { let _s = \"#[cfg(test)] mod tests { }\"; }\n",
        "\n",
        "#[cfg(test)]\n",
        "mod tests {\n",
        "    fn real_test() {}\n",
        "}\n"
    ].concat();
    let rg = find_test_module_region(src).expect("should skip string literal");
    let inner = src.get(rg.inner_start..rg.inner_end).expect("valid range");
    assert!(inner.contains("real_test"));
}
