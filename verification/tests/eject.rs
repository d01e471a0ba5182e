use ejectest::{dedent, eject_tests, EjectError};

#[test]
fn basic_extraction() {
    let source = &[
        "use std::collections::HashMap;\n",
        "\n",
        "pub fn add(aa: i32, bb: i32) -> i32 {\n",
        "    aa + bb\n",
        "}\n",
        "\n",
        "#[cfg(test)]\n",
        "mod tests {\n",
        "    use super::*;\n",
        "\n",
        "    #[test]\n",
        "    fn test_add() {\n",
        "        assert_eq!(add(1, 2), 3);\n",
        "    }\n",
        "}\n",
    ].concat();

    let result = eject_tests(source, "math").expect("should succeed");

    assert!(result
        .modified_source
        .contains("#[path = \"math_tests.rs\"]"));
    assert!(result.modified_source.contains("mod tests;"));
    assert!(!result.modified_source.contains("fn test_add"));
    assert!(result.test_content.contains("fn test_add"));
    assert!(result.test_content.contains("use super::*;"));
    assert_eq!(result.test_file_name, "math_tests.rs");
}

#[test]
fn lib_no_test_module() {
    let source = "pub fn add(aa: i32, bb: i32) -> i32 { aa + bb }\n";
    let result = eject_tests(source, "math");
    assert!(matches!(result, Err(EjectError::NoTestModule)));
}

#[test]
fn lib_already_external() {
    let source = "#[cfg(test)]\n#[path = \"math_tests.rs\"]\nmod tests;\n";
    let result = eject_tests(source, "math");
    assert!(matches!(result, Err(EjectError::AlreadyExternal)));
}

#[test]
fn dedent_basic() {
    let input = "    use super::*;\n\n    #[test]\n    fn test_foo() {}\n";
    let result = dedent(input);
    assert!(result.starts_with("use super::*;"));
    assert!(result.contains("#[test]\nfn test_foo()"));
}

#[test]
fn dedent_no_indent() {
    let input = "use super::*;\nfn test_foo() {}\n";
    let result = dedent(input);
    assert_eq!(result, input);
}

#[test]
fn preserves_code_before_tests() {
    let source = &[
        "pub struct Foo;\n",
        "\n",
        "impl Foo {\n",
        "    pub fn bar(&self) -> i32 { 42 }\n",
        "}\n",
        "\n",
        "#[cfg(test)]\n",
        "mod tests {\n",
        "    use super::*;\n",
        "    #[test]\n",
        "    fn test_bar() {\n",
        "        assert_eq!(Foo.bar(), 42);\n",
        "    }\n",
        "}\n",
    ].concat();

    let result = eject_tests(source, "foo").expect("should succeed");
    assert!(result.modified_source.contains("pub struct Foo;"));
    assert!(result.modified_source.contains("impl Foo"));
    assert!(result.modified_source.contains("fn bar"));
}

#[test]
fn no_trailing_blank_lines() {
    let source = &[
        "pub fn add(aa: i32, bb: i32) -> i32 {\n",
        "    aa + bb\n",
        "}\n",
        "\n",
        "\n",
        "#[cfg(test)]\n",
        "mod tests {\n",
        "    use super::*;\n",
        "    #[test]\n",
        "    fn test_add() {\n",
        "        assert_eq!(add(1, 2), 3);\n",
        "    }\n",
        "}\n",
    ].concat();

    let result = eject_tests(source, "math").expect("should succeed");
    assert!(result.modified_source.ends_with("mod tests;\n"));
    assert!(!result.modified_source.ends_with("\n\n"));
}

#[test]
fn allow_attrs_on_mod_become_inner_attrs() {
    let source = &[
        "pub fn first(arr: &[i32]) -> i32 {\n",
        "    arr[0]\n",
        "}\n",
        "\n",
        "#[cfg(test)]\n",
        "#[allow(clippy::unwrap_used, clippy::indexing_slicing)]\n",
        "mod tests {\n",
        "    use super::*;\n",
        "    #[test]\n",
        "    fn test_first() {\n",
        "        assert_eq!(first(&[1, 2, 3]), 1);\n",
        "    }\n",
        "}\n",
    ].concat();
    let result = eject_tests(source, "lift").expect("should succeed");
    assert!(result
        .test_content
        .starts_with("#![allow(clippy::unwrap_used, clippy::indexing_slicing)]\nuse super::*;"));
    assert!(result.modified_source.contains("#[cfg(test)]"));
    assert!(result.modified_source.contains("#[path = \"lift_tests.rs\"]"));
    assert!(!result.modified_source.contains("#[allow"));
}

#[test]
fn raw_string_in_test_module() {
    let source = &[
        "pub fn foo() -> &'static str { \"hello\" }\n",
        "\n",
        "#[cfg(test)]\n",
        "mod tests {\n",
        "    use super::*;\n",
        "    #[test]\n",
        "    fn test_foo() {\n",
        "        let expected = r#\"{\"key\": \"value\"}\"#;\n",
        "        assert_eq!(foo(), \"hello\");\n",
        "    }\n",
        "}\n",
    ].concat();
    let result = eject_tests(source, "raw").expect("should succeed");
    assert_eq!(result.test_file_name, "raw_tests.rs");
    assert!(result.test_content.contains("r#\"{\"key\": \"value\"}\"#"));
}
