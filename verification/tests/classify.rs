use ejectest::{classify_source, Classification};

fn inline_source() -> String {
    [
        "pub fn foo() -> i32 { 42 }\n",
        "\n",
        "#[cfg(test)]\n",
        "mod tests {\n",
        "    use super::*;\n",
        "    #[test]\n",
        "    fn test_foo() { assert_eq!(foo(), 42); }\n",
        "}\n",
    ].concat()
}

#[test]
fn classifies_inline() {
    assert_eq!(classify_source(&inline_source()), Classification::Inline);
}

#[test]
fn classifies_external() {
    let src = "#[cfg(test)]\n#[path = \"foo_tests.rs\"]\nmod tests;\n";
    assert_eq!(classify_source(src), Classification::External);
}

#[test]
fn classifies_no_tests() {
    assert_eq!(
        classify_source("pub fn foo() -> i32 { 42 }\n"),
        Classification::NoTests
    );
}
