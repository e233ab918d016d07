use hyperlit::ranges::Extractor;

fn create_test_extractor() -> Extractor {
    Extractor::new(&["📖", "DOC", "DOC:", "DOCS", "DOCS:"])
}

fn snippets(extension: &str, source: &str) -> Vec<String> {
    let extractor = create_test_extractor();
    let result = extractor.extract(source, extension).unwrap();
    result.iter().map(|extraction| source[extraction.byte_range.clone()].to_string()).collect()
}

#[test]
fn extract_from_rust_source() {
    let source = r#"
        use foo;
        /* 📖 The #atag title #btag
This is a test *//* should not be in doc comment */
        1+2
        // 📖 Just a line comment
        3+4
        "#;
    assert_eq!(
        snippets("rs", source),
        vec!["The #atag title #btag\nThis is a test ".to_string(), "Just a line comment\n".to_string()]
    );
}

#[test]
fn extract_interleaved_block_comment() {
    let source = r#" /* 📖 One */
    /* doc Should not be extracted */
    /* DOC Two */
    /* DOCS: Three */
    "#;
    assert_eq!(
        snippets("rs", source),
        vec!["One */\n   ".to_string(), "Two */\n  ".to_string(), "Three */\n    ".to_string()]
    );
}

#[test]
fn unknown_extension_is_an_error() {
    let extractor = create_test_extractor();
    assert!(extractor.extract("// 📖 x", "nope").is_err());
}
