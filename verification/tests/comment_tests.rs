use hyperlit::comment::CommentParser;

fn extracted(source: &str, ext: &str) -> String {
    let parser = CommentParser::new();
    match parser.extract_doc_comments(source, ext) {
        Ok(comments) => {
            if comments.is_empty() {
                "(no comments extracted)".to_string()
            } else {
                comments
                    .iter()
                    .map(|c| format!("line {}:\n{}", c.start_line, c.content))
                    .collect::<Vec<_>>()
                    .join("\n---\n")
            }
        }
        Err(e) => format!("Error: {}", e.to_string()),
    }
}

#[test]
fn test_extract_rust_doc_comment() {
    let source = "fn main() {\n    // 📖 This is documentation\n    println!(\"hello\");\n}";
    assert_eq!(extracted(source, "rs"), "line 2:\nThis is documentation\n");
}

#[test]
fn test_extract_rust_doc_comment_multiline() {
    let source = "fn main() {\n    // 📖 This is documentatixon\n    // This should be in there as well\n    println!(\"hello\");\n}";
    assert_eq!(extracted(source, "rs"), "line 2:\nThis is documentatixon\nThis should be in there as well\n");
}

#[test]
fn test_extract_multiple_markers() {
    let source = "// 📖 First doc comment\n// 📖 Second doc comment\nfn foo() {}\n\n// HINT: This is a hint\n// NOTE: This is a note\n// INFO: This is info\n// DOC: This uses DOC marker\n// DOCS: This uses DOCS marker";
    assert_eq!(
        extracted(source, "rs"),
        "line 1:\nFirst doc comment\n📖 Second doc comment\n\n---\nline 5:\nThis is a hint\nNOTE: This is a note\nINFO: This is info\nDOC: This uses DOC marker\nDOCS: This uses DOCS marker"
    );
}

#[test]
fn test_block_comment_markers() {
    let source = "fn foo() {\n/* 📖 Block comment docs\nSecond line */\nprintln!(\"hello\");\n}";
    assert_eq!(extracted(source, "rs"), "line 2:\nBlock comment docs\nSecond line ");
}

#[test]
fn test_no_comments_extracted() {
    let source = "fn main() {\n    // This is a regular comment\n    println!(\"hello\");\n}";
    assert_eq!(extracted(source, "rs"), "(no comments extracted)");
}

#[test]
fn test_unknown_extension() {
    assert_eq!(extracted("// 📖 some doc", "xyz"), "Error: Unknown extension: xyz");
}

#[test]
fn test_doc_in_string_not_extracted() {
    let source = "fn main() {\n    let s = \"📖 This is not a doc\";\n}";
    assert_eq!(extracted(source, "rs"), "(no comments extracted)");
}

#[test]
fn test_python_doc_comments() {
    let source = "def foo():\n    # 📖 This is Python documentation\n    pass\n\n    # 📖 Another doc comment\n    # with multiple lines\n    x = 1";
    assert_eq!(
        extracted(source, "py"),
        "line 2:\nThis is Python documentation\n\n---\nline 5:\nAnother doc comment\nwith multiple lines\n"
    );
}

#[test]
fn test_javascript_doc_comments() {
    let source = "function foo() {\n    // 📖 JavaScript documentation\n    return 42;\n}\n\n/* 📖 Block comment\n   documentation */";
    assert_eq!(
        extracted(source, "js"),
        "line 2:\nJavaScript documentation\n\n---\nline 6:\nBlock comment\n  documentation "
    );
}

#[test]
fn test_doc_marker_without_space() {
    assert_eq!(extracted("// 📖No space after marker", "rs"), "(no comments extracted)");
}

#[test]
fn custom_markers_only() {
    let parser = CommentParser::with_markers(vec!["TODO:".to_string()]);
    let comments = parser.extract_doc_comments("// TODO: fix this\nfn a() {}", "rs").unwrap();
    assert_eq!(comments.len(), 1);
    assert_eq!(comments[0].content, "fix this\n");
    assert_eq!(comments[0].start_line, 1);
    let none = parser.extract_doc_comments("// 📖 not a marker here", "rs").unwrap();
    assert!(none.is_empty());
}

#[test]
fn comment_offsets_are_byte_offsets_in_the_file() {
    let source = "fn main() {\n    // 📖 Docs here\n    let x = 1;\n}\n";
    let parser = CommentParser::new();
    let comments = parser.extract_doc_comments(source, "rs").unwrap();
    assert_eq!(comments.len(), 1);
    let start = source.find("Docs here").unwrap();
    assert_eq!(comments[0].start_byte, start);
    assert!(source[comments[0].start_byte..comments[0].end_byte].starts_with("Docs here"));
}

