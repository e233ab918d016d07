use hyperlit::document::{
    slugify, ByteRange, Document, DocumentId, DocumentMetadata, DocumentSource, SourceType, StringSet,
};
use hyperlit::path::FilePath;
use hyperlit::strmap::StrMap;

#[test]
fn test_document_id_from_title() {
    let existing = StringSet::new();

    let id1 = DocumentId::from_title("Why Use Arc?", &existing);
    assert_eq!(id1.as_str(), "why-use-arc");

    let id2 = DocumentId::from_title("Testing 123", &existing);
    assert_eq!(id2.as_str(), "testing-123");
}

#[test]
fn test_document_id_collision_handling() {
    let mut existing = StringSet::new();

    // First document with this title
    let id1 = DocumentId::from_title("Why Use Arc?", &existing);
    assert_eq!(id1.as_str(), "why-use-arc");
    existing.insert(id1.as_str().to_string());

    // Second document with same title - should get -1 suffix
    let id2 = DocumentId::from_title("Why Use Arc?", &existing);
    assert_eq!(id2.as_str(), "why-use-arc-1");
    existing.insert(id2.as_str().to_string());

    // Third document with same title - should get -2 suffix
    let id3 = DocumentId::from_title("Why Use Arc?", &existing);
    assert_eq!(id3.as_str(), "why-use-arc-2");
}

#[test]
fn test_slugify() {
    assert_eq!(slugify("Why Use Arc?"), "why-use-arc");
    assert_eq!(slugify("Hello World"), "hello-world");
    assert_eq!(slugify("Test   Multiple   Spaces"), "test-multiple-spaces");
    assert_eq!(slugify("Special@#$Chars"), "specialchars");
    assert_eq!(slugify("CamelCase"), "camelcase");
}

#[test]
fn test_document_creation() {
    let source = DocumentSource::new(SourceType::CodeComment, FilePath::from("test.rs"), 10);

    let existing = StringSet::new();
    let doc = Document::new("Test Document".to_string(), "Test content".to_string(), source, None, &existing);

    assert_eq!(doc.title(), "Test Document");
    assert_eq!(doc.content(), "Test content");
    assert_eq!(doc.source().line_number(), 10);
    assert_eq!(doc.id().as_str(), "test-document");
    assert!(doc.metadata().is_none());
}

#[test]
fn test_source_type_checks() {
    let code_source = DocumentSource::new(SourceType::CodeComment, FilePath::from("test.rs"), 10);
    assert!(code_source.is_code_comment());
    assert!(!code_source.is_markdown_file());

    let md_source = DocumentSource::new(SourceType::MarkdownFile, FilePath::from("doc.md"), 1);
    assert!(!md_source.is_code_comment());
    assert!(md_source.is_markdown_file());
}

#[test]
fn test_metadata_operations() {
    let mut fields = StrMap::new();
    fields.insert("author".to_string(), "Fred Brooks".to_string());
    fields.insert("date".to_string(), "2025-11-14".to_string());

    let metadata = DocumentMetadata::new(fields);

    assert_eq!(metadata.get("author"), Some("Fred Brooks"));
    assert_eq!(metadata.get("date"), Some("2025-11-14"));
    assert_eq!(metadata.get("nonexistent"), None);
    assert!(!metadata.is_empty());
}

#[test]
fn test_metadata_empty() {
    let metadata = DocumentMetadata::empty();
    assert!(metadata.is_empty());
    assert_eq!(metadata.get("any"), None);
}

#[test]
fn test_document_equality() {
    let source = DocumentSource::new(SourceType::CodeComment, FilePath::from("test.rs"), 10);

    let existing = StringSet::new();
    let doc1 = Document::new("Title".to_string(), "Content".to_string(), source.clone(), None, &existing);

    let doc2 = Document::new("Title".to_string(), "Content".to_string(), source, None, &existing);

    assert_eq!(doc1, doc2);
}

#[test]
fn test_document_id_collision_in_creation() {
    let mut existing = StringSet::new();
    let source1 = DocumentSource::new(SourceType::CodeComment, FilePath::from("test1.rs"), 10);
    let source2 = DocumentSource::new(SourceType::CodeComment, FilePath::from("test2.rs"), 20);

    // Create first document
    let doc1 = Document::new("Same Title".to_string(), "Content 1".to_string(), source1, None, &existing);
    assert_eq!(doc1.id().as_str(), "same-title");
    existing.insert(doc1.id().as_str().to_string());

    // Create second document with same title
    let doc2 = Document::new("Same Title".to_string(), "Content 2".to_string(), source2, None, &existing);
    assert_eq!(doc2.id().as_str(), "same-title-1");
}

#[test]
fn test_document_with_metadata() {
    let source = DocumentSource::new(SourceType::MarkdownFile, FilePath::from("docs/design.md"), 1);

    let mut fields = StrMap::new();
    fields.insert("author".to_string(), "Alice".to_string());
    let metadata = DocumentMetadata::new(fields);

    let existing = StringSet::new();
    let doc = Document::new(
        "Design Decision".to_string(),
        "We chose this because...".to_string(),
        source,
        Some(metadata),
        &existing,
    );

    assert!(doc.metadata().is_some());
    assert_eq!(doc.metadata().unwrap().get("author"), Some("Alice"));
}

#[test]
fn test_document_id_display() {
    let id = DocumentId::from_title("Test Title", &StringSet::new());
    assert_eq!(id.to_string(), "test-title");
}

#[test]
fn test_source_display() {
    let source = DocumentSource::new(SourceType::CodeComment, FilePath::from("src/main.rs"), 42);
    assert_eq!(source.file_path().to_string(), "src/main.rs");
    assert_eq!(source.line_number(), 42);
}

#[test]
fn test_slugify_edge_cases() {
    assert_eq!(slugify(""), "");
    assert_eq!(slugify("   "), "");
    assert_eq!(slugify("___"), "");
    assert_eq!(slugify("a-b-c"), "a-b-c");
    assert_eq!(slugify("a--b"), "a-b");
    assert_eq!(slugify("---"), "");
}

#[test]
fn test_metadata_iteration() {
    let mut fields = StrMap::new();
    fields.insert("key1".to_string(), "value1".to_string());
    fields.insert("key2".to_string(), "value2".to_string());

    let metadata = DocumentMetadata::new(fields);
    let pairs: Vec<_> = metadata.iter();

    assert_eq!(pairs.len(), 2);
    // Order doesn't matter, just verify both are present
    let has_key1 = pairs.iter().any(|(k, _)| *k == "key1");
    let has_key2 = pairs.iter().any(|(k, _)| *k == "key2");
    assert!(has_key1);
    assert!(has_key2);
}

#[test]
fn test_byte_range_creation() {
    let range = ByteRange::new(10, 50);
    assert_eq!(range.start(), 10);
    assert_eq!(range.end(), 50);
    assert_eq!(range.len(), 40);
    assert!(!range.is_empty());
}

#[test]
fn test_byte_range_empty() {
    let range = ByteRange::new(10, 10);
    assert_eq!(range.len(), 0);
    assert!(range.is_empty());
}

#[test]
fn test_byte_range_equality() {
    let range1 = ByteRange::new(10, 50);
    let range2 = ByteRange::new(10, 50);
    let range3 = ByteRange::new(10, 60);

    assert_eq!(range1, range2);
    assert_ne!(range1, range3);
}

#[test]
fn test_byte_range_saturating_subtraction() {
    // len() uses saturating subtraction
    let range = ByteRange::new(100, 50);
    assert_eq!(range.len(), 0); // 50.saturating_sub(100) = 0
}

#[test]
fn test_document_source_without_byte_range() {
    let source = DocumentSource::new(SourceType::CodeComment, FilePath::from("src/main.rs"), 42);

    assert_eq!(source.source_type(), SourceType::CodeComment);
    assert_eq!(source.file_path().to_string(), "src/main.rs");
    assert_eq!(source.line_number(), 42);
    assert!(source.byte_range().is_none());
}

#[test]
fn test_document_source_with_byte_range() {
    let range = ByteRange::new(100, 250);
    let source =
        DocumentSource::new(SourceType::CodeComment, FilePath::from("src/main.rs"), 42).with_byte_range(range);

    assert_eq!(source.source_type(), SourceType::CodeComment);
    assert_eq!(source.file_path().to_string(), "src/main.rs");
    assert_eq!(source.line_number(), 42);
    assert_eq!(source.byte_range(), Some(&ByteRange::new(100, 250)));
}

#[test]
fn test_document_source_byte_range_fluent() {
    let source = DocumentSource::new(SourceType::MarkdownFile, FilePath::from("docs/design.md"), 1)
        .with_byte_range(ByteRange::new(0, 1000));

    assert!(source.is_markdown_file());
    assert_eq!(source.byte_range().unwrap().len(), 1000);
}

#[test]
fn test_document_with_source_byte_range() {
    let range = ByteRange::new(50, 200);
    let source = DocumentSource::new(SourceType::CodeComment, FilePath::from("test.rs"), 10).with_byte_range(range);

    let existing = StringSet::new();
    let doc = Document::new("Test Doc".to_string(), "Content".to_string(), source, None, &existing);

    assert_eq!(doc.source().byte_range().unwrap().start(), 50);
    assert_eq!(doc.source().byte_range().unwrap().end(), 200);
}

#[test]
fn test_byte_range_copy_semantics() {
    let range1 = ByteRange::new(10, 50);
    let range2 = range1; // Copy trait

    assert_eq!(range1, range2);
    assert_eq!(range1.start(), range2.start());
}

#[test]
fn slugify_keeps_letters_digits_and_single_hyphens() {
    assert_eq!(slugify("  Leading and trailing  "), "leading-and-trailing");
    assert_eq!(slugify("x_y"), "x-y");
    assert_eq!(slugify("A1 B2"), "a1-b2");
}

#[test]
fn id_from_title_skips_taken_numbers() {
    let mut existing = StringSet::new();
    existing.insert("doc".to_string());
    existing.insert("doc-1".to_string());
    existing.insert("doc-2".to_string());
    let id = DocumentId::from_title("Doc", &existing);
    assert_eq!(id.as_str(), "doc-3");
    assert_eq!(DocumentId::from_string("any thing").as_str(), "any thing");
}

#[test]
fn string_set_insert_reports_new() {
    let mut set = StringSet::new();
    assert!(set.insert("a".to_string()));
    assert!(!set.insert("a".to_string()));
    assert!(set.contains("a"));
    assert!(!set.contains("b"));
}

#[test]
fn slug_of_a_slug_is_unchanged() {
    for title in ["Hello, World!", "  Why use -- Arc?  ", "snake_case_Title 42", "---"] {
        let once = slugify(title);
        assert_eq!(slugify(&once), once);
    }
}
