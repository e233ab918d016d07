use hyperlit::document::{DocumentMetadata, StringSet};
use hyperlit::error::HyperlitResult;
use hyperlit::extractor::{
    extract_documents, extract_first_heading, extract_markdown_document, extract_title, metadata_from_yaml,
    parse_frontmatter,
};
use hyperlit::pal::text_from_bytes;
use hyperlit::path::FilePath;
use hyperlit::strmap::StrMap;
use std::collections::HashSet;

/// Each file with the result of reading it as text, as the platform layer gives it.
fn read_all(files: &[(&str, &[u8])]) -> Vec<(FilePath, HyperlitResult<String>)> {
    files
        .iter()
        .map(|(name, bytes)| {
            let path = FilePath::from(*name);
            let read = text_from_bytes(&path, bytes.to_vec());
            (path, read)
        })
        .collect()
}

#[test]
fn test_extract_simple_markdown() {
    let content = "# Test Title\n\nThis is content.";
    let result = extract_documents(read_all(&[("test.md", content.as_bytes())])).unwrap();

    assert_eq!(result.documents.len(), 1);
    assert_eq!(result.documents[0].title(), "Test Title");
    assert_eq!(result.documents[0].content(), "# Test Title\n\nThis is content.");
    assert_eq!(result.errors.len(), 0);
}

#[test]
fn test_extract_markdown_with_frontmatter() {
    let content = "---\ntitle: \"Brooks' Law\"\nauthor: \"Fred Brooks\"\ndate: 2025-11-14\n---\n\n# Brooks's Law\n\nContent here.";
    let result = extract_documents(read_all(&[("brooks.md", content.as_bytes())])).unwrap();

    assert_eq!(result.documents.len(), 1);
    let doc = &result.documents[0];

    // Title from frontmatter, not heading
    assert_eq!(doc.title(), "Brooks' Law");

    // Content excludes frontmatter
    assert!(!doc.content().contains("---"));
    assert!(doc.content().contains("# Brooks's Law"));

    // Metadata extracted
    let meta = doc.metadata().unwrap();
    assert_eq!(meta.get("author"), Some("Fred Brooks"));
    assert_eq!(meta.get("date"), Some("2025-11-14"));
}

#[test]
fn test_extract_markdown_no_heading_uses_filename() {
    let content = "Just some content without a heading.";
    let result = extract_documents(read_all(&[("no-title.md", content.as_bytes())])).unwrap();

    assert_eq!(result.documents.len(), 1);
    assert_eq!(result.documents[0].title(), "no-title");
}

#[test]
fn test_extract_heading_with_trailing_tag() {
    let content = "# Amdahl's Law #law\n\nContent here.";
    let title = extract_first_heading(content);
    assert_eq!(title, Some("Amdahl's Law".to_string()));
}

#[test]
fn test_extract_unicode_title() {
    let content = "# Title including umlauts like \"ö\", \"ä\", \"ü\"\n\nContent.";
    let title = extract_first_heading(content);
    assert!(title.unwrap().contains("ö"));
}

#[test]
fn test_extract_multiple_files() {
    let result = extract_documents(read_all(&[
        ("file1.md", b"# File One\n\nContent 1."),
        ("file2.md", b"# File Two\n\nContent 2."),
        ("file3.md", b"# File Three\n\nContent 3."),
    ]))
    .unwrap();

    assert_eq!(result.documents.len(), 3);
    assert_eq!(result.errors.len(), 0);

    let ids: Vec<_> = result.documents.iter().map(|d| d.id().as_str()).collect();
    assert_eq!(ids.len(), 3);
    // All IDs should be unique
    let unique: HashSet<_> = ids.iter().collect();
    assert_eq!(unique.len(), 3);
}

#[test]
fn test_extract_non_utf8_file() {
    let result = extract_documents(read_all(&[("invalid.md", &[0xFF, 0xFE, 0xFD])])).unwrap();

    // Should have error, no documents
    assert_eq!(result.documents.len(), 0);
    assert_eq!(result.errors.len(), 1);
    assert_eq!(result.errors[0].file_path, FilePath::from("invalid.md"));
}

#[test]
fn test_extract_fail_tolerant() {
    let result = extract_documents(read_all(&[
        ("valid.md", b"# Valid\n\nContent."),
        ("invalid.md", &[0xFF, 0xFE, 0xFD]),
    ]))
    .unwrap();

    // Should extract valid file despite invalid one
    assert_eq!(result.documents.len(), 1);
    assert_eq!(result.documents[0].title(), "Valid");
    assert_eq!(result.errors.len(), 1);
}

#[test]
fn test_byte_range_without_frontmatter() {
    let content = "# Test\n\nContent.";
    let result = extract_documents(read_all(&[("test.md", content.as_bytes())])).unwrap();

    let doc = &result.documents[0];
    let range = doc.source().byte_range().unwrap();

    // Should cover entire file
    assert_eq!(range.start(), 0);
    assert_eq!(range.end(), content.len());
}

#[test]
fn test_byte_range_with_frontmatter() {
    let content = "---\ntitle: Test\n---\n\n# Content\n\nBody.";
    let result = extract_documents(read_all(&[("test.md", content.as_bytes())])).unwrap();

    let doc = &result.documents[0];
    let range = doc.source().byte_range().unwrap();

    // Should start after frontmatter
    assert!(range.start() > 0);
    assert_eq!(range.end(), content.len());

    // Content should not include frontmatter
    assert!(!doc.content().contains("---"));
}

#[test]
fn test_parse_frontmatter_empty() {
    let content = "# No frontmatter\n\nContent.";
    let (metadata, content_without, frontmatter_end) = parse_frontmatter(content).unwrap();

    assert!(metadata.is_none());
    assert_eq!(content_without, content);
    assert_eq!(frontmatter_end, 0);
}

#[test]
fn test_parse_frontmatter_with_data() {
    let content = "---\nkey: value\n---\n\nContent.";
    let (metadata, content_without, _) = parse_frontmatter(content).unwrap();

    assert!(metadata.is_some());
    let meta = metadata.unwrap();
    assert_eq!(meta.get("key"), Some("value"));
    assert!(!content_without.contains("---"));
    assert!(content_without.contains("Content."));
}

#[test]
fn test_extract_title_from_metadata() {
    let mut fields = StrMap::new();
    fields.insert("title".to_string(), "From Metadata".to_string());
    let metadata = Some(DocumentMetadata::new(fields));

    let title = extract_title("# From Heading\n\nContent", &metadata, &FilePath::from("file.md")).unwrap();
    assert_eq!(title, "From Metadata");
}

#[test]
fn test_extract_title_from_heading() {
    let metadata = None;
    let title = extract_title("# From Heading\n\nContent", &metadata, &FilePath::from("file.md")).unwrap();
    assert_eq!(title, "From Heading");
}

#[test]
fn test_extract_title_from_filename() {
    let metadata = None;
    let title = extract_title("No heading here\n\nContent", &metadata, &FilePath::from("my-file.md")).unwrap();
    assert_eq!(title, "my-file");
}

#[test]
fn test_extract_first_heading_not_found() {
    let content = "Just some text\n\nNo headings here";
    let title = extract_first_heading(content);
    assert!(title.is_none());
}

#[test]
fn test_extract_first_heading_ignores_h2() {
    let content = "## Not H1\n\n# This is H1\n\nContent";
    let title = extract_first_heading(content);
    assert_eq!(title, Some("This is H1".to_string()));
}

#[test]
fn test_extract_document_id_collision() {
    let result = extract_documents(read_all(&[
        ("file1.md", b"# Same Title\n\nContent 1."),
        ("file2.md", b"# Same Title\n\nContent 2."),
    ]))
    .unwrap();

    assert_eq!(result.documents.len(), 2);
    let id1 = result.documents[0].id().as_str();
    let id2 = result.documents[1].id().as_str();

    // IDs should be different
    assert_ne!(id1, id2);
    assert_eq!(id1, "same-title");
    assert_eq!(id2, "same-title-1");
}

#[test]
fn frontmatter_byte_offset_is_exact() {
    let content = "---\nkey: value\n---\nBody";
    let (_, rest, end) = parse_frontmatter(content).unwrap();
    assert_eq!(&content[end..], rest);
    assert_eq!(rest, "Body");
}

#[test]
fn unterminated_frontmatter_is_content() {
    let content = "---\nkey: value\nno end";
    let (metadata, rest, end) = parse_frontmatter(content).unwrap();
    assert!(metadata.is_none());
    assert_eq!(rest, content);
    assert_eq!(end, 0);
}

#[test]
fn yaml_scalars_become_text() {
    let meta = metadata_from_yaml("count: 3\nflag: true\nname: x").unwrap();
    assert_eq!(meta.get("count"), Some("3"));
    assert_eq!(meta.get("flag"), Some("true"));
    assert_eq!(meta.get("name"), Some("x"));
    assert!(metadata_from_yaml("- a\n- b").is_none());
}

#[test]
fn markdown_document_avoids_existing_ids() {
    let mut existing = StringSet::new();
    existing.insert("guide".to_string());
    let doc = extract_markdown_document(&FilePath::from("g.md"), "# Guide\n\nText", &existing).unwrap();
    assert_eq!(doc.id().as_str(), "guide-1");
    assert_eq!(doc.source().line_number(), 1);
    assert!(doc.source().is_markdown_file());
}

#[test]
fn non_utf8_error_names_the_file() {
    let err = text_from_bytes(&FilePath::from("bad.md"), vec![0xff]).unwrap_err();
    assert_eq!(err.to_string(), "File is not valid UTF-8: bad.md");
}
