use hyperlit::document::{Document, DocumentId, DocumentSource, SourceType, StringSet};
use hyperlit::document_service::{document_answer, DocumentService};
use hyperlit::error::HyperlitError;
use hyperlit::http::{HttpMethod, HttpRequest};
use hyperlit::path::FilePath;
use hyperlit::store::{DocumentStore, InMemoryStore};

fn create_test_document(title: &str, content: &str) -> Document {
    let source = DocumentSource::new(SourceType::CodeComment, FilePath::from("src/test.rs"), 42);
    Document::new(title.to_string(), content.to_string(), source, None, &StringSet::new())
}

fn empty_service() -> DocumentService<InMemoryStore> {
    DocumentService::new(InMemoryStore::new())
}

#[test]
fn test_extract_document_id_valid() {
    let service = empty_service();
    assert_eq!(service.extract_document_id("/api/document/my-doc"), Some(DocumentId::from_string("my-doc")));
    assert_eq!(
        service.extract_document_id("/api/document/why-use-arc"),
        Some(DocumentId::from_string("why-use-arc"))
    );
}

#[test]
fn test_extract_document_id_invalid() {
    let service = empty_service();
    assert!(service.extract_document_id("/api/document/").is_none());
    assert!(service.extract_document_id("/api/other/my-doc").is_none());
    assert!(service.extract_document_id("/wrong/path").is_none());
    assert!(service.extract_document_id("api/document/my-doc").is_none());
}

#[test]
fn test_document_to_json() {
    let service = empty_service();
    let doc = create_test_document("Test Title", "Test content");
    let json = service.document_to_json(&doc);
    assert!(json.contains("\"id\":\""));
    assert!(json.contains("\"title\":\"Test Title\""));
    assert!(json.contains("\"content\":\"Test content\""));
    assert!(json.contains("\"source\":"));
    assert!(json.contains("\"type\":\"code_comment\""));
    assert!(json.contains("\"file_path\":\"src/test.rs\""));
    assert!(json.contains("\"line_number\":42"));
}

#[test]
fn test_document_to_json_escaping() {
    let service = empty_service();
    let doc = create_test_document("Title with \"quotes\"", "Line1\nLine2\\");
    let json = service.document_to_json(&doc);
    assert!(json.contains("\\\"quotes\\\""));
    assert!(json.contains("\\n"));
    assert!(json.contains("\\\\"));
}

#[test]
fn test_handle_request_success() {
    let mut store = InMemoryStore::new();
    let doc = create_test_document("My Document", "Document content");
    let id = doc.id().clone();
    store.insert(doc).unwrap();
    let service = DocumentService::new(store);

    let request = HttpRequest::new(HttpMethod::Get, &format!("/api/document/{}", id.as_str()));
    let response = service.handle_request(request);

    assert_eq!(response.status().as_u16(), 200);
    assert_eq!(response.headers().get("Content-Type"), Some(&"application/json".to_string()));
    let body = response.body().as_string().unwrap();
    assert!(body.contains("My Document"));
    assert!(body.contains("Document content"));
}

#[test]
fn test_handle_request_not_found() {
    let service = empty_service();
    let request = HttpRequest::new(HttpMethod::Get, "/api/document/non-existent-doc");
    let response = service.handle_request(request);
    assert_eq!(response.status().as_u16(), 599);
    let body = response.body().as_string().unwrap();
    assert!(body.contains("error"));
}

#[test]
fn test_handle_request_invalid_path() {
    let service = empty_service();
    let request = HttpRequest::new(HttpMethod::Get, "/invalid/path");
    let response = service.handle_request(request);
    assert_eq!(response.status().as_u16(), 599);
    let body = response.body().as_string().unwrap();
    assert!(body.contains("Invalid path format"));
}

#[test]
fn test_handle_request_wrong_method() {
    let service = empty_service();
    let request = HttpRequest::new(HttpMethod::Post, "/api/document/test");
    let response = service.handle_request(request);
    assert_eq!(response.status().as_u16(), 599);
    let body = response.body().as_string().unwrap();
    assert!(body.contains("Only GET requests are supported"));
}

#[test]
fn test_escape_json() {
    assert_eq!(DocumentService::<InMemoryStore>::escape_json("test"), "test");
    assert_eq!(DocumentService::<InMemoryStore>::escape_json("with\"quotes\""), "with\\\"quotes\\\"");
    assert_eq!(DocumentService::<InMemoryStore>::escape_json("path\\to\\file"), "path\\\\to\\\\file");
    assert_eq!(DocumentService::<InMemoryStore>::escape_json("line1\nline2"), "line1\\nline2");
    assert_eq!(DocumentService::<InMemoryStore>::escape_json("tab\there"), "tab\\there");
}

#[test]
fn document_json_has_exact_layout() {
    let service = empty_service();
    let doc = create_test_document("T", "C");
    let json = service.document_to_json(&doc);
    let expected = format!(
        "{{\"id\":\"{}\",\"title\":\"T\",\"content\":\"C\",\"source\":{{\"type\":\"code_comment\",\"file_path\":\"src/test.rs\",\"line_number\":42}}}}",
        doc.id().as_str()
    );
    assert_eq!(json, expected);
}

#[test]
fn failure_body_is_an_error_object() {
    let service = empty_service();
    let response = service.handle_request(HttpRequest::new(HttpMethod::Get, "/api/document/missing"));
    assert_eq!(response.body().as_string().unwrap(), "{\"error\":\"Document not found\"}");
}

#[test]
fn document_answer_follows_the_store() {
    let doc = create_test_document("T", "C");
    let expected = DocumentService::new(InMemoryStore::new()).document_to_json(&doc);
    let ok = document_answer(Ok(Some(doc)));
    assert_eq!(ok.status().as_u16(), 200);
    assert_eq!(ok.body().as_string().unwrap(), expected);
    let missing = document_answer(Ok(None));
    assert_eq!(missing.status().as_u16(), 599);
    assert_eq!(missing.body().as_string().unwrap(), "{\"error\":\"Document not found\"}");
    let failed = document_answer(Err(Box::new(HyperlitError::message("disk \"full\""))));
    assert_eq!(failed.status().as_u16(), 599);
    assert_eq!(failed.body().as_string().unwrap(), "{\"error\":\"Error retrieving document: disk \\\"full\\\"\"}");
}
