use hyperlit::api::{ApiService, EmbeddedAssetService, SiteInfo, documents_to_json};
use hyperlit::document::{ByteRange, Document, DocumentSource, SourceType, StringSet};
use hyperlit::http::{HttpMethod, HttpRequest, HttpService};
use hyperlit::pal::RealPal;
use hyperlit::path::FilePath;
use hyperlit::store::{DocumentStore, InMemoryStore};
use hyperlit::error::HyperlitError;

fn create_test_service() -> ApiService<InMemoryStore> {
    let store = InMemoryStore::new();
    let site_info = SiteInfo::new("Test Site").with_description("A test site").with_version("1.0.0");
    ApiService::new(store, site_info)
}

fn create_test_document(title: &str, content: &str) -> Document {
    let source = DocumentSource::new(SourceType::CodeComment, FilePath::from("src/test.rs"), 42);
    Document::new(title.to_string(), content.to_string(), source, None, &StringSet::new())
}

#[test]
fn test_handle_site_request_success() {
    let service = create_test_service();
    let request = HttpRequest::new(HttpMethod::Get, "/api/site");
    let response = service.handle_request(request).unwrap();

    assert_eq!(response.status().as_u16(), 200);
    assert_eq!(response.headers().get("Content-Type"), Some(&"application/json".to_string()));

    let body = response.body().as_string().unwrap();
    assert!(body.contains("Test Site"));
    assert!(body.contains("A test site"));
    assert!(body.contains("1.0.0"));
}

#[test]
fn test_handle_document_request_success() {
    let store = InMemoryStore::new();
    let site_info = SiteInfo::new("Test Site");
    let mut service = ApiService::new(store, site_info);

    // Insert a document
    let doc = create_test_document("My Document", "Document content");
    let id = doc.id().clone();
    service.store_mut().insert(doc).unwrap();

    // Request the document
    let request = HttpRequest::new(HttpMethod::Get, &format!("/api/document/{}", id.as_str()));
    let response = service.handle_request(request).unwrap();

    assert_eq!(response.status().as_u16(), 200);
    let body = response.body().as_string().unwrap();
    assert!(body.contains("My Document"));
    assert!(body.contains("Document content"));
}

#[test]
fn test_handle_document_request_not_found() {
    let service = create_test_service();
    let request = HttpRequest::new(HttpMethod::Get, "/api/document/non-existent");
    let result = service.handle_request(request);

    assert!(result.is_err());
    let error_msg = result.unwrap_err().to_string();
    assert!(error_msg.contains("Document not found"));
}

#[test]
fn test_handle_invalid_endpoint() {
    let service = create_test_service();
    let request = HttpRequest::new(HttpMethod::Get, "/api/other");
    let result = service.handle_request(request);

    assert!(result.is_err());
    let error_msg = result.unwrap_err().to_string();
    assert!(error_msg.contains("Invalid API endpoint"));
}

#[test]
fn test_handle_wrong_method() {
    let service = create_test_service();
    let request = HttpRequest::new(HttpMethod::Post, "/api/site");
    let result = service.handle_request(request);

    assert!(result.is_err());
    let error_msg = result.unwrap_err().to_string();
    assert!(error_msg.contains("Only GET requests are supported"));
}

#[test]
fn test_document_with_byte_range() {
    let store = InMemoryStore::new();
    let site_info = SiteInfo::new("Test Site");
    let mut service = ApiService::new(store, site_info);

    let source = DocumentSource::new(SourceType::CodeComment, FilePath::from("src/test.rs"), 42)
        .with_byte_range(ByteRange::new(100, 250));

    let doc = Document::new("Test Doc".to_string(), "Content".to_string(), source, None, &StringSet::new());
    let id = doc.id().clone();
    service.store_mut().insert(doc).unwrap();

    let request = HttpRequest::new(HttpMethod::Get, &format!("/api/document/{}", id.as_str()));
    let response = service.handle_request(request).unwrap();

    assert_eq!(response.status().as_u16(), 200);
    let body = response.body().as_string().unwrap();
    assert!(body.contains("\"byte_range\""));
    assert!(body.contains("\"start\":100"));
    assert!(body.contains("\"end\":250"));
}

#[test]
fn test_site_endpoint_with_query_params() {
    let service = create_test_service();
    let request = HttpRequest::new(HttpMethod::Get, "/api/site?format=json");
    let response = service.handle_request(request).unwrap();

    assert_eq!(response.status().as_u16(), 200);
    let body = response.body().as_string().unwrap();
    assert!(body.contains("Test Site"));
}

#[test]
fn site_json_is_exact() {
    let service = create_test_service();
    let response = service.handle_request(HttpRequest::new(HttpMethod::Get, "/api/site")).unwrap();
    assert_eq!(
        response.body().as_string().unwrap(),
        "{\"title\":\"Test Site\",\"description\":\"A test site\",\"version\":\"1.0.0\"}"
    );
}

#[test]
fn search_requires_query() {
    let service = create_test_service();
    let err = service.handle_request(HttpRequest::new(HttpMethod::Get, "/api/search")).unwrap_err();
    assert_eq!(err.to_string(), "Missing required query parameter 'q'");
    let err = service.handle_request(HttpRequest::new(HttpMethod::Get, "/api/search?q=")).unwrap_err();
    assert_eq!(err.to_string(), "Missing required query parameter 'q'");
}

#[test]
fn search_finds_stored_documents() {
    let mut service = create_test_service();
    service.store_mut().insert(create_test_document("Arc Guide", "about sharing")).unwrap();
    service.store_mut().insert(create_test_document("Other", "mentions arc here")).unwrap();
    let response =
        service.handle_request(HttpRequest::new(HttpMethod::Get, "/api/search?x=1&q=arc")).unwrap();
    assert_eq!(response.status().as_u16(), 200);
    let body = response.body().as_string().unwrap();
    assert!(body.starts_with("{\"query\":\"arc\""));
    let first = body.find("Arc Guide").unwrap();
    let second = body.find("\"Other\"").unwrap();
    assert!(first < second);
}

#[test]
fn documents_endpoint_lists_everything() {
    let mut service = create_test_service();
    service.store_mut().insert(create_test_document("One", "1")).unwrap();
    service.store_mut().insert(create_test_document("Two", "2")).unwrap();
    let response = service.handle_request(HttpRequest::new(HttpMethod::Get, "/api/documents")).unwrap();
    let body = response.body().as_string().unwrap();
    let listed = service.store().list().unwrap();
    assert_eq!(body, documents_to_json(&listed));
    assert!(body.contains("\"One\"") && body.contains("\"Two\""));
}

#[test]
fn document_id_must_not_be_empty() {
    let service = create_test_service();
    let err = service.handle_request(HttpRequest::new(HttpMethod::Get, "/api/document/")).unwrap_err();
    assert_eq!(err.to_string(), "Document ID cannot be empty");
}

#[test]
fn content_types_by_extension() {
    assert_eq!(EmbeddedAssetService::guess_content_type("index.html"), "text/html");
    assert_eq!(EmbeddedAssetService::guess_content_type("app.JS"), "application/javascript");
    assert_eq!(EmbeddedAssetService::guess_content_type("style.css"), "text/css");
    assert_eq!(EmbeddedAssetService::guess_content_type("logo.png"), "image/png");
    assert_eq!(EmbeddedAssetService::guess_content_type("data.bin"), "application/octet-stream");
}

#[test]
fn signature_found_from_the_end() {
    let data = [1u8, 2, 3, 1, 2, 3, 4];
    assert_eq!(EmbeddedAssetService::find_signature_backwards(&data, &[1, 2, 3]), Some(3));
    assert_eq!(EmbeddedAssetService::find_signature_backwards(&data, &[9]), None);
    assert_eq!(EmbeddedAssetService::find_signature_backwards(&[1, 2], &[1, 2, 3]), None);
}

#[test]
fn binary_without_zip_has_no_assets() {
    assert!(EmbeddedAssetService::from_binary(b"just an executable".to_vec()).is_none());
}

#[test]
fn error_responses_are_json_with_599() {
    let response = RealPal::convert_error_to_response(&HyperlitError::message("bad \"thing\""));
    assert_eq!(response.status().as_u16(), 599);
    assert_eq!(response.headers().get("Content-Type"), Some(&"application/json".to_string()));
    assert_eq!(response.body().as_string().unwrap(), "{\"error\":\"bad \\\"thing\\\"\"}");
    assert_eq!(RealPal::escape_json("a\tb\nc\\"), "a\\tb\\nc\\\\");
}

#[test]
fn site_json_escapes_like_serde_json() {
    let title = "a\u{1}\"b\\c\u{7f}é\n";
    let service = ApiService::new(InMemoryStore::new(), SiteInfo::new(title));
    let response = service.handle_request(HttpRequest::new(HttpMethod::Get, "/api/site")).unwrap();
    let expected = format!("{{\"title\":{}}}", serde_json::to_string(title).unwrap());
    assert_eq!(response.body().as_string().unwrap(), expected);
    assert_eq!(response.body().as_string().unwrap(), "{\"title\":\"a\\u0001\\\"b\\\\c\u{7f}é\\n\"}");
}
