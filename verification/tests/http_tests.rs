use hyperlit::error::HyperlitResult;
use hyperlit::http::HttpService;
use hyperlit::http::{
    HttpBody, HttpHeaders, HttpMethod, HttpRequest, HttpResponse, HttpServerConfig, HttpServerHandle,
    HttpStatusCode,
};

#[test]
fn test_http_method_from_str() {
    assert_eq!(HttpMethod::parse("GET"), Some(HttpMethod::Get));
    assert_eq!(HttpMethod::parse("POST"), Some(HttpMethod::Post));
    assert_eq!(HttpMethod::parse("put"), Some(HttpMethod::Put)); // Case insensitive
    assert_eq!(HttpMethod::parse("INVALID"), None);
}

#[test]
fn test_http_method_display() {
    assert_eq!(HttpMethod::Get.to_string(), "GET");
    assert_eq!(HttpMethod::Post.to_string(), "POST");
}

#[test]
fn test_http_headers() {
    let mut headers = HttpHeaders::new();
    headers.insert("Content-Type", "application/json");
    headers.insert("Authorization", "Bearer token123");

    assert_eq!(headers.get("Content-Type"), Some(&"application/json".to_string()));
    assert!(headers.contains("Authorization"));
    assert!(!headers.contains("X-Custom"));

    headers.remove("Authorization");
    assert!(!headers.contains("Authorization"));
}

#[test]
fn test_http_body() {
    let body = HttpBody::from_string("Hello, World!");
    assert_eq!(body.as_string(), Some("Hello, World!".to_string()));
    assert_eq!(body.len(), 13);

    let empty = HttpBody::empty();
    assert!(empty.is_empty());
}

#[test]
fn test_http_request() {
    let request = HttpRequest::new(HttpMethod::Get, "/api/test")
        .with_header("Accept", "application/json")
        .with_body(HttpBody::from_string("{\"key\": \"value\"}"));

    assert_eq!(request.method(), &HttpMethod::Get);
    assert_eq!(request.path(), "/api/test");
    assert_eq!(request.headers().get("Accept"), Some(&"application/json".to_string()));
    assert_eq!(request.body().as_string(), Some("{\"key\": \"value\"}".to_string()));
}

#[test]
fn test_http_response_helpers() {
    let ok = HttpResponse::ok();
    assert_eq!(ok.status(), HttpStatusCode::OK);

    let not_found = HttpResponse::not_found();
    assert_eq!(not_found.status(), HttpStatusCode::NotFound);

    let json = HttpResponse::json("{\"data\": []}");
    assert_eq!(json.status(), HttpStatusCode::OK);
    assert_eq!(json.headers().get("Content-Type"), Some(&"application/json".to_string()));

    let text = HttpResponse::text("Hello");
    assert_eq!(text.body().as_string(), Some("Hello".to_string()));
}

#[test]
fn test_http_status_code_from_u16() {
    assert_eq!(HttpStatusCode::from(200), HttpStatusCode::OK);
    assert_eq!(HttpStatusCode::from(404), HttpStatusCode::NotFound);
    assert_eq!(HttpStatusCode::from(500), HttpStatusCode::InternalServerError);
    assert_eq!(HttpStatusCode::from(999), HttpStatusCode::InternalServerError); // Unknown defaults to 500
}

#[test]
fn test_http_server_config() {
    let config = HttpServerConfig::new("127.0.0.1").with_port(8080).with_server_name("test-server");

    assert_eq!(config.address(), "127.0.0.1:8080");
    assert_eq!(config.server_name, "test-server");

    let default = HttpServerConfig::default();
    assert_eq!(default.address(), "127.0.0.1:0");
}

#[test]
fn test_http_server_handle() {
    let handle = HttpServerHandle::new(8080);
    assert_eq!(handle.port(), 8080);
    assert_eq!(handle.address("127.0.0.1"), "127.0.0.1:8080");

    // Test shutdown flag
    assert!(!handle.is_shutdown());
    handle.shutdown();
    assert!(handle.is_shutdown());
}

#[test]
fn status_code_numbers_and_reasons() {
    assert_eq!(HttpStatusCode::from(599).as_u16(), 599);
    assert_eq!(HttpStatusCode::from(201), HttpStatusCode::Created);
    assert_eq!(HttpStatusCode::NotFound.as_u16(), 404);
    assert_eq!(HttpStatusCode::NotFound.reason_phrase(), "Not Found");
    assert_eq!(HttpStatusCode::OK.reason_phrase(), "OK");
}

#[test]
fn method_names_round_trip() {
    for m in [HttpMethod::Get, HttpMethod::Post, HttpMethod::Put, HttpMethod::Delete] {
        assert_eq!(HttpMethod::parse(m.as_str()), Some(m));
    }
    assert_eq!(HttpMethod::parse("delete"), Some(HttpMethod::Delete));
}

#[test]
fn body_bytes_and_invalid_text() {
    let body = HttpBody::from_bytes(vec![0xff, 0xfe]);
    assert_eq!(body.len(), 2);
    assert_eq!(body.as_string(), None);
    assert_eq!(body.into_bytes(), vec![0xff, 0xfe]);
}

#[test]
fn response_builders_set_headers() {
    let r = HttpResponse::new(HttpStatusCode::from(599))
        .with_content_type("text/plain")
        .with_body(HttpBody::from_string("x"));
    assert_eq!(r.status().as_u16(), 599);
    assert_eq!(r.headers().get("Content-Type"), Some(&"text/plain".to_string()));
    assert_eq!(r.body().as_string(), Some("x".to_string()));
}

#[test]
fn server_config_without_port() {
    let config = HttpServerConfig::new("0.0.0.0");
    assert_eq!(config.address(), "0.0.0.0:0");
}

#[test]
fn bodies_compare_by_bytes() {
    assert_eq!(HttpBody::from_string("abc"), HttpBody::from_bytes(b"abc".to_vec()));
    assert_ne!(HttpBody::from_string("abc"), HttpBody::from_string("abd"));
    assert_eq!(HttpBody::default(), HttpBody::empty());
}

#[derive(Debug)]
struct TestService;

impl HttpService for TestService {
    fn handle_request(&self, request: HttpRequest) -> HyperlitResult<HttpResponse> {
        if request.path() == "/test" {
            Ok(HttpResponse::text("OK"))
        } else {
            Ok(HttpResponse::not_found())
        }
    }
}

#[test]
fn test_http_service_trait() {
    let service = TestService;
    let req = HttpRequest::new(HttpMethod::Get, "/test");
    let resp = service.handle_request(req).unwrap();
    assert_eq!(resp.status(), HttpStatusCode::OK);
    assert_eq!(resp.body().as_string(), Some("OK".to_string()));

    let req2 = HttpRequest::new(HttpMethod::Get, "/other");
    let resp2 = service.handle_request(req2).unwrap();
    assert_eq!(resp2.status(), HttpStatusCode::NotFound);
}

#[test]
fn body_from_bytes_and_strings() {
    let b = HttpBody::from(vec![1u8, 2, 3]);
    assert_eq!(b.as_bytes(), &[1u8, 2, 3]);
    assert_eq!(b, HttpBody::from_bytes(vec![1u8, 2, 3]));
    let s = HttpBody::from(String::from("héllo"));
    assert_eq!(s.as_bytes(), "héllo".as_bytes());
    let t = HttpBody::from("abc");
    assert_eq!(t.len(), 3);
    assert_eq!(t.as_string(), Some("abc".to_string()));
}

#[test]
fn headers_default_and_equality() {
    let mut a = HttpHeaders::default();
    assert!(a.all().is_empty());
    a.insert("A", "1");
    a.insert("B", "2");
    let mut b = HttpHeaders::new();
    b.insert("B", "2");
    b.insert("A", "1");
    assert!(a == b);
    b.insert("A", "3");
    assert!(a != b);
    assert_eq!(b.all().len(), 2);
    assert_eq!(b.into_inner().len(), 2);
}
