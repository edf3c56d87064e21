// Test the request and response objects.

use pencil::{Method, Request, Response};
use pencil::routing::{Matcher, Rule, UrlMap};

fn request_with_query() -> Request {
    Request::new(
        "localhost:8080".to_string(),
        "/search".to_string(),
        Some("q=verse".to_string()),
        Method::Get,
    )
}

#[test]
fn test_request_urls() {
    let request = request_with_query();
    assert_eq!(request.path(), "/search");
    assert_eq!(request.host(), "localhost:8080");
    assert_eq!(request.query_string(), Some("q=verse".to_string()));
    assert_eq!(request.method(), Method::Get);
    assert_eq!(request.full_path(), "/search?q=verse");
    assert_eq!(request.scheme(), "http");
    assert_eq!(request.host_url(), "http://localhost:8080/");
    assert_eq!(request.url(), "http://localhost:8080/search?q=verse");
    assert_eq!(request.base_url(), "http://localhost:8080/search");
    assert!(!request.is_secure());
    assert!(request.endpoint().is_none());
    assert!(request.module_name().is_none());
}

#[test]
fn test_response_content_headers() {
    let mut response = Response::new("abc".to_string());
    assert_eq!(response.content_type().unwrap(), "text/html; charset=UTF-8");
    response.set_content_type("application/json");
    assert_eq!(response.content_type().unwrap(), "application/json");
    assert!(response.content_length().is_none());
    response.set_content_length(42);
    assert_eq!(response.content_length(), Some(42));
    assert_eq!(response.status_name(), "OK");
    response.status_code = 418;
    assert_eq!(response.status_name(), "I'm a teapot");
    response.status_code = 999;
    assert_eq!(response.status_name(), "UNKNOWN");
}

#[test]
fn test_response_from_string_sets_length() {
    let response = Response::from_string("hello".to_string());
    assert_eq!(response.status_code, 200);
    assert_eq!(response.content_length(), Some(5));
    assert_eq!(response.body.unwrap(), "hello");
}

#[test]
fn test_request_module_name() {
    let mut map = UrlMap::new();
    map.add(Rule::new(
        Matcher::new("/x").unwrap(),
        &vec![Method::Get],
        "admin.panel",
    ));
    let mut request = Request::new("localhost".to_string(), "/x".to_string(), None, Method::Get);
    request.match_request(&map);
    assert_eq!(request.endpoint(), Some("admin.panel".to_string()));
    assert_eq!(request.module_name(), Some("admin".to_string()));
}
