// Test the HTTP errors.

use pencil::HTTPError;
use pencil::Method;

#[test]
fn test_http_error_code() {
    let error = HTTPError::NotFound;
    assert!(error.code() == 404);
}

#[test]
fn test_http_error_name() {
    let error = HTTPError::NotFound;
    assert!(error.name() == "Not Found");
}

#[test]
fn test_http_error_get_body() {
    let error = HTTPError::NotFound;
    assert!(error.get_body() == String::from(
"<!DOCTYPE HTML PUBLIC \"-//W3C//DTD HTML 3.2 Final//EN\">
<title>404 Not Found</title>
<h1>Not Found</h1>
<p>The requested URL was not found on the server.  If you entered the \
URL manually please check your spelling and try again.</p>
"));
}

#[test]
fn test_http_error_to_response() {
    let error = HTTPError::NotFound;
    let response = error.to_response();
    assert!(response.status_code == 404);
    assert!(response.content_type().unwrap() == "text/html; charset=UTF-8");
}

#[test]
fn test_payload_too_large_name() {
    assert_eq!(HTTPError::RequestEntityTooLarge.code(), 413);
    assert_eq!(HTTPError::RequestEntityTooLarge.name(), "Payload Too Large");
}

#[test]
fn test_http_error_new_codes() {
    assert_eq!(HTTPError::new(400).code(), 400);
    assert_eq!(HTTPError::new(405).code(), 405);
    assert_eq!(HTTPError::new(418).code(), 418);
    assert_eq!(HTTPError::new(503).code(), 503);
    // unknown codes fall back to the internal server error
    assert_eq!(HTTPError::new(747).code(), 500);
}

#[test]
fn test_method_not_allowed_response() {
    let error = HTTPError::MethodNotAllowed(Some(vec![Method::Get, Method::Head, Method::Options]));
    let response = error.to_response();
    assert_eq!(response.status_code, 405);
    assert_eq!(response.headers.get("Allow").unwrap(), "GET, HEAD, OPTIONS");
}
