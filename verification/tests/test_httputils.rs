// Test http utilities.

use pencil::httputils::get_content_type;
use pencil::get_name_by_http_code;

#[test]
fn test_get_name_by_http_code() {
    let status_name = get_name_by_http_code(200).unwrap();
    assert!(status_name == "OK");
}

#[test]
fn httputils_test_get_name_by_http_code() {
    let status_name = get_name_by_http_code(200).unwrap();
    assert!(status_name == "OK");
}

#[test]
fn test_get_name_not_found() {
    assert_eq!(get_name_by_http_code(404), Some("Not Found"));
    assert_eq!(get_name_by_http_code(999), None);
}

#[test]
fn test_get_content_type() {
    assert_eq!(get_content_type("text/html", "UTF-8"), "text/html; charset=UTF-8");
    assert_eq!(get_content_type("application/xml", "UTF-8"), "application/xml; charset=UTF-8");
    assert_eq!(get_content_type("application/atom+xml", "UTF-8"), "application/atom+xml; charset=UTF-8");
    assert_eq!(get_content_type("image/png", "UTF-8"), "image/png");
    assert_eq!(get_content_type("text/html; charset=latin1", "UTF-8"), "text/html; charset=latin1");
}
