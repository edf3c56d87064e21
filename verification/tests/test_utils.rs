// Test the shared string utilities.

use pencil::join_string;
use pencil::utils::{parse_usize, usize_to_string};

#[test]
fn test_join_string() {
    let list = vec!["GET".to_string(), "HEAD".to_string(), "OPTIONS".to_string()];
    assert_eq!(join_string(&list, ", "), "GET, HEAD, OPTIONS");
    assert_eq!(join_string(&Vec::new(), ", "), "");
    // empty strings at the front produce no leading separators
    let list = vec!["".to_string(), "x".to_string()];
    assert_eq!(join_string(&list, ","), "x");
}

#[test]
fn test_decimal_round_trip() {
    assert_eq!(usize_to_string(0), "0");
    assert_eq!(usize_to_string(301), "301");
    assert_eq!(usize_to_string(65535), "65535");
    assert_eq!(parse_usize("301"), Some(301));
    assert_eq!(parse_usize("0042"), Some(42));
    assert_eq!(parse_usize(""), None);
    assert_eq!(parse_usize("4a2"), None);
}
