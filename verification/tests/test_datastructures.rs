// Test data structures.

use pencil::datastructures::Headers;
use pencil::MultiDict;

#[test]
fn test_multi_dict_basic_interface() {
    let mut multi_dict: MultiDict<String> = MultiDict::new();
    multi_dict.add("Content-Type".to_string(), "text/plain".to_string());
    multi_dict.add("X-Foo".to_string(), "bar".to_string());
    assert!(multi_dict.get("X-Foo") != None);
    assert!(multi_dict.get("Content-Type") != None);

    multi_dict.set("Content-Type", "foo/bar".to_string());
    assert!(multi_dict.get("Content-Type").unwrap() == "foo/bar");

    multi_dict.add("X-Foo".to_string(), "bar2".to_string());

    let mut all_keys = vec![];
    for key in multi_dict.keys() {
        all_keys.push(key);
    }
    assert!(all_keys.len() == 2);
    let mut all_values = vec![];
    for value in multi_dict.values() {
        all_values.push(value);
    }
    assert!(all_values.len() == 2);
}

#[test]
fn test_multi_dict_getlist() {
    let mut md: MultiDict<String> = MultiDict::new();
    md.add("k".to_string(), "a".to_string());
    md.add("k".to_string(), "b".to_string());
    assert_eq!(md.getlist("k").unwrap(), &vec!["a".to_string(), "b".to_string()]);
    assert!(md.getlist("missing").is_none());
}

#[test]
fn test_headers_basic_interface() {
    let mut headers = Headers::new(None);
    headers.add("Content-Type", "text/plain");
    headers.add("X-Foo", "bar");
    headers.add("X-Foo", "baz");
    assert_eq!(headers.len(), 3);
    // lookups ignore ascii case
    assert_eq!(headers.get("content-type").unwrap(), "text/plain");
    assert_eq!(headers.get_all("x-foo"), vec!["bar".to_string(), "baz".to_string()]);
    // set replaces the first match and drops the others
    headers.set("X-FOO", "one");
    assert_eq!(headers.len(), 2);
    assert_eq!(headers.get("x-foo").unwrap(), "one");
    // remove drops every match and hands the first value back
    let removed = headers.remove("X-Foo");
    assert_eq!(removed, Some("one".to_string()));
    assert_eq!(headers.len(), 1);
    assert_eq!(headers.keys(), vec!["Content-Type".to_string()]);
    assert_eq!(headers.values(), vec!["text/plain".to_string()]);
    headers.clear();
    assert_eq!(headers.len(), 0);
}
