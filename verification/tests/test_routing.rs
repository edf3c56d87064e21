// Test the URL routing.

use pencil::routing::{MapAdapterMatched, Matcher, Rule, RuleError, UrlMap};
use pencil::{HTTPError, Method};

fn rule(template: &str, methods: &[Method], endpoint: &str) -> Rule {
    Rule::new(Matcher::new(template).unwrap(), &methods.to_vec(), endpoint)
}

#[test]
fn test_basic_routing() {
    let mut map = UrlMap::new();
    map.add(rule("/", &[Method::Get], "index"));
    map.add(rule("/foo", &[Method::Get], "foo"));
    map.add(rule("/bar/", &[Method::Get], "bar"));
    let adapter = map.bind(String::from("localhost"), String::from("/bar/"), None, Method::Get);
    match adapter.matched() {
        MapAdapterMatched::MatchedRule((rule, view_args)) => {
            assert!(rule.methods.contains(&Method::Get));
            assert!(!rule.methods.contains(&Method::Post));
            assert!(rule.endpoint == String::from("bar"));
            assert!(view_args.len() == 0);
        },
        _ => { panic!("Basic routing failed!"); }
    }
}

#[test]
fn test_routing_scenarios() {
    let mut map = UrlMap::new();
    map.add(rule("/", &[Method::Get], "index"));
    map.add(rule("/foo", &[Method::Get], "foo"));
    map.add(rule("/bar/", &[Method::Get], "bar"));

    // a branch path without the trailing slash redirects to it
    let adapter = map.bind(String::from("localhost"), String::from("/bar"), None, Method::Get);
    match adapter.matched() {
        MapAdapterMatched::MatchedRedirect((url, code)) => {
            assert_eq!(url, "http://localhost/bar/");
            assert_eq!(code, 301);
        },
        _ => panic!("expected a redirect"),
    }

    // the query string of the request survives the redirect
    let adapter = map.bind(
        String::from("localhost"),
        String::from("/bar"),
        Some(String::from("a=1&b=2")),
        Method::Get,
    );
    match adapter.matched() {
        MapAdapterMatched::MatchedRedirect((url, code)) => {
            assert_eq!(url, "http://localhost/bar/?a=1&b=2");
            assert_eq!(code, 301);
        },
        _ => panic!("expected a redirect"),
    }

    // an unknown path is not found
    let adapter = map.bind(String::from("localhost"), String::from("/missing"), None, Method::Get);
    match adapter.matched() {
        MapAdapterMatched::MatchedError(HTTPError::NotFound) => {},
        _ => panic!("expected not found"),
    }

    // a known path under the wrong method carries the allowed methods
    let adapter = map.bind(String::from("localhost"), String::from("/foo"), None, Method::Post);
    match adapter.matched() {
        MapAdapterMatched::MatchedError(HTTPError::MethodNotAllowed(Some(methods))) => {
            assert_eq!(methods.len(), 3);
            assert!(methods.contains(&Method::Get));
            assert!(methods.contains(&Method::Head));
            assert!(methods.contains(&Method::Options));
        },
        _ => panic!("expected method not allowed"),
    }
}

#[test]
fn test_redirect_beats_later_exact_match() {
    // a slash redirect short-circuits the scan: it wins over an exact
    // match of a lower-priority rule
    let mut map = UrlMap::new();
    map.add(rule("/bar/", &[Method::Get], "branch"));
    map.add(rule("/bar", &[Method::Get], "leaf"));
    let adapter = map.bind(String::from("localhost"), String::from("/bar"), None, Method::Get);
    assert!(matches!(adapter.matched(), MapAdapterMatched::MatchedRedirect(_)));
}

#[test]
fn test_first_matching_rule_wins() {
    let mut map = UrlMap::new();
    map.add(rule("/x", &[Method::Get], "first"));
    map.add(rule("/x", &[Method::Get], "second"));
    let adapter = map.bind(String::from("localhost"), String::from("/x"), None, Method::Get);
    match adapter.matched() {
        MapAdapterMatched::MatchedRule((rule, _)) => assert_eq!(rule.endpoint, "first"),
        _ => panic!("expected a match"),
    }
}

#[test]
fn test_method_normalization() {
    let r = rule("/x", &[Method::Get], "x");
    assert!(r.methods.contains(&Method::Get));
    assert!(r.methods.contains(&Method::Head));
    assert!(r.methods.contains(&Method::Options));
    assert!(r.provide_automatic_options);

    let r = rule("/x", &[Method::Post, Method::Options], "x");
    assert!(r.methods.contains(&Method::Post));
    assert!(!r.methods.contains(&Method::Head));
    assert!(r.methods.contains(&Method::Options));
    assert!(!r.provide_automatic_options);
}

#[test]
fn test_view_args_capture() {
    let r = rule("/user/<int:id>/<name>", &[Method::Get], "user");
    match r.matched(String::from("/user/42/alice")) {
        Some(Ok(args)) => {
            assert_eq!(args.get("id").unwrap(), "42");
            assert_eq!(args.get("name").unwrap(), "alice");
        },
        _ => panic!("expected a match"),
    }
}

#[test]
fn test_int_converter() {
    let r = rule("/<int:id>", &[Method::Get], "id");
    assert!(matches!(r.matched(String::from("/123")), Some(Ok(_))));
    assert!(r.matched(String::from("/abc")).is_none());
    assert!(r.matched(String::from("/12a")).is_none());
    assert!(r.matched(String::from("/")).is_none());
}

#[test]
fn test_float_converter() {
    let r = rule("/<float:x>", &[Method::Get], "x");
    assert!(matches!(r.matched(String::from("/3.14")), Some(Ok(_))));
    assert!(r.matched(String::from("/3")).is_none());
    assert!(r.matched(String::from("/3.")).is_none());
    assert!(r.matched(String::from("/.5")).is_none());
    assert!(r.matched(String::from("/3.1.4")).is_none());
}

#[test]
fn test_path_converter() {
    let r = rule("/static/<path:filename>", &[Method::Get], "static");
    match r.matched(String::from("/static/css/site.css")) {
        Some(Ok(args)) => {
            assert_eq!(args.get("filename").unwrap(), "css/site.css");
        },
        _ => panic!("expected a match"),
    }
}

#[test]
fn test_string_converter_excludes_slash() {
    let r = rule("/<name>", &[Method::Get], "name");
    assert!(r.matched(String::from("/a/b")).is_none());
    match r.matched(String::from("/ab")) {
        Some(Ok(args)) => assert_eq!(args.get("name").unwrap(), "ab"),
        _ => panic!("expected a match"),
    }
}

#[test]
fn test_branch_rule_slash_redirect() {
    let r = rule("/bar/", &[Method::Get], "bar");
    assert!(matches!(r.matched(String::from("/bar")), Some(Err(_))));
    assert!(matches!(r.matched(String::from("/bar/")), Some(Ok(_))));
    assert!(r.matched(String::from("/barx")).is_none());
}

#[test]
fn test_rule_compile_errors() {
    assert!(matches!(Matcher::new("foo"), Err(RuleError::NoLeadingSlash)));
    assert!(matches!(Matcher::new("/a<b"), Err(RuleError::Malformed)));
    assert!(matches!(Matcher::new("/a>b"), Err(RuleError::Malformed)));
    match Matcher::new("/<nope:x>") {
        Err(RuleError::UnknownConverter(name)) => assert_eq!(name, "nope"),
        _ => panic!("expected an unknown converter error"),
    }
    match Matcher::new("/<int:a>/<int:a>") {
        Err(RuleError::DuplicateVariable(name)) => assert_eq!(name, "a"),
        _ => panic!("expected a duplicate variable error"),
    }
    assert!(Matcher::new("/a>b<x>/c").is_ok());
}

#[test]
fn test_allowed_methods() {
    let mut map = UrlMap::new();
    map.add(rule("/x", &[Method::Get], "a"));
    map.add(rule("/x", &[Method::Post], "b"));
    map.add(rule("/y", &[Method::Put], "c"));
    let adapter = map.bind(String::from("localhost"), String::from("/x"), None, Method::Delete);
    let methods = adapter.allowed_methods();
    assert!(methods.contains(&Method::Get));
    assert!(methods.contains(&Method::Head));
    assert!(methods.contains(&Method::Options));
    assert!(methods.contains(&Method::Post));
    assert!(!methods.contains(&Method::Put));
}
