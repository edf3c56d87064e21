//! The request and response objects.
//!
//! A request arrives as plain values (host, path, query string, method):
//! whatever transport produced them is an outside collaborator.  The
//! response likewise is plain data — a status code, a header list and an
//! optional body — for a transport to write out.

use vstd::prelude::*;

verus! {

use crate::datastructures::{has_hkey, hhas, hkey_idx, hset, lemma_hset_first, lemma_hset_preserves, spec_lower, Headers};
use crate::httputils::{get_content_type, get_name_by_http_code, spec_content_type,
    spec_status_name};
use vstd::string::StringSliceAdditionalSpecFns;
use crate::utils::{parse_usize, spec_dec, spec_num, spec_trim_left, trim_left_char,
    usize_to_string};
use crate::method::Method;
use crate::errors::HTTPError;
use crate::routing::{args_match, rule_like, MapAdapterMatched, Rule, SpecOutcome, UrlMap,
    spec_redirect_location, spec_resolve_rules};
use crate::types::ViewArgs;
use crate::datastructures::Dict;

/// A response: a status code, headers and an optional body.
pub struct Response {
    /// The HTTP status code number.
    pub status_code: u16,
    /// The response headers.
    pub headers: Headers,
    /// The response body, when there is one.
    pub body: Option<String>,
}

impl Response {
    /// Create a response with the given body.  The status code is 200 and
    /// the content type is `text/html; charset=UTF-8`.
    pub fn new(body: String) -> (r: Response)
        ensures
            r.status_code == 200,
            r.headers@ == seq![("Content-Type"@, "text/html; charset=UTF-8"@)],
            match r.body {
                Some(b) => b@ == body@,
                None => false,
            },
    {
        let mut headers = Headers::new(None);
        headers.add("Content-Type", "text/html; charset=UTF-8");
        proof {
            assert(headers@ =~= seq![("Content-Type"@, "text/html; charset=UTF-8"@)]);
        }
        Response { status_code: 200, headers, body: Some(body) }
    }

    /// Create an empty response without body.
    pub fn new_empty() -> (r: Response)
        ensures
            r.status_code == 200,
            r.headers@ == Seq::<(Seq<char>, Seq<char>)>::empty(),
            r.body is None,
    {
        Response { status_code: 200, headers: Headers::new(None), body: None }
    }

    /// Create a response carrying the given text, with the content length
    /// set to the text's length in bytes.
    pub fn from_string(body: String) -> (r: Response)
        ensures
            r.status_code == 200,
            match r.body {
                Some(b) => b@ == body@,
                None => false,
            },
            has_hkey(r.headers@, "Content-Length"@),
            hhas(r.headers@, "Content-Type"@, "text/html; charset=UTF-8"@),
    {
        let n = body.as_str().as_bytes().len();
        let mut response = Response::new(body);
        response.set_content_length(n);
        proof {
            let base = seq![("Content-Type"@, "text/html; charset=UTF-8"@)];
            reveal_strlit("Content-Type");
            reveal_strlit("Content-Length");
            assert(spec_lower("Content-Type"@).len() == 12);
            assert(spec_lower("Content-Length"@).len() == 14);
            lemma_hset_first(base, "Content-Length"@, spec_dec(n as int));
            lemma_hset_preserves(base, "Content-Length"@, spec_dec(n as int), false,
                "Content-Type"@);
            assert(crate::datastructures::hmatches(base[0], "Content-Type"@));
        }
        response
    }

    /// Get the status name, or `"UNKNOWN"` for an unregistered code.
    pub fn status_name(&self) -> (r: &'static str)
        ensures
            match spec_status_name(self.status_code) {
                Some(n) => r@ == n,
                None => r@ == "UNKNOWN"@,
            },
    {
        match get_name_by_http_code(self.status_code) {
            Some(name) => name,
            None => "UNKNOWN",
        }
    }

    /// The response content type, if one is set.
    pub fn content_type(&self) -> (r: Option<&String>)
        ensures
            match r {
                Some(v) => has_hkey(self.headers@, "Content-Type"@) && v@ == self.headers@[
                    hkey_idx(self.headers@, "Content-Type"@)
                ].1,
                None => !has_hkey(self.headers@, "Content-Type"@),
            },
    {
        self.headers.get("Content-Type")
    }

    /// Set the response content type.  A textual or XML-like mimetype
    /// gains a `charset=UTF-8` parameter.
    pub fn set_content_type(&mut self, mimetype: &str)
        ensures
            final(self).headers@ == hset(
                old(self).headers@,
                "Content-Type"@,
                spec_content_type(mimetype@, "UTF-8"@),
                false,
            ),
            final(self).status_code == old(self).status_code,
            final(self).body == old(self).body,
    {
        let value = get_content_type(mimetype, "UTF-8");
        self.headers.set("Content-Type", value.as_str());
    }

    /// The response content length, if a parseable one is set.
    pub fn content_length(&self) -> (r: Option<usize>)
        ensures
            match r {
                Some(n) => has_hkey(self.headers@, "Content-Length"@) && n == spec_num(
                    self.headers@[hkey_idx(self.headers@, "Content-Length"@)].1,
                ),
                None => true,
            },
    {
        match self.headers.get("Content-Length") {
            Some(value) => parse_usize(value.as_str()),
            None => None,
        }
    }

    /// Set the content length.
    pub fn set_content_length(&mut self, value: usize)
        ensures
            final(self).headers@ == hset(
                old(self).headers@,
                "Content-Length"@,
                spec_dec(value as int),
                false,
            ),
            final(self).status_code == old(self).status_code,
            final(self).body == old(self).body,
    {
        let s = usize_to_string(value);
        self.headers.set("Content-Length", s.as_str());
    }
}


/// An exact copy of an optional string.
fn clone_opt_string(s: &Option<String>) -> (r: Option<String>)
    ensures
        match (r, s) {
            (Some(a), Some(b)) => a@ == b@,
            (None, None) => true,
            _ => false,
        },
{
    match s {
        Some(v) => Some(v.clone()),
        None => None,
    }
}

/// The module part of an endpoint name: everything before the last dot,
/// when the endpoint has one.
pub open spec fn spec_module_of(e: Seq<char>) -> Option<Seq<char>> {
    if e.contains('.') {
        let d = choose|d: int|
            0 <= d < e.len() && e[d] == '.' && (forall|j: int| d < j < e.len() ==> e[j] != '.');
        Some(e.take(d))
    } else {
        None
    }
}

/// A request, as plain values: what the transport parsed, and what
/// matching filled in.
pub struct Request {
    /// The host including the port if available.
    pub host: String,
    /// The requested path.
    pub path: String,
    /// The query string, if any.
    pub query_string: Option<String>,
    /// The request method.
    pub method: Method,
    /// The URL rule that matched the request; `None` if nothing matched.
    pub url_rule: Option<Rule>,
    /// A dict of view arguments that matched the request.
    pub view_args: ViewArgs,
    /// If matching the URL requests a redirect, this will be the
    /// redirect location and status code.
    pub routing_redirect: Option<(String, u16)>,
    /// If matching the URL failed, this will be the routing error.
    pub routing_error: Option<HTTPError>,
}

impl Request {
    /// The view of the query string.
    pub open spec fn spec_query(&self) -> Option<Seq<char>> {
        match self.query_string {
            Some(q) => Some(q@),
            None => None,
        }
    }

    /// The requested path with the query string appended.
    pub open spec fn spec_full_path(&self) -> Seq<char> {
        match self.spec_query() {
            Some(q) => self.path@ + "?"@ + q,
            None => self.path@,
        }
    }

    /// Just the host with scheme.
    pub open spec fn spec_host_url(&self) -> Seq<char> {
        "http://"@ + self.host@ + "/"@
    }

    /// Create a request from the values a transport parsed.
    pub fn new(host: String, path: String, query_string: Option<String>, method: Method) -> (r:
        Request)
        ensures
            r.host@ == host@,
            r.path@ == path@,
            match (r.query_string, query_string) {
                (Some(a), Some(b)) => a@ == b@,
                (None, None) => true,
                _ => false,
            },
            r.method == method,
            r.url_rule is None,
            r.view_args.wf(),
            forall|k: Seq<char>| !r.view_args.contains_key(k),
            r.routing_redirect is None,
            r.routing_error is None,
    {
        Request {
            host,
            path,
            query_string,
            method,
            url_rule: None,
            view_args: Dict::new(),
            routing_redirect: None,
            routing_error: None,
        }
    }

    /// Match the request against a rule map, filling in the `url_rule`
    /// and `view_args` fields — or the redirect or routing error.
    pub fn match_request(&mut self, url_map: &UrlMap)
        requires
            url_map.wf(),
        ensures
            final(self).host == old(self).host,
            final(self).path == old(self).path,
            final(self).query_string == old(self).query_string,
            final(self).method == old(self).method,
            ({
                let out = spec_resolve_rules(
                    url_map.rules@,
                    0,
                    Seq::empty(),
                    old(self).path@,
                    old(self).method,
                );
                match out {
                    SpecOutcome::Matched(i, caps) => {
                        &&& final(self).url_rule matches Some(rule)
                        &&& (final(self).url_rule matches Some(rule) ==> rule_like(
                            rule,
                            url_map.rules@[i],
                        ) && rule.wf())
                        &&& args_match(
                            final(self).view_args,
                            url_map.rules@[i].matcher.spec_names(),
                            caps,
                        )
                        &&& final(self).routing_redirect is None
                        &&& final(self).routing_error is None
                    },
                    SpecOutcome::Redirect => {
                        &&& final(self).routing_redirect matches Some(rd)
                        &&& (final(self).routing_redirect matches Some(rd) ==> rd.1 == 301
                            && rd.0@ == spec_redirect_location(
                            "http"@,
                            old(self).host@,
                            old(self).path@,
                            old(self).spec_query(),
                        ))
                        &&& final(self).url_rule is None
                        &&& final(self).routing_error is None
                    },
                    SpecOutcome::NotAllowed(ms) => {
                        &&& final(self).routing_error matches Some(e)
                        &&& (final(self).routing_error matches Some(e) ==> e matches
                            HTTPError::MethodNotAllowed(Some(list)) && (e matches
                            HTTPError::MethodNotAllowed(Some(list)) ==> list@ == ms))
                        &&& final(self).url_rule is None
                        &&& final(self).routing_redirect is None
                    },
                    SpecOutcome::NotFound => {
                        &&& final(self).routing_error matches Some(e)
                        &&& (final(self).routing_error matches Some(e) ==> e is NotFound)
                        &&& final(self).url_rule is None
                        &&& final(self).routing_redirect is None
                    },
                }
            }),
    {
        let adapter = url_map.bind(
            self.host.clone(),
            self.path.clone(),
            clone_opt_string(&self.query_string),
            self.method,
        );
        match adapter.matched() {
            MapAdapterMatched::MatchedRule((rule, view_args)) => {
                self.url_rule = Some(rule);
                self.view_args = view_args;
                self.routing_redirect = None;
                self.routing_error = None;
            },
            MapAdapterMatched::MatchedRedirect((redirect_url, redirect_code)) => {
                self.url_rule = None;
                self.routing_redirect = Some((redirect_url, redirect_code));
                self.routing_error = None;
            },
            MapAdapterMatched::MatchedError(routing_error) => {
                self.url_rule = None;
                self.routing_redirect = None;
                self.routing_error = Some(routing_error);
            },
        }
    }

    /// The endpoint that matched the request.
    pub fn endpoint(&self) -> (r: Option<String>)
        ensures
            match (r, self.url_rule) {
                (Some(e), Some(rule)) => e@ == rule.endpoint@,
                (None, None) => true,
                _ => false,
            },
    {
        match &self.url_rule {
            Some(rule) => Some(rule.endpoint.clone()),
            None => None,
        }
    }

    /// The name of the module the matched endpoint belongs to, if any.
    pub fn module_name(&self) -> (r: Option<String>)
        ensures
            match self.url_rule {
                Some(rule) => match (r, spec_module_of(rule.endpoint@)) {
                    (Some(n), Some(m)) => n@ == m,
                    (None, None) => true,
                    _ => false,
                },
                None => r is None,
            },
    {
        match &self.url_rule {
            Some(rule) => {
                match crate::utils::rfind_char(rule.endpoint.as_str(), '.') {
                    Some(d) => {
                        proof {
                            let e = rule.endpoint@;
                            assert(e.contains('.')) by {
                                assert(e[d as int] == '.');
                            }
                            let w = choose|w: int|
                                0 <= w < e.len() && e[w] == '.' && (forall|j: int|
                                    w < j < e.len() ==> e[j] != '.');
                            assert(w == d) by {
                                if w < d {
                                    assert(e[d as int] != '.');
                                } else if w > d {
                                    assert(e[w] != '.');
                                }
                            }
                            assert(e.take(d as int) =~= e.subrange(0, d as int));
                        }
                        Some(rule.endpoint.as_str().substring_char(0, d).to_owned())
                    },
                    None => None,
                }
            },
            None => None,
        }
    }

    /// Requested path.
    pub fn path(&self) -> (r: String)
        ensures
            r@ == self.path@,
    {
        self.path.clone()
    }

    /// The host including the port if available.
    pub fn host(&self) -> (r: String)
        ensures
            r@ == self.host@,
    {
        self.host.clone()
    }

    /// The query string.
    pub fn query_string(&self) -> (r: Option<String>)
        ensures
            match (r, self.query_string) {
                (Some(a), Some(b)) => a@ == b@,
                (None, None) => true,
                _ => false,
            },
    {
        clone_opt_string(&self.query_string)
    }

    /// The request method.
    pub fn method(&self) -> (r: Method)
        ensures
            r == self.method,
    {
        self.method
    }

    /// Requested path including the query string.
    pub fn full_path(&self) -> (r: String)
        ensures
            r@ == self.spec_full_path(),
    {
        let mut out = self.path.clone();
        match &self.query_string {
            Some(q) => {
                out.append("?");
                out.append(q.as_str());
            },
            None => {},
        }
        out
    }

    /// URL scheme; this core always serves plain http.
    pub fn scheme(&self) -> (r: String)
        ensures
            r@ == "http"@,
    {
        "http".to_owned()
    }

    /// Just the host with scheme.
    pub fn host_url(&self) -> (r: String)
        ensures
            r@ == self.spec_host_url(),
    {
        let mut out = self.scheme();
        out.append("://");
        out.append(self.host.as_str());
        out.append("/");
        proof {
            reveal_strlit("http");
            reveal_strlit("://");
            reveal_strlit("/");
            reveal_strlit("http://");
            assert(out@ =~= self.spec_host_url());
        }
        out
    }

    /// The current url.
    pub fn url(&self) -> (r: String)
        ensures
            r@ == self.spec_host_url() + spec_trim_left(self.spec_full_path(), '/'),
    {
        let mut out = self.host_url();
        let fp = self.full_path();
        out.append(trim_left_char(fp.as_str(), '/'));
        out
    }

    /// The current url without the query string.
    pub fn base_url(&self) -> (r: String)
        ensures
            r@ == self.spec_host_url() + spec_trim_left(self.path@, '/'),
    {
        let mut out = self.host_url();
        out.append(trim_left_char(self.path.as_str(), '/'));
        out
    }

    /// Whether the request came over a secure channel; never, here.
    pub fn is_secure(&self) -> (r: bool)
        ensures
            r == false,
    {
        false
    }
}

} // verus!
