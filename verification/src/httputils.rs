//! Utilities for dealing with plain HTTP data: status names, content
//! types and host values.

use vstd::prelude::*;

verus! {

use crate::utils::{
    contains_str, ends_with, spec_contains, spec_dec, spec_ends_with, spec_starts_with,
    starts_with, usize_to_string,
};

/// The canonical reason phrase for a status code, if the code is known.
pub open spec fn spec_status_name(code: u16) -> Option<Seq<char>> {
    if code == 100 { Some("Continue"@) }
    else if code == 101 { Some("Switching Protocols"@) }
    else if code == 102 { Some("Processing"@) }
    else if code == 200 { Some("OK"@) }
    else if code == 201 { Some("Created"@) }
    else if code == 202 { Some("Accepted"@) }
    else if code == 203 { Some("Non-Authoritative Information"@) }
    else if code == 204 { Some("No Content"@) }
    else if code == 205 { Some("Reset Content"@) }
    else if code == 206 { Some("Partial Content"@) }
    else if code == 207 { Some("Multi-Status"@) }
    else if code == 208 { Some("Already Reported"@) }
    else if code == 226 { Some("IM Used"@) }
    else if code == 300 { Some("Multiple Choices"@) }
    else if code == 301 { Some("Moved Permanently"@) }
    else if code == 302 { Some("Found"@) }
    else if code == 303 { Some("See Other"@) }
    else if code == 304 { Some("Not Modified"@) }
    else if code == 305 { Some("Use Proxy"@) }
    else if code == 307 { Some("Temporary Redirect"@) }
    else if code == 308 { Some("Permanent Redirect"@) }
    else if code == 400 { Some("Bad Request"@) }
    else if code == 401 { Some("Unauthorized"@) }
    else if code == 402 { Some("Payment Required"@) }
    else if code == 403 { Some("Forbidden"@) }
    else if code == 404 { Some("Not Found"@) }
    else if code == 405 { Some("Method Not Allowed"@) }
    else if code == 406 { Some("Not Acceptable"@) }
    else if code == 407 { Some("Proxy Authentication Required"@) }
    else if code == 408 { Some("Request Timeout"@) }
    else if code == 409 { Some("Conflict"@) }
    else if code == 410 { Some("Gone"@) }
    else if code == 411 { Some("Length Required"@) }
    else if code == 412 { Some("Precondition Failed"@) }
    else if code == 413 { Some("Payload Too Large"@) }
    else if code == 414 { Some("URI Too Long"@) }
    else if code == 415 { Some("Unsupported Media Type"@) }
    else if code == 416 { Some("Range Not Satisfiable"@) }
    else if code == 417 { Some("Expectation Failed"@) }
    else if code == 418 { Some("I'm a teapot"@) }
    else if code == 422 { Some("Unprocessable Entity"@) }
    else if code == 423 { Some("Locked"@) }
    else if code == 424 { Some("Failed Dependency"@) }
    else if code == 426 { Some("Upgrade Required"@) }
    else if code == 428 { Some("Precondition Required"@) }
    else if code == 429 { Some("Too Many Requests"@) }
    else if code == 431 { Some("Request Header Fields Too Large"@) }
    else if code == 500 { Some("Internal Server Error"@) }
    else if code == 501 { Some("Not Implemented"@) }
    else if code == 502 { Some("Bad Gateway"@) }
    else if code == 503 { Some("Service Unavailable"@) }
    else if code == 504 { Some("Gateway Timeout"@) }
    else if code == 505 { Some("HTTP Version Not Supported"@) }
    else if code == 506 { Some("Variant Also Negotiates"@) }
    else if code == 507 { Some("Insufficient Storage"@) }
    else if code == 508 { Some("Loop Detected"@) }
    else if code == 510 { Some("Not Extended"@) }
    else if code == 511 { Some("Network Authentication Required"@) }
    else { None }
}

/// Get the HTTP status name by status code.
pub fn get_name_by_http_code(code: u16) -> (r: Option<&'static str>)
    ensures
        match r {
            Some(s) => spec_status_name(code) == Some(s@),
            None => spec_status_name(code) is None,
        },
{
    match code {
        100 => Some("Continue"),
        101 => Some("Switching Protocols"),
        102 => Some("Processing"),
        200 => Some("OK"),
        201 => Some("Created"),
        202 => Some("Accepted"),
        203 => Some("Non-Authoritative Information"),
        204 => Some("No Content"),
        205 => Some("Reset Content"),
        206 => Some("Partial Content"),
        207 => Some("Multi-Status"),
        208 => Some("Already Reported"),
        226 => Some("IM Used"),
        300 => Some("Multiple Choices"),
        301 => Some("Moved Permanently"),
        302 => Some("Found"),
        303 => Some("See Other"),
        304 => Some("Not Modified"),
        305 => Some("Use Proxy"),
        307 => Some("Temporary Redirect"),
        308 => Some("Permanent Redirect"),
        400 => Some("Bad Request"),
        401 => Some("Unauthorized"),
        402 => Some("Payment Required"),
        403 => Some("Forbidden"),
        404 => Some("Not Found"),
        405 => Some("Method Not Allowed"),
        406 => Some("Not Acceptable"),
        407 => Some("Proxy Authentication Required"),
        408 => Some("Request Timeout"),
        409 => Some("Conflict"),
        410 => Some("Gone"),
        411 => Some("Length Required"),
        412 => Some("Precondition Failed"),
        413 => Some("Payload Too Large"),
        414 => Some("URI Too Long"),
        415 => Some("Unsupported Media Type"),
        416 => Some("Range Not Satisfiable"),
        417 => Some("Expectation Failed"),
        418 => Some("I'm a teapot"),
        422 => Some("Unprocessable Entity"),
        423 => Some("Locked"),
        424 => Some("Failed Dependency"),
        426 => Some("Upgrade Required"),
        428 => Some("Precondition Required"),
        429 => Some("Too Many Requests"),
        431 => Some("Request Header Fields Too Large"),
        500 => Some("Internal Server Error"),
        501 => Some("Not Implemented"),
        502 => Some("Bad Gateway"),
        503 => Some("Service Unavailable"),
        504 => Some("Gateway Timeout"),
        505 => Some("HTTP Version Not Supported"),
        506 => Some("Variant Also Negotiates"),
        507 => Some("Insufficient Storage"),
        508 => Some("Loop Detected"),
        510 => Some("Not Extended"),
        511 => Some("Network Authentication Required"),
        _ => None,
    }
}

/// The full content type for a mimetype: textual and XML-like types gain
/// a charset parameter unless they already carry one.
pub open spec fn spec_content_type(m: Seq<char>, charset: Seq<char>) -> Seq<char> {
    if (spec_starts_with(m, "text/"@) || m == "application/xml"@ || (spec_starts_with(
        m,
        "application/"@,
    ) && spec_ends_with(m, "+xml"@))) && !spec_contains(m, "charset"@) {
        m + "; charset="@ + charset
    } else {
        m
    }
}

/// Return the full content type with charset for a mimetype.
pub fn get_content_type(mimetype: &str, charset: &str) -> (r: String)
    ensures
        r@ == spec_content_type(mimetype@, charset@),
{
    let textual = starts_with(mimetype, "text/") || crate::utils::str_eq(
        mimetype,
        "application/xml",
    ) || (starts_with(mimetype, "application/") && ends_with(mimetype, "+xml"));
    if textual && !contains_str(mimetype, "charset") {
        let mut out = mimetype.to_owned();
        out.append("; charset=");
        out.append(charset);
        out
    } else {
        mimetype.to_owned()
    }
}

/// A request's `Host` information: the host name and an optional port.
pub struct Host {
    /// The host name.
    pub hostname: String,
    /// The port, when one was given.
    pub port: Option<u16>,
}

/// The host value a request carries: the bare host name for the default
/// ports, otherwise `host:port`.
pub open spec fn spec_host_value(hostname: Seq<char>, port: Option<u16>) -> Seq<char> {
    match port {
        None => hostname,
        Some(p) => if p == 80 || p == 443 {
            hostname
        } else {
            hostname + ":"@ + spec_dec(p as int)
        },
    }
}

/// Return the http value of host.
pub fn get_host_value(host: &Host) -> (r: String)
    ensures
        r@ == spec_host_value(host.hostname@, host.port),
{
    match host.port {
        None => host.hostname.clone(),
        Some(p) => {
            if p == 80 || p == 443 {
                host.hostname.clone()
            } else {
                let mut out = host.hostname.clone();
                out.append(":");
                let ps = usize_to_string(p as usize);
                out.append(ps.as_str());
                out
            }
        },
    }
}

} // verus!
