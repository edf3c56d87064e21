//! The HTTP error type a handler can return to trigger a non-200
//! response.

use vstd::prelude::*;

verus! {

use crate::httputils::spec_status_name;
use crate::method::{allow_value, spec_allow_value, Method};
use crate::utils::{spec_dec, usize_to_string};
use crate::wrappers::Response;
use crate::datastructures::{hhas, lemma_hset_first, lemma_hset_preserves, spec_lower};

pub use crate::errors::HTTPError::{
    BadRequest,
    Unauthorized,
    Forbidden,
    NotFound,
    MethodNotAllowed,
    NotAcceptable,
    RequestTimeout,
    Conflict,
    Gone,
    LengthRequired,
    PreconditionFailed,
    RequestEntityTooLarge,
    RequestURITooLarge,
    UnsupportedMediaType,
    RequestedRangeNotSatisfiable,
    ExpectationFailed,
    ImATeapot,
    UnprocessableEntity,
    PreconditionRequired,
    TooManyRequests,
    RequestHeaderFieldsTooLarge,
    InternalServerError,
    NotImplemented,
    BadGateway,
    ServiceUnavailable,
};

/// The HTTP error type.  `MethodNotAllowed` may carry the methods that
/// would have been valid, for the `Allow` header of its response.
#[derive(Debug)]
pub enum HTTPError {
    BadRequest,
    Unauthorized,
    Forbidden,
    NotFound,
    MethodNotAllowed(Option<Vec<Method>>),
    NotAcceptable,
    RequestTimeout,
    Conflict,
    Gone,
    LengthRequired,
    PreconditionFailed,
    RequestEntityTooLarge,
    RequestURITooLarge,
    UnsupportedMediaType,
    RequestedRangeNotSatisfiable,
    ExpectationFailed,
    ImATeapot,
    UnprocessableEntity,
    PreconditionRequired,
    TooManyRequests,
    RequestHeaderFieldsTooLarge,
    InternalServerError,
    NotImplemented,
    BadGateway,
    ServiceUnavailable,
}

impl Clone for HTTPError {
    /// A copy with the same status code and the same allowed methods.
    fn clone(&self) -> (r: HTTPError)
        ensures
            r.spec_code() == self.spec_code(),
            r.spec_allow() == self.spec_allow(),
    {
        match self {
            BadRequest => BadRequest,
            Unauthorized => Unauthorized,
            Forbidden => Forbidden,
            NotFound => NotFound,
            MethodNotAllowed(ms) => {
                match ms {
                    None => MethodNotAllowed(None),
                    Some(list) => {
                        let mut copy: Vec<Method> = Vec::new();
                        let mut i: usize = 0;
                        while i < list.len()
                            invariant
                                i <= list@.len(),
                                copy@ == list@.take(i as int),
                            decreases list@.len() - i,
                        {
                            copy.push(list[i]);
                            proof {
                                assert(copy@ =~= list@.take(i + 1));
                            }
                            i += 1;
                        }
                        proof {
                            assert(list@.take(list@.len() as int) =~= list@);
                        }
                        MethodNotAllowed(Some(copy))
                    },
                }
            },
            NotAcceptable => NotAcceptable,
            RequestTimeout => RequestTimeout,
            Conflict => Conflict,
            Gone => Gone,
            LengthRequired => LengthRequired,
            PreconditionFailed => PreconditionFailed,
            RequestEntityTooLarge => RequestEntityTooLarge,
            RequestURITooLarge => RequestURITooLarge,
            UnsupportedMediaType => UnsupportedMediaType,
            RequestedRangeNotSatisfiable => RequestedRangeNotSatisfiable,
            ExpectationFailed => ExpectationFailed,
            ImATeapot => ImATeapot,
            UnprocessableEntity => UnprocessableEntity,
            PreconditionRequired => PreconditionRequired,
            TooManyRequests => TooManyRequests,
            RequestHeaderFieldsTooLarge => RequestHeaderFieldsTooLarge,
            InternalServerError => InternalServerError,
            NotImplemented => NotImplemented,
            BadGateway => BadGateway,
            ServiceUnavailable => ServiceUnavailable,
        }
    }
}

impl HTTPError {
    /// The allowed methods of a `MethodNotAllowed` error, when known.
    pub open spec fn spec_allow(&self) -> Option<Option<Seq<Method>>> {
        match self {
            MethodNotAllowed(Some(ms)) => Some(Some(ms@)),
            MethodNotAllowed(None) => Some(None),
            _ => None,
        }
    }

    /// The error a status code denotes; unknown codes fall back to the
    /// internal server error.
    pub open spec fn spec_from_code(code: u16) -> HTTPError {
        if code == 400 { BadRequest }
        else if code == 401 { Unauthorized }
        else if code == 403 { Forbidden }
        else if code == 404 { NotFound }
        else if code == 405 { MethodNotAllowed(None) }
        else if code == 406 { NotAcceptable }
        else if code == 408 { RequestTimeout }
        else if code == 409 { Conflict }
        else if code == 410 { Gone }
        else if code == 411 { LengthRequired }
        else if code == 412 { PreconditionFailed }
        else if code == 413 { RequestEntityTooLarge }
        else if code == 414 { RequestURITooLarge }
        else if code == 415 { UnsupportedMediaType }
        else if code == 416 { RequestedRangeNotSatisfiable }
        else if code == 417 { ExpectationFailed }
        else if code == 418 { ImATeapot }
        else if code == 422 { UnprocessableEntity }
        else if code == 428 { PreconditionRequired }
        else if code == 429 { TooManyRequests }
        else if code == 431 { RequestHeaderFieldsTooLarge }
        else if code == 500 { InternalServerError }
        else if code == 501 { NotImplemented }
        else if code == 502 { BadGateway }
        else if code == 503 { ServiceUnavailable }
        else { InternalServerError }
    }

    /// Create a new `HTTPError` from a status code.
    pub fn new(code: u16) -> (r: HTTPError)
        ensures
            r == HTTPError::spec_from_code(code),
    {
        match code {
            400 => BadRequest,
            401 => Unauthorized,
            403 => Forbidden,
            404 => NotFound,
            405 => MethodNotAllowed(None),
            406 => NotAcceptable,
            408 => RequestTimeout,
            409 => Conflict,
            410 => Gone,
            411 => LengthRequired,
            412 => PreconditionFailed,
            413 => RequestEntityTooLarge,
            414 => RequestURITooLarge,
            415 => UnsupportedMediaType,
            416 => RequestedRangeNotSatisfiable,
            417 => ExpectationFailed,
            418 => ImATeapot,
            422 => UnprocessableEntity,
            428 => PreconditionRequired,
            429 => TooManyRequests,
            431 => RequestHeaderFieldsTooLarge,
            500 => InternalServerError,
            501 => NotImplemented,
            502 => BadGateway,
            503 => ServiceUnavailable,
            _ => InternalServerError,
        }
    }

    /// The status code of the error.
    pub open spec fn spec_code(&self) -> u16 {
        match self {
            BadRequest => 400,
            Unauthorized => 401,
            Forbidden => 403,
            NotFound => 404,
            MethodNotAllowed(_) => 405,
            NotAcceptable => 406,
            RequestTimeout => 408,
            Conflict => 409,
            Gone => 410,
            LengthRequired => 411,
            PreconditionFailed => 412,
            RequestEntityTooLarge => 413,
            RequestURITooLarge => 414,
            UnsupportedMediaType => 415,
            RequestedRangeNotSatisfiable => 416,
            ExpectationFailed => 417,
            ImATeapot => 418,
            UnprocessableEntity => 422,
            PreconditionRequired => 428,
            TooManyRequests => 429,
            RequestHeaderFieldsTooLarge => 431,
            InternalServerError => 500,
            NotImplemented => 501,
            BadGateway => 502,
            ServiceUnavailable => 503,
        }
    }

    /// The status code.
    pub fn code(&self) -> (r: u16)
        ensures
            r == self.spec_code(),
    {
        match self {
            BadRequest => 400,
            Unauthorized => 401,
            Forbidden => 403,
            NotFound => 404,
            MethodNotAllowed(_) => 405,
            NotAcceptable => 406,
            RequestTimeout => 408,
            Conflict => 409,
            Gone => 410,
            LengthRequired => 411,
            PreconditionFailed => 412,
            RequestEntityTooLarge => 413,
            RequestURITooLarge => 414,
            UnsupportedMediaType => 415,
            RequestedRangeNotSatisfiable => 416,
            ExpectationFailed => 417,
            ImATeapot => 418,
            UnprocessableEntity => 422,
            PreconditionRequired => 428,
            TooManyRequests => 429,
            RequestHeaderFieldsTooLarge => 431,
            InternalServerError => 500,
            NotImplemented => 501,
            BadGateway => 502,
            ServiceUnavailable => 503,
        }
    }

    /// The status name of the error.
    pub open spec fn spec_name(&self) -> Seq<char> {
        match spec_status_name(self.spec_code()) {
            Some(n) => n,
            None => "Unknown Error"@,
        }
    }

    /// The status name.
    pub fn name(&self) -> (r: &'static str)
        ensures
            r@ == self.spec_name(),
    {
        match crate::httputils::get_name_by_http_code(self.code()) {
            Some(name) => name,
            None => "Unknown Error",
        }
    }

    /// The description of the error.
    pub open spec fn spec_description(&self) -> Seq<char> {
        match self {
            BadRequest => "The browser (or proxy) sent a request that this server could not understand."@,
            Unauthorized => "The server could not verify that you are authorized to access the URL requested.  You either supplied the wrong credentials (e.g. a bad password), or your browser doesn't understand how to supply the credentials required."@,
            Forbidden => "You don't have the permission to access the requested resource.  It is either read-protected or not readable by the server."@,
            NotFound => "The requested URL was not found on the server.  If you entered the URL manually please check your spelling and try again."@,
            MethodNotAllowed(_) => "The method is not allowed for the requested URL."@,
            NotAcceptable => "The resource identified by the request is only capable of generating response entities which have content characteristics not acceptable according to the accept headers sent in the request."@,
            RequestTimeout => "The server closed the network connection because the browser didn't finish the request within the specified time."@,
            Conflict => "A conflict happened while processing the request.  The resource might have been modified while the request was being processed."@,
            Gone => "The requested URL is no longer available on this server and there is no forwarding address.  If you followed a link from a foreign page, please contact the author of this page."@,
            LengthRequired => "A request with this method requires a valid Content-Length header."@,
            PreconditionFailed => "The precondition on the request for the URL failed positive evaluation."@,
            RequestEntityTooLarge => "The data value transmitted exceeds the capacity limit."@,
            RequestURITooLarge => "The length of the requested URL exceeds the capacity limit for this server.  The request cannot be processed."@,
            UnsupportedMediaType => "The server does not support the media type transmitted in the request."@,
            RequestedRangeNotSatisfiable => "The server cannot provide the requested range."@,
            ExpectationFailed => "The server could not meet the requirements of the Expect header"@,
            ImATeapot => "This server is a teapot, not a coffee machine"@,
            UnprocessableEntity => "The request was well-formed but was unable to be followed due to semantic errors."@,
            PreconditionRequired => "This request is required to be conditional; try using \"If-Match\" or \"If-Unmodified-Since\"."@,
            TooManyRequests => "This user has exceeded an allotted request count. Try again later."@,
            RequestHeaderFieldsTooLarge => "One or more header fields exceeds the maximum size."@,
            InternalServerError => "The server encountered an internal error and was unable to complete your request.  Either the server is overloaded or there is an error in the application."@,
            NotImplemented => "The server does not support the action requested by the browser."@,
            BadGateway => "The proxy server received an invalid response from an upstream server."@,
            ServiceUnavailable => "The server is temporarily unable to service your request due to maintenance downtime or capacity problems.  Please try again later."@,
        }
    }

    /// Get the description.
    fn get_description(&self) -> (r: &'static str)
        ensures
            r@ == self.spec_description(),
    {
        match self {
            BadRequest => "The browser (or proxy) sent a request that this server could not understand.",
            Unauthorized => "The server could not verify that you are authorized to access the URL requested.  You either supplied the wrong credentials (e.g. a bad password), or your browser doesn't understand how to supply the credentials required.",
            Forbidden => "You don't have the permission to access the requested resource.  It is either read-protected or not readable by the server.",
            NotFound => "The requested URL was not found on the server.  If you entered the URL manually please check your spelling and try again.",
            MethodNotAllowed(_) => "The method is not allowed for the requested URL.",
            NotAcceptable => "The resource identified by the request is only capable of generating response entities which have content characteristics not acceptable according to the accept headers sent in the request.",
            RequestTimeout => "The server closed the network connection because the browser didn't finish the request within the specified time.",
            Conflict => "A conflict happened while processing the request.  The resource might have been modified while the request was being processed.",
            Gone => "The requested URL is no longer available on this server and there is no forwarding address.  If you followed a link from a foreign page, please contact the author of this page.",
            LengthRequired => "A request with this method requires a valid Content-Length header.",
            PreconditionFailed => "The precondition on the request for the URL failed positive evaluation.",
            RequestEntityTooLarge => "The data value transmitted exceeds the capacity limit.",
            RequestURITooLarge => "The length of the requested URL exceeds the capacity limit for this server.  The request cannot be processed.",
            UnsupportedMediaType => "The server does not support the media type transmitted in the request.",
            RequestedRangeNotSatisfiable => "The server cannot provide the requested range.",
            ExpectationFailed => "The server could not meet the requirements of the Expect header",
            ImATeapot => "This server is a teapot, not a coffee machine",
            UnprocessableEntity => "The request was well-formed but was unable to be followed due to semantic errors.",
            PreconditionRequired => "This request is required to be conditional; try using \"If-Match\" or \"If-Unmodified-Since\".",
            TooManyRequests => "This user has exceeded an allotted request count. Try again later.",
            RequestHeaderFieldsTooLarge => "One or more header fields exceeds the maximum size.",
            InternalServerError => "The server encountered an internal error and was unable to complete your request.  Either the server is overloaded or there is an error in the application.",
            NotImplemented => "The server does not support the action requested by the browser.",
            BadGateway => "The proxy server received an invalid response from an upstream server.",
            ServiceUnavailable => "The server is temporarily unable to service your request due to maintenance downtime or capacity problems.  Please try again later.",
        }
    }

    /// A description a caller may keep, for logging and teardown hooks.
    pub fn description(&self) -> (r: &'static str)
        ensures
            r@ == self.spec_description(),
    {
        self.get_description()
    }

    /// The HTML body rendered for the error.
    pub open spec fn spec_body(&self) -> Seq<char> {
        "<!DOCTYPE HTML PUBLIC \"-//W3C//DTD HTML 3.2 Final//EN\">\n<title>"@
            + spec_dec(self.spec_code() as int) + " "@ + self.spec_name() + "</title>\n<h1>"@
            + self.spec_name() + "</h1>\n<p>"@ + self.spec_description() + "</p>\n"@
    }

    /// Get the HTML body.
    pub fn get_body(&self) -> (r: String)
        ensures
            r@ == self.spec_body(),
    {
        let mut out = String::new();
        out.append("<!DOCTYPE HTML PUBLIC \"-//W3C//DTD HTML 3.2 Final//EN\">\n<title>");
        let code = usize_to_string(self.code() as usize);
        out.append(code.as_str());
        out.append(" ");
        out.append(self.name());
        out.append("</title>\n<h1>");
        out.append(self.name());
        out.append("</h1>\n<p>");
        out.append(self.get_description());
        out.append("</p>\n");
        proof {
            assert(out@ =~= self.spec_body());
        }
        out
    }

    /// Get a response object for the error: its HTML body and status
    /// code, with an `Allow` header when the allowed methods are known.
    pub fn to_response(&self) -> (r: Response)
        ensures
            r.status_code == self.spec_code(),
            match r.body {
                Some(b) => b@ == self.spec_body(),
                None => false,
            },
            hhas(r.headers@, "Content-Type"@, "text/html; charset=UTF-8"@),
            match self {
                MethodNotAllowed(Some(ms)) => hhas(
                    r.headers@,
                    "Allow"@,
                    spec_allow_value(ms@),
                ),
                _ => true,
            },
    {
        let mut response = Response::from_string(self.get_body());
        response.status_code = self.code();
        let ghost hpre = response.headers@;
        response.set_content_type("text/html");
        proof {
            reveal_strlit("text/html");
            reveal_strlit("text/html; charset=UTF-8");
            reveal_strlit("charset");
            assert(!crate::utils::spec_contains("text/html"@, "charset"@)) by {
                if exists|i: int| crate::utils::spec_matches_at("text/html"@, i, "charset"@) {
                    let i = choose|i: int| crate::utils::spec_matches_at(
                        "text/html"@,
                        i,
                        "charset"@,
                    );
                    assert("text/html"@.subrange(i, i + 7)[0] == "charset"@[0]);
                    assert(false);
                }
            }
            assert(crate::utils::spec_starts_with("text/html"@, "text/"@)) by {
                reveal_strlit("text/");
                assert("text/html"@.subrange(0, 5) =~= "text/"@);
            }
            assert(crate::httputils::spec_content_type("text/html"@, "UTF-8"@)
                == "text/html; charset=UTF-8"@) by {
                reveal_strlit("UTF-8");
                reveal_strlit("; charset=");
                assert("text/html"@ + "; charset="@ + "UTF-8"@ =~= "text/html; charset=UTF-8"@);
            }
            lemma_hset_first(
                hpre,
                "Content-Type"@,
                crate::httputils::spec_content_type("text/html"@, "UTF-8"@),
            );
        }
        if let MethodNotAllowed(ms_opt) = self {
            if let Some(ms) = ms_opt {
                let ghost h1 = response.headers@;
                let value = allow_value(ms);
                response.headers.set("Allow", value.as_str());
                proof {
                    lemma_hset_first(h1, "Allow"@, spec_allow_value(ms@));
                    reveal_strlit("Allow");
                    reveal_strlit("Content-Type");
                    assert(spec_lower("Allow"@).len() == 5);
                    assert(spec_lower("Content-Type"@).len() == 12);
                    lemma_hset_preserves(
                        h1,
                        "Allow"@,
                        spec_allow_value(ms@),
                        false,
                        "Content-Type"@,
                    );
                }
            }
        }
        response
    }
}

} // verus!
