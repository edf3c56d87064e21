//! Helpers that views commonly need: aborting with an HTTP error,
//! redirecting, path joining and HTML escaping.

use vstd::prelude::*;

verus! {

use crate::datastructures::{hhas, lemma_hset_first, lemma_hset_preserves, spec_lower};
use crate::errors::HTTPError;
use crate::types::{PencilError, PencilResult};
use crate::utils::{spec_starts_with, starts_with, str_eq};
use crate::wrappers::Response;

/// The joined path of a directory and a relative file name.
pub open spec fn spec_path_join(d: Seq<char>, f: Seq<char>) -> Seq<char> {
    if d.len() == 0 {
        f
    } else if d[d.len() - 1] == '/' {
        d + f
    } else {
        d + "/"@ + f
    }
}

/// Safely join directory and filename; an absolute file name or one
/// reaching for a parent directory gives `None`.
pub fn safe_join(directory: &str, filename: &str) -> (r: Option<String>)
    ensures
        match r {
            Some(p) => !spec_starts_with(filename@, "/"@) && filename@ != ".."@
                && !spec_starts_with(filename@, "../"@) && p@ == spec_path_join(
                directory@,
                filename@,
            ),
            None => spec_starts_with(filename@, "/"@) || filename@ == ".."@ || spec_starts_with(
                filename@,
                "../"@,
            ),
        },
{
    if starts_with(filename, "/") || str_eq(filename, "..") || starts_with(filename, "../") {
        return None;
    }
    let dl = directory.unicode_len();
    let mut out = directory.to_owned();
    if dl > 0 && directory.get_char(dl - 1) != '/' {
        out.append("/");
    }
    out.append(filename);
    Some(out)
}

/// Return an HTTP error from within a view function.
pub fn abort(code: u16) -> (r: PencilResult)
    ensures
        match r {
            Err(e) => e matches PencilError::PenHTTPError(h) && h == HTTPError::spec_from_code(
                code,
            ),
            Ok(_) => false,
        },
{
    let error = HTTPError::new(code);
    Err(PencilError::PenHTTPError(error))
}

/// The HTML body of a redirect response to `loc`.
pub open spec fn spec_redirect_body(loc: Seq<char>) -> Seq<char> {
    "<!DOCTYPE HTML PUBLIC \"-//W3C//DTD HTML 3.2 Final//EN\">\n<title>Redirecting...</title>\n<h1>Redirecting...</h1>\n<p>You should be redirected automatically to target URL: \n<a href=\""@
        + loc + "\">"@ + loc + "</a>.  If not click the link.\n"@
}

/// Returns a response that redirects the client to the target location.
pub fn redirect(location: &str, code: u16) -> (r: PencilResult)
    ensures
        match r {
            Ok(resp) => resp.status_code == code && hhas(resp.headers@, "Location"@, location@)
                && hhas(resp.headers@, "Content-Type"@, "text/html; charset=UTF-8"@) && (match resp
                .body {
                Some(b) => b@ == spec_redirect_body(location@),
                None => false,
            }),
            Err(_) => false,
        },
{
    let mut body = String::new();
    body.append(
        "<!DOCTYPE HTML PUBLIC \"-//W3C//DTD HTML 3.2 Final//EN\">\n<title>Redirecting...</title>\n<h1>Redirecting...</h1>\n<p>You should be redirected automatically to target URL: \n<a href=\"",
    );
    body.append(location);
    body.append("\">");
    body.append(location);
    body.append("</a>.  If not click the link.\n");
    proof {
        assert(body@ =~= spec_redirect_body(location@));
    }
    let mut response = Response::from_string(body);
    response.status_code = code;
    let ghost h1 = response.headers@;
    response.set_content_type("text/html");
    proof {
        reveal_strlit("text/html");
        reveal_strlit("text/html; charset=UTF-8");
        reveal_strlit("charset");
        assert(!crate::utils::spec_contains("text/html"@, "charset"@)) by {
            if exists|i: int| crate::utils::spec_matches_at("text/html"@, i, "charset"@) {
                let i = choose|i: int| crate::utils::spec_matches_at("text/html"@, i, "charset"@);
                assert("text/html"@.subrange(i, i + 7)[0] == "charset"@[0]);
                assert(false);
            }
        }
        assert(spec_starts_with("text/html"@, "text/"@)) by {
            reveal_strlit("text/");
            assert("text/html"@.subrange(0, 5) =~= "text/"@);
        }
        assert(crate::httputils::spec_content_type("text/html"@, "UTF-8"@)
            == "text/html; charset=UTF-8"@) by {
            reveal_strlit("UTF-8");
            reveal_strlit("; charset=");
            assert("text/html"@ + "; charset="@ + "UTF-8"@ =~= "text/html; charset=UTF-8"@);
        }
        lemma_hset_first(
            h1,
            "Content-Type"@,
            crate::httputils::spec_content_type("text/html"@, "UTF-8"@),
        );
    }
    let ghost h2 = response.headers@;
    response.headers.set("Location", location);
    proof {
        lemma_hset_first(h2, "Location"@, location@);
        reveal_strlit("Location");
        reveal_strlit("Content-Type");
        assert(spec_lower("Location"@).len() == 8);
        assert(spec_lower("Content-Type"@).len() == 12);
        lemma_hset_preserves(h2, "Location"@, location@, false, "Content-Type"@);
    }
    Ok(response)
}

/// The HTML-safe expansion of one character.
pub open spec fn spec_escape_char(c: char) -> Seq<char> {
    if c == '&' {
        "&amp;"@
    } else if c == '<' {
        "&lt;"@
    } else if c == '>' {
        "&gt;"@
    } else if c == '"' {
        "&quot;"@
    } else {
        seq![c]
    }
}

/// `s` with the special characters `&`, `<`, `>` and `"` expanded to
/// HTML-safe entities.
pub open spec fn spec_escape(s: Seq<char>) -> Seq<char>
    decreases s.len(),
{
    if s.len() == 0 {
        Seq::empty()
    } else {
        spec_escape(s.drop_last()) + spec_escape_char(s.last())
    }
}

/// Replace special characters `&`, `<`, `>` and `"` by HTML-safe ones.
pub fn escape(s: String) -> (r: String)
    ensures
        r@ == spec_escape(s@),
{
    let sl = s.as_str().unicode_len();
    let mut out = String::new();
    let mut i: usize = 0;
    proof {
        assert(s@.take(0) =~= Seq::<char>::empty());
    }
    while i < sl
        invariant
            i <= sl,
            sl == s@.len(),
            out@ == spec_escape(s@.take(i as int)),
        decreases sl - i,
    {
        let c = s.as_str().get_char(i);
        proof {
            assert(s@.take(i + 1).drop_last() =~= s@.take(i as int));
            assert(s@.take(i + 1).last() == s@[i as int]);
        }
        if c == '&' {
            out.append("&amp;");
        } else if c == '<' {
            out.append("&lt;");
        } else if c == '>' {
            out.append("&gt;");
        } else if c == '"' {
            out.append("&quot;");
        } else {
            let piece = s.as_str().substring_char(i, i + 1);
            proof {
                assert(s@.subrange(i as int, i + 1) =~= seq![s@[i as int]]);
            }
            out.append(piece);
        }
        i += 1;
    }
    proof {
        assert(s@.take(sl as int) =~= s@);
    }
    out
}

} // verus!
