//! The HTTP request methods known to the router.

use vstd::prelude::*;

verus! {

/// An HTTP request method.
///
/// The router only ever compares methods and prints their canonical names,
/// so a plain enumeration of the standard methods is all it needs.
#[derive(Clone, Copy, PartialEq, Eq, Structural, Debug)]
pub enum Method {
    Options,
    Get,
    Post,
    Put,
    Delete,
    Head,
    Trace,
    Connect,
    Patch,
}

impl Method {
    /// The canonical upper-case name of the method.
    pub open spec fn spec_name(self) -> Seq<char> {
        match self {
            Method::Options => "OPTIONS"@,
            Method::Get => "GET"@,
            Method::Post => "POST"@,
            Method::Put => "PUT"@,
            Method::Delete => "DELETE"@,
            Method::Head => "HEAD"@,
            Method::Trace => "TRACE"@,
            Method::Connect => "CONNECT"@,
            Method::Patch => "PATCH"@,
        }
    }

    /// The canonical upper-case name of the method, as used in an `Allow` header.
    pub fn name(&self) -> (r: &'static str)
        ensures
            r@ == self.spec_name(),
    {
        match self {
            Method::Options => "OPTIONS",
            Method::Get => "GET",
            Method::Post => "POST",
            Method::Put => "PUT",
            Method::Delete => "DELETE",
            Method::Head => "HEAD",
            Method::Trace => "TRACE",
            Method::Connect => "CONNECT",
            Method::Patch => "PATCH",
        }
    }
}

/// The set of methods named by a list, ignoring order and repetition.
pub open spec fn method_set(ms: Seq<Method>) -> Set<Method> {
    Set::new(|m: Method| ms.contains(m))
}

/// Whether a list of methods names `m`.
pub fn contains_method(ms: &Vec<Method>, m: Method) -> (r: bool)
    ensures
        r == ms@.contains(m),
{
    let mut i: usize = 0;
    while i < ms.len()
        invariant
            i <= ms@.len(),
            forall|j: int| 0 <= j < i ==> ms@[j] != m,
        decreases ms@.len() - i,
    {
        if ms[i] == m {
            return true;
        }
        i += 1;
    }
    false
}


/// The value of an `Allow` header naming the methods of `ms`, in order.
pub open spec fn spec_allow_value(ms: Seq<Method>) -> Seq<char> {
    crate::utils::spec_join(ms.map_values(|m: Method| m.spec_name()), ", "@)
}

/// Render a method list as an `Allow` header value.
pub fn allow_value(ms: &Vec<Method>) -> (r: String)
    ensures
        r@ == spec_allow_value(ms@),
{
    let mut names: Vec<String> = Vec::new();
    let mut i: usize = 0;
    while i < ms.len()
        invariant
            i <= ms@.len(),
            names@.len() == i,
            forall|j: int| 0 <= j < i ==> #[trigger] names@[j]@ == ms@[j].spec_name(),
        decreases ms@.len() - i,
    {
        names.push(ms[i].name().to_owned());
        i += 1;
    }
    proof {
        assert(crate::utils::strings_view(names@) =~= ms@.map_values(
            |m: Method| m.spec_name(),
        ));
    }
    crate::utils::join_string(&names, ", ")
}

} // verus!
