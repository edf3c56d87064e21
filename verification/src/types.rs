//! The result and error types that handlers and hooks work with.

use vstd::prelude::*;

verus! {

use crate::datastructures::Dict;
use crate::errors::HTTPError;
use crate::wrappers::Response;

pub use crate::types::PencilError::{PenHTTPError, PenUserError};

/// An application-defined error, keyed by its description string.
pub struct UserError {
    /// The description, used as the key under which a handler for this
    /// error can be registered.
    pub desc: String,
}

impl UserError {
    /// Create a new user error.
    pub fn new(desc: &str) -> (r: UserError)
        ensures
            r.desc@ == desc@,
    {
        UserError { desc: desc.to_owned() }
    }
}

impl Clone for UserError {
    /// A copy with the same description.
    fn clone(&self) -> (r: UserError)
        ensures
            r.desc@ == self.desc@,
    {
        UserError { desc: self.desc.clone() }
    }
}

/// The error type carried through the dispatch pipeline: either an HTTP
/// error or an application-defined one.
pub enum PencilError {
    PenHTTPError(HTTPError),
    PenUserError(UserError),
}

impl PencilError {
    /// The description of the error.
    pub open spec fn spec_description(&self) -> Seq<char> {
        match self {
            PenHTTPError(e) => e.spec_description(),
            PenUserError(e) => e.desc@,
        }
    }

    /// The description of the error.
    pub fn description(&self) -> (r: &str)
        ensures
            r@ == self.spec_description(),
    {
        match self {
            PenHTTPError(e) => e.description(),
            PenUserError(e) => e.desc.as_str(),
        }
    }
}

/// What a handler or hook produces: a response, or an error for the
/// pipeline to recover from.
pub type PencilResult = Result<Response, PencilError>;

/// The extracted placeholder values of one successful match, keyed by
/// placeholder name.
pub type ViewArgs = Dict<String>;

} // verus!
