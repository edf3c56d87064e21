//! A small web-application routing and dispatch core, in the spirit of
//! Flask-like microframeworks.
//!
//! The crate compiles URL templates into matchers, resolves a request's
//! path and method against an ordered rule table, and drives a request
//! through a layered pipeline of hooks, handler dispatch, scoped error
//! recovery and guaranteed teardown.  The transport (an HTTP server), file
//! access and template rendering are outside collaborators: they hand the
//! library plain values and take plain values back.

pub use crate::app::{Action, Dispatcher, Outcome, Pencil, Phase};
pub use crate::datastructures::{CodeDict, Dict, Headers, MultiDict};
pub use crate::errors::HTTPError;
pub use crate::helpers::{abort, escape, redirect, safe_join};
pub use crate::httputils::{get_content_type, get_name_by_http_code};
pub use crate::method::Method;
pub use crate::module::Module;
pub use crate::types::{PencilError, PencilResult, UserError, ViewArgs};
pub use crate::types::PencilError::{PenHTTPError, PenUserError};
pub use crate::utils::join_string;
pub use crate::wrappers::{Request, Response};

pub mod app;
pub mod datastructures;
pub mod errors;
pub mod helpers;
pub mod httputils;
pub mod method;
pub mod module;
pub mod routing;
pub mod types;
pub mod utils;
pub mod wrappers;
