//! The error type of the web API: every error carries a message and is
//! answered with status 500.

use vstd::prelude::*;

verus! {

/// An error of the web API, holding the message sent back to the client.
pub struct AppError(pub String);

/// The HTTP status every [`AppError`] is answered with.
pub const INTERNAL_SERVER_ERROR: u16 = 500;

impl AppError {
    /// An internal error with message `msg`.
    pub fn internal(msg: &str) -> (r: AppError)
        ensures
            r.0@ == msg@,
    {
        AppError(String::from_str(msg))
    }

    /// A bad-request error with message `msg`; it is answered like any other
    /// error, with status 500.
    pub fn bad_request(msg: &str) -> (r: AppError)
        ensures
            r.0@ == msg@,
    {
        AppError(String::from_str(msg))
    }

    /// The text the error displays as: its message.
    pub fn message(&self) -> (r: String)
        ensures
            r@ == self.0@,
    {
        self.0.clone()
    }

    /// The HTTP status the error is answered with.
    pub fn status(&self) -> (r: u16)
        ensures
            r == INTERNAL_SERVER_ERROR,
    {
        INTERNAL_SERVER_ERROR
    }
}

impl From<String> for AppError {
    fn from(s: String) -> (r: AppError) {
        AppError(s)
    }
}

impl vstd::std_specs::convert::FromSpecImpl<String> for AppError {
    open spec fn obeys_from_spec() -> bool {
        true
    }

    open spec fn from_spec(v: String) -> AppError {
        AppError(v)
    }
}

} // verus!
