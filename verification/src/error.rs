//! Error values.

use core::convert::Infallible;
use vstd::prelude::*;

verus! {

/// A type without values, for the error of what cannot fail.
#[derive(Debug)]
pub enum Never {
    /// What would hold a value, if there were one.
    Never(Infallible),
}

/// A failure of a request, by the status that answers it.
#[derive(Clone, Copy, Debug, PartialEq, Eq, Structural)]
pub enum Failure {
    /// The request is malformed: status 400.
    BadRequest,
    /// Nothing serves the request: status 404.
    NotFound,
    /// The method is not allowed on the path: status 405.
    MethodNotAllowed,
    /// The server failed: status 500.
    InternalServerError,
}

impl Failure {
    /// The status that answers the failure.
    pub open spec fn spec_status(self) -> u16 {
        match self {
            Failure::BadRequest => 400,
            Failure::NotFound => 404,
            Failure::MethodNotAllowed => 405,
            Failure::InternalServerError => 500,
        }
    }

    /// The status that answers the failure.
    pub fn status(&self) -> (s: u16)
        ensures
            s == self.spec_status(),
    {
        match self {
            Failure::BadRequest => 400,
            Failure::NotFound => 404,
            Failure::MethodNotAllowed => 405,
            Failure::InternalServerError => 500,
        }
    }
}

} // verus!
