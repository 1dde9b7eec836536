//! The server's error type: a wrapper around the shared [`ApiError`] that the
//! HTTP layer turns into a response.

use vstd::prelude::*;
use crate::error::ApiError as CommonError;

verus! {

/// The error of the server's handlers.
#[derive(Debug)]
pub struct ApiError(CommonError);

impl ApiError {
    /// The shared error inside.
    pub closed spec fn inner(&self) -> CommonError {
        self.0
    }

    /// A bad request with message `msg`.
    pub fn bad_request(msg: &str) -> (r: Self)
        ensures
            r.inner() matches CommonError::BadRequest(m) && m@ == msg@,
    {
        ApiError(CommonError::BadRequest(msg.to_string()))
    }

    /// A missing resource named `msg`.
    pub fn not_found(msg: &str) -> (r: Self)
        ensures
            r.inner() matches CommonError::NotFound(m) && m@ == msg@,
    {
        ApiError(CommonError::NotFound(msg.to_string()))
    }

    /// A forbidden request with message `msg`.
    pub fn forbidden(msg: &str) -> (r: Self)
        ensures
            r.inner() matches CommonError::Forbidden(m) && m@ == msg@,
    {
        ApiError(CommonError::Forbidden(msg.to_string()))
    }

    /// An internal error with message `msg`.
    pub fn internal(msg: &str) -> (r: Self)
        ensures
            r.inner() matches CommonError::Internal(m) && m@ == msg@,
    {
        ApiError(CommonError::Internal(msg.to_string()))
    }

    /// The shared error, for the response.
    pub fn common(&self) -> (r: &CommonError)
        ensures
            *r == self.inner(),
    {
        &self.0
    }
}

impl From<CommonError> for ApiError {
    fn from(e: CommonError) -> (r: Self) {
        ApiError(e)
    }
}

impl vstd::std_specs::convert::FromSpecImpl<CommonError> for ApiError {
    open spec fn obeys_from_spec() -> bool {
        true
    }

    closed spec fn from_spec(e: CommonError) -> Self {
        ApiError(e)
    }
}

} // verus!
