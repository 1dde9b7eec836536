//! Errors answered to clients: a kind (mapped to an HTTP status by the
//! server) and a message.

use vstd::prelude::*;

verus! {

/// Kind of an error as clients see it.
#[derive(Debug, Clone, Copy, PartialEq, Eq, Structural)]
pub enum ErrorKind {
    BadRequest,
    NotFound,
    Conflict,
    Forbidden,
    Internal,
}

impl ErrorKind {
    /// The code of the kind: its name in lower case.
    pub open spec fn spec_code(self) -> Seq<char> {
        match self {
            ErrorKind::BadRequest => "badrequest"@,
            ErrorKind::NotFound => "notfound"@,
            ErrorKind::Conflict => "conflict"@,
            ErrorKind::Forbidden => "forbidden"@,
            ErrorKind::Internal => "internal"@,
        }
    }

    /// The code of the kind (see [`ErrorKind::spec_code`]).
    pub fn code(&self) -> (r: String)
        ensures
            r@ == self.spec_code(),
    {
        match self {
            ErrorKind::BadRequest => String::from_str("badrequest"),
            ErrorKind::NotFound => String::from_str("notfound"),
            ErrorKind::Conflict => String::from_str("conflict"),
            ErrorKind::Forbidden => String::from_str("forbidden"),
            ErrorKind::Internal => String::from_str("internal"),
        }
    }
}

/// A business error of the server.
#[derive(Debug)]
pub enum ApiError {
    BadRequest(String),
    NotFound(String),
    Conflict(String),
    Forbidden(String),
    Internal(String),
}

/// The body of an error response.
#[derive(Debug)]
pub struct ErrorBody {
    pub code: String,
    pub message: String,
}

impl Clone for ErrorBody {
    fn clone(&self) -> (r: Self)
        ensures
            r == *self,
    {
        ErrorBody { code: self.code.clone(), message: self.message.clone() }
    }
}

impl ApiError {
    /// The kind of the error: one kind per variant.
    pub open spec fn spec_kind(&self) -> ErrorKind {
        match self {
            ApiError::BadRequest(_) => ErrorKind::BadRequest,
            ApiError::NotFound(_) => ErrorKind::NotFound,
            ApiError::Conflict(_) => ErrorKind::Conflict,
            ApiError::Forbidden(_) => ErrorKind::Forbidden,
            ApiError::Internal(_) => ErrorKind::Internal,
        }
    }

    /// The message of the error: the detail as it is, behind "资源不存在: " for
    /// a missing resource and behind "服务器内部错误: " for an internal error.
    pub open spec fn spec_message(&self) -> Seq<char> {
        match self {
            ApiError::BadRequest(m) => m@,
            ApiError::NotFound(m) => "资源不存在: "@ + m@,
            ApiError::Conflict(m) => m@,
            ApiError::Forbidden(m) => m@,
            ApiError::Internal(m) => "服务器内部错误: "@ + m@,
        }
    }

    pub fn kind(&self) -> (r: ErrorKind)
        ensures
            r == self.spec_kind(),
    {
        match self {
            ApiError::BadRequest(_) => ErrorKind::BadRequest,
            ApiError::NotFound(_) => ErrorKind::NotFound,
            ApiError::Conflict(_) => ErrorKind::Conflict,
            ApiError::Forbidden(_) => ErrorKind::Forbidden,
            ApiError::Internal(_) => ErrorKind::Internal,
        }
    }

    /// The message shown to clients (see [`ApiError::spec_message`]).
    pub fn message(&self) -> (r: String)
        ensures
            r@ == self.spec_message(),
    {
        match self {
            ApiError::BadRequest(m) => m.clone(),
            ApiError::NotFound(m) => {
                let p = String::from_str("资源不存在: ");
                p.concat(m.as_str())
            },
            ApiError::Conflict(m) => m.clone(),
            ApiError::Forbidden(m) => m.clone(),
            ApiError::Internal(m) => {
                let p = String::from_str("服务器内部错误: ");
                p.concat(m.as_str())
            },
        }
    }

    /// The response body: the code of the kind and the message.
    pub fn to_body(&self) -> (r: ErrorBody)
        ensures
            r.code@ == self.spec_kind().spec_code(),
            r.message@ == self.spec_message(),
    {
        ErrorBody { code: self.kind().code(), message: self.message() }
    }
}

} // verus!
