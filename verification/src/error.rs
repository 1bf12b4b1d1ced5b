//! The errors the API answers with.
use vstd::prelude::*;

verus! {

/// An API error: the HTTP status it is answered with, and a message where
/// the status needs one.
#[derive(Debug, Clone, PartialEq, Eq)]
pub enum ApiError {
    BadRequest(String),
    Unauthorized,
    Forbidden,
    NotFound(String),
    Conflict(String),
    Internal(String),
}

pub open spec fn status_of(e: ApiError) -> u16 {
    match e {
        ApiError::BadRequest(_) => 400,
        ApiError::Unauthorized => 401,
        ApiError::Forbidden => 403,
        ApiError::NotFound(_) => 404,
        ApiError::Conflict(_) => 409,
        ApiError::Internal(_) => 500,
    }
}

/// A bad request whose message is `m`.
pub open spec fn bad_request(e: ApiError, m: Seq<char>) -> bool {
    e matches ApiError::BadRequest(msg) && msg@ == m
}

/// A conflict whose message is `m`.
pub open spec fn conflict(e: ApiError, m: Seq<char>) -> bool {
    e matches ApiError::Conflict(msg) && msg@ == m
}

impl ApiError {
    /// The HTTP status code of the error.
    pub fn status_code(&self) -> (r: u16)
        ensures
            r == status_of(*self),
    {
        match self {
            ApiError::BadRequest(_) => 400,
            ApiError::Unauthorized => 401,
            ApiError::Forbidden => 403,
            ApiError::NotFound(_) => 404,
            ApiError::Conflict(_) => 409,
            ApiError::Internal(_) => 500,
        }
    }
}

} // verus!
