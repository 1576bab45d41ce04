//! Errors surfaced to API callers.
use vstd::prelude::*;

verus! {

/// Error returned to an API caller.
#[derive(Debug)]
pub enum ApiError {
    NotFound(String),
    BadRequest(String),
    InternalError(String),
}

impl ApiError {
    /// HTTP status of the error: 404, 400 or 500.
    pub fn status_code(&self) -> (r: u16)
        ensures
            r == match self {
                ApiError::NotFound(_) => 404u16,
                ApiError::BadRequest(_) => 400u16,
                ApiError::InternalError(_) => 500u16,
            },
    {
        match self {
            ApiError::NotFound(_) => 404,
            ApiError::BadRequest(_) => 400,
            ApiError::InternalError(_) => 500,
        }
    }

    /// The message carried by the error.
    pub fn message(&self) -> (r: &String)
        ensures
            r == match self {
                ApiError::NotFound(m) => m,
                ApiError::BadRequest(m) => m,
                ApiError::InternalError(m) => m,
            },
    {
        match self {
            ApiError::NotFound(m) => m,
            ApiError::BadRequest(m) => m,
            ApiError::InternalError(m) => m,
        }
    }
}

} // verus!
