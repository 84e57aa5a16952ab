//! Error taxonomy of the sync engine.

use vstd::prelude::*;

verus! {

/// Errors reported by the HTTP-facing API surface.
#[derive(Clone, Copy, Debug, PartialEq, Eq, Structural)]
pub enum ApiError {
    IncorrectCrecidentials,
    NotAuthenticated,
}

impl ApiError {
    /// The HTTP status code that reports this error to a client.
    /// Every variant is an authorization failure.
    pub fn status_code(&self) -> (code: u16)
        ensures
            code == 401,
    {
        match self {
            ApiError::IncorrectCrecidentials => 401,
            ApiError::NotAuthenticated => 401,
        }
    }
}

/// Failures of the metadata or blob store.
#[derive(Clone, Copy, Debug, PartialEq, Eq, Structural)]
pub enum StorageError {
    /// The record or blob addressed by the operation is absent.
    NotFound,
    /// The operation would break a uniqueness or capacity constraint.
    ConstraintViolation,
    /// The underlying store cannot complete the operation.
    IoFailure,
}

/// Faults that end a transfer session.
#[derive(Clone, Copy, Debug, PartialEq, Eq, Structural)]
pub enum SessionError {
    /// A text frame did not decode to a control message.
    MalformedMessage,
    /// The storage layer failed; partial progress already persisted is kept.
    Storage(StorageError),
}

} // verus!
