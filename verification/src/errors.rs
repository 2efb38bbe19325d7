//! Error types: the HTTP-facing status classification and the store-level
//! error kinds that the engine reports.

use vstd::prelude::*;

verus! {

/// Status classification that crosses the API boundary: a request is either
/// malformed / unauthorized (400) or the engine failed to complete it (500).
#[derive(Clone, Copy, Debug, PartialEq, Eq, Structural)]
pub enum ErrorStatus {
    Status400,
    Status500,
}

/// Error kinds raised by the store model itself.
#[derive(Clone, Copy, Debug, PartialEq, Eq, Structural)]
pub enum SyncError {
    /// A lookup targeted a row that does not exist.
    NotFound,
    /// A row with the same key already exists where a fresh one was required.
    AlreadyExists,
    /// The per-user client-id counter cannot be advanced any further.
    SeqExhausted,
    /// A negative row limit was handed to a query, which the store refuses.
    InvalidLimit,
}

impl ErrorStatus {
    /// Short textual label of the status, usable where a display form is
    /// needed.
    pub fn label(&self) -> (r: String)
        ensures
            *self == ErrorStatus::Status400 ==> r@ == "Status400"@,
            *self == ErrorStatus::Status500 ==> r@ == "Status500"@,
    {
        match self {
            ErrorStatus::Status400 => "Status400".to_owned(),
            ErrorStatus::Status500 => "Status500".to_owned(),
        }
    }

    /// Classification of a store-level failure: every store error surfaces as
    /// an internal error, as a failed transaction would.
    pub fn from_sync(e: &SyncError) -> (r: ErrorStatus)
        ensures
            r == ErrorStatus::Status500,
    {
        match e {
            SyncError::NotFound => ErrorStatus::Status500,
            SyncError::AlreadyExists => ErrorStatus::Status500,
            SyncError::SeqExhausted => ErrorStatus::Status500,
            SyncError::InvalidLimit => ErrorStatus::Status500,
        }
    }
}

} // verus!
