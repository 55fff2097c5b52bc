//! What a refused request is answered.
use vstd::prelude::*;

verus! {

#[derive(Clone, Copy, Debug, PartialEq, Eq, Structural)]
pub enum ErrorCode {
    InvalidArgument,
    Unauthorized,
    Forbidden,
    NotFound,
    AlreadyExists,
    Conflict,
    SchemaViolation,
    QuotaExceeded,
    ResourceExhausted,
    IndexRequired,
    CursorExpired,
    Unavailable,
    UnknownOutcome,
    Corruption,
    Sealed,
    AuditUnavailable,
}

/// A refusal: its kind, and the sentence that says why.
#[derive(Clone, Copy, Debug, PartialEq, Eq)]
pub struct Error {
    pub code: ErrorCode,
    pub message: &'static str,
}

pub open spec fn refusal(code: ErrorCode, message: &'static str) -> Error {
    Error { code, message }
}

pub fn error(code: ErrorCode, message: &'static str) -> (e: Error)
    ensures
        e == refusal(code, message),
{
    Error { code, message }
}

pub open spec fn conflicting(message: &'static str) -> Error {
    Error { code: ErrorCode::Conflict, message }
}

pub fn conflict(message: &'static str) -> (e: Error)
    ensures
        e == conflicting(message),
{
    Error { code: ErrorCode::Conflict, message }
}

} // verus!
