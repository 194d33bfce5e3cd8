//! The error kinds every operation of the engine can surface. The transport
//! layer maps each kind to a status code exactly once, at the boundary.

use vstd::prelude::*;

verus! {

/// Typed failure of an engine operation.
///
/// `Unauthorized` deliberately conflates "does not exist", "expired" and
/// "belongs to someone else", so that callers cannot probe for other users'
/// resources. `Underfunded` is kept distinct so a client can show a billing
/// prompt. `ViolatedAssertion` marks a broken internal invariant (corrupted
/// ledger ordering, arithmetic outside the machine range, a random token
/// colliding with a stored one) and is surfaced as an internal failure.
#[derive(Clone, Copy, Debug, PartialEq, Eq, Structural)]
pub enum AppError {
    Unauthorized,
    Underfunded,
    Conflict,
    NotFound,
    InvalidUsername,
    ViolatedAssertion,
}

impl AppError {
    /// The HTTP status code the boundary reports for this kind.
    pub fn status_code(&self) -> (code: u16)
        ensures
            code == match *self {
                AppError::Unauthorized => 401u16,
                AppError::Underfunded => 402u16,
                AppError::Conflict => 409u16,
                AppError::NotFound => 404u16,
                AppError::InvalidUsername => 422u16,
                AppError::ViolatedAssertion => 500u16,
            },
    {
        match self {
            AppError::Unauthorized => 401,
            AppError::Underfunded => 402,
            AppError::Conflict => 409,
            AppError::NotFound => 404,
            AppError::InvalidUsername => 422,
            AppError::ViolatedAssertion => 500,
        }
    }
}

} // verus!
