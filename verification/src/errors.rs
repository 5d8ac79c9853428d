//! Error taxonomy of the backend.
//!
//! Authentication failures short-circuit a request before any store access;
//! data failures arise inside a transaction and surface after a rollback.
//! At the boundary every failure is flattened to the single-field envelope
//! `AppError`, so internal distinctions never leak to the caller.

use vstd::prelude::*;

verus! {

/// The uniform error envelope returned to clients: one human-readable message.
#[derive(Debug, Clone)]
pub struct AppError {
    pub error: String,
}

impl AppError {
    /// Builds an envelope carrying the given message.
    pub fn new(error: &str) -> (r: Self)
        ensures
            r.error@ == error@,
    {
        AppError { error: error.to_owned() }
    }
}

/// Failures of the per-request authentication guard.
#[derive(Debug, Clone, Copy, PartialEq, Eq, Structural)]
pub enum AuthError {
    /// The `Authorization` header is absent or not of the form `Bearer <token>`.
    MissingToken,
    /// The token's signature or format is wrong.
    InvalidToken,
    /// The token is well formed and signed, but its expiry has passed.
    TokenExpired,
    /// The caller is authenticated but lacks the admin role.
    InsufficientRole,
}

impl AuthError {
    /// The HTTP status an authentication failure maps to:
    /// 403 for a role failure, 401 for everything else.
    pub fn status_code(&self) -> (r: u16)
        ensures
            r == (if self is InsufficientRole { 403u16 } else { 401u16 }),
    {
        match self {
            AuthError::InsufficientRole => 403,
            _ => 401,
        }
    }

    /// The message placed in the error envelope.
    pub fn message(&self) -> (r: String)
        ensures
            r@ == self.spec_message(),
    {
        match self {
            AuthError::MissingToken => "missing authentication token".to_owned(),
            AuthError::InvalidToken => "invalid token".to_owned(),
            AuthError::TokenExpired => "token expired, please log in again".to_owned(),
            AuthError::InsufficientRole => "administrator role required".to_owned(),
        }
    }

    /// The message each failure carries.
    pub open spec fn spec_message(&self) -> Seq<char> {
        match self {
            AuthError::MissingToken => "missing authentication token"@,
            AuthError::InvalidToken => "invalid token"@,
            AuthError::TokenExpired => "token expired, please log in again"@,
            AuthError::InsufficientRole => "administrator role required"@,
        }
    }

    /// Flattens the failure to the envelope shape.
    pub fn to_app_error(&self) -> (r: AppError)
        ensures
            r.error@ == self.spec_message(),
    {
        AppError { error: self.message() }
    }
}

/// Failures of the store operations.
#[derive(Debug, Clone, Copy, PartialEq, Eq, Structural)]
pub enum DataError {
    /// The addressed record does not exist.
    RecordNotFound,
    /// An inventory decrement would drive the amount below zero.
    InsufficientStock,
    /// A write would violate a store constraint (for instance an amount
    /// or an id leaving its column's range).
    ConstraintViolation,
    /// The surrounding transaction could not begin or commit.
    TransactionFailed,
}

impl DataError {
    /// The message placed in the error envelope.
    pub fn message(&self) -> (r: String)
        ensures
            r@ == self.spec_message(),
    {
        match self {
            DataError::RecordNotFound => "record not found".to_owned(),
            DataError::InsufficientStock => "insufficient stock".to_owned(),
            DataError::ConstraintViolation => "update rejected by a constraint".to_owned(),
            DataError::TransactionFailed => "update failed, transaction did not complete".to_owned(),
        }
    }

    /// The message each failure carries.
    pub open spec fn spec_message(&self) -> Seq<char> {
        match self {
            DataError::RecordNotFound => "record not found"@,
            DataError::InsufficientStock => "insufficient stock"@,
            DataError::ConstraintViolation => "update rejected by a constraint"@,
            DataError::TransactionFailed => "update failed, transaction did not complete"@,
        }
    }

    /// Flattens the failure to the envelope shape.
    pub fn to_app_error(&self) -> (r: AppError)
        ensures
            r.error@ == self.spec_message(),
    {
        AppError { error: self.message() }
    }
}

} // verus!
