//! The credential verifier: salted one-way password hashing.
//!
//! Hashing and verification are the work of an outside collaborator
//! (bcrypt); this module states what that collaborator guarantees and fails
//! closed around it: any malformed digest or internal error counts as "not
//! verified", and an internal hashing failure surfaces as one generic
//! message that leaks nothing.

use vstd::prelude::*;
use crate::errors::AppError;

verus! {

/// Whether bcrypt verification accepts `password` against `digest`: the
/// value `bcrypt::verify` computes, a function of the two texts alone.
pub uninterp spec fn bcrypt_matches(password: Seq<char>, digest: Seq<char>) -> bool;

/// Whether `digest` is a well-formed bcrypt digest: exactly those texts
/// `bcrypt::verify` parses rather than rejects — a function of the digest
/// alone.
pub uninterp spec fn bcrypt_digest_wf(digest: Seq<char>) -> bool;

/// Relies on `bcrypt::hash` with the default cost: on success, a fresh
/// salted digest in bcrypt's own format — one that `bcrypt::verify` parses
/// and accepts for this password. The salt is random, so nothing else is
/// promised of the digest text.
#[verifier::external_body]
fn bcrypt_hash(password: &str) -> (r: Option<String>)
    ensures
        r matches Some(h) ==> bcrypt_digest_wf(h@) && bcrypt_matches(password@, h@),
{
    bcrypt::hash(password, bcrypt::DEFAULT_COST).ok()
}

/// Relies on `bcrypt::verify`: deterministic in the password and digest
/// texts, and it fails exactly on the digests its parser rejects,
/// whatever the password.
#[verifier::external_body]
fn bcrypt_verify(password: &str, digest: &str) -> (r: Option<bool>)
    ensures
        r matches Some(b) ==> b == bcrypt_matches(password@, digest@),
        r is Some <==> bcrypt_digest_wf(digest@),
{
    bcrypt::verify(password, digest).ok()
}

/// Hashes a password for storage. On success the digest is well formed and
/// verifies against exactly this password (see `verify_password`); an
/// internal hashing error surfaces as one generic message.
pub fn encrypt_password(password: String) -> (r: Result<String, AppError>)
    ensures
        r matches Ok(h) ==> bcrypt_digest_wf(h@) && bcrypt_matches(password@, h@),
{
    match bcrypt_hash(password.as_str()) {
        Some(h) => Ok(h),
        None => Err(AppError::new("operation failed")),
    }
}

/// Checks a password against a stored digest, failing closed: on a well
/// formed digest the answer is exactly bcrypt's; a malformed digest is
/// "not verified", never an exception that bypasses the check.
pub fn verify_password(password: String, hashed: &String) -> (r: bool)
    ensures
        r ==> bcrypt_matches(password@, hashed@),
        bcrypt_digest_wf(hashed@) ==> r == bcrypt_matches(password@, hashed@),
        !bcrypt_digest_wf(hashed@) ==> r == false,
{
    match bcrypt_verify(password.as_str(), hashed.as_str()) {
        Some(b) => b,
        None => false,
    }
}

} // verus!
