//! Salted, memory-hard password hashing (Argon2id, PHC string records).
use crate::error::AppError;
use argon2::password_hash::rand_core::OsRng;
use argon2::password_hash::{PasswordHash, PasswordHasher, PasswordVerifier, SaltString};
use argon2::Argon2;
use vstd::prelude::*;
use vstd::utf8::encode_utf8;

verus! {

/// What checking `password` against the stored record `record` yields:
/// `Some(true)` on a match, `Some(false)` on a mismatch, `None` when the
/// record cannot be read.
pub uninterp spec fn verify_outcome(password: Seq<u8>, record: Seq<char>) -> Option<bool>;

/// Longest password, in bytes, that Argon2 accepts.
pub const MAX_PASSWORD_LEN: usize = 0xFFFF_FFFF;

/// Relies on `SaltString::generate` with `OsRng` and
/// `Argon2::default().hash_password`: a PHC record with a fresh random salt,
/// which `verify_password` accepts for the same password (it recomputes the
/// hash from the record's own parameters and salt). With the default
/// parameters and a generated salt, the only refusal is a password longer
/// than `argon2::MAX_PWD_LEN`; an entropy failure of `OsRng` panics instead.
#[verifier::external_body]
fn argon2_hash(password: &[u8]) -> (r: Option<String>)
    ensures
        password@.len() <= MAX_PASSWORD_LEN ==> r is Some,
        r is Some ==> verify_outcome(password@, r->Some_0@) == Some(true),
{
    let salt = SaltString::generate(&mut OsRng);
    Argon2::default().hash_password(password, &salt).ok().map(|h| h.to_string())
}

/// Relies on `PasswordHash::new` and `Argon2::default().verify_password`:
/// whether `password` matches the record, a function of the two alone.
#[verifier::external_body]
fn argon2_verify(password: &[u8], record: &str) -> (r: Option<bool>)
    ensures
        r == verify_outcome(password@, record@),
{
    match PasswordHash::new(record) {
        Err(_) => None,
        Ok(parsed) => match Argon2::default().verify_password(password, &parsed) {
            Ok(()) => Some(true),
            Err(argon2::password_hash::Error::Password) => Some(false),
            Err(_) => None,
        },
    }
}

/// A fresh salted record for `password`. Hashing succeeds for every password
/// Argon2 accepts; a longer one is an internal failure.
pub fn hash_password(password: &str) -> (r: Result<String, AppError>)
    ensures
        encode_utf8(password@).len() <= MAX_PASSWORD_LEN ==> r is Ok,
        r is Ok ==> verify_outcome(encode_utf8(password@), r->Ok_0@) == Some(true),
        r is Err ==> r->Err_0 is Internal,
{
    match argon2_hash(password.as_bytes()) {
        Some(h) => Ok(h),
        None => Err(AppError::Internal("Failed to create hash".to_owned())),
    }
}

/// Whether `password` matches `record`; an unreadable record is internal.
pub fn verify_password(password: &str, record: &str) -> (r: Result<bool, AppError>)
    ensures
        match verify_outcome(encode_utf8(password@), record@) {
            Some(b) => r is Ok && r->Ok_0 == b,
            None => r is Err && r->Err_0 is Internal,
        },
{
    match argon2_verify(password.as_bytes(), record) {
        Some(b) => Ok(b),
        None => Err(AppError::Internal("Failed to parse hash".to_owned())),
    }
}

} // verus!
