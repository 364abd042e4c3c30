//! Turning the token presented with a request into an authenticated identity.
use crate::error::AppError;
use crate::token::{decode_result, decode_token, SessionClaims};
use vstd::prelude::*;
use vstd::utf8::encode_utf8;

verus! {

/// Name of the cookie that carries the session token.
pub const SESSION_COOKIE: &'static str = "jwt";

/// The claims of the session token `token` (the value of the session cookie,
/// if one was sent), checked against `secret` at time `now`. A missing token
/// is `Unauthenticated`; one that does not decode is `InvalidToken`.
pub fn claims_from_cookie(token: Option<&str>, secret: &[u8], now: u64) -> (r: Result<SessionClaims, AppError>)
    ensures
        match token {
            None => r is Err && r->Err_0 is Unauthenticated,
            Some(t) => match decode_result(encode_utf8(t@), secret@, now) {
                Ok(v) => r is Ok && r->Ok_0@ == v,
                Err(_) => r is Err && r->Err_0 is InvalidToken,
            },
        },
{
    match token {
        None => Err(AppError::Unauthenticated),
        Some(t) => match decode_token(t, secret, now) {
            Ok(c) => Ok(c),
            Err(_) => Err(AppError::InvalidToken),
        },
    }
}

} // verus!
