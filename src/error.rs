//! The failure kinds that the service reports, and how each is shown.
use vstd::prelude::*;

verus! {

/// A failure of a request, by kind. All but `Internal` are caused by the
/// client; `Internal` carries detail for the server's log only.
#[derive(Debug)]
pub enum AppError {
    /// No session token was presented.
    Unauthenticated,
    /// A session token was presented but is malformed, badly signed or expired.
    InvalidToken,
    /// Unknown user or wrong password; the two are deliberately alike.
    InvalidCredentials,
    /// The account to create collides with an existing one.
    Conflict(String),
    /// The score was not a new high score, or the account does not exist.
    Rejected,
    /// A fault of the server or its store.
    Internal(String),
}

/// The HTTP status that a failure of each kind is answered with.
pub open spec fn status_of(e: AppError) -> u16 {
    match e {
        AppError::Unauthenticated => 401,
        AppError::InvalidToken => 401,
        AppError::InvalidCredentials => 401,
        AppError::Conflict(_) => 409,
        AppError::Rejected => 400,
        AppError::Internal(_) => 500,
    }
}

impl AppError {
    /// True for the server-caused kind, whose detail is never shown.
    pub fn is_internal(&self) -> (r: bool)
        ensures
            r == (self is Internal),
    {
        match self {
            AppError::Internal(_) => true,
            _ => false,
        }
    }

    /// The HTTP status of the response for this failure.
    pub fn status(&self) -> (r: u16)
        ensures
            r == status_of(*self),
            400 <= r < 600,
            (r >= 500) == (self is Internal),
    {
        match self {
            AppError::Unauthenticated => 401,
            AppError::InvalidToken => 401,
            AppError::InvalidCredentials => 401,
            AppError::Conflict(_) => 409,
            AppError::Rejected => 400,
            AppError::Internal(_) => 500,
        }
    }

    /// The message shown to the client: the conflict's detail for a
    /// conflict, a fixed text for every other kind, and never the detail of
    /// an internal failure.
    pub fn public_message(&self) -> (r: String)
        ensures
            match *self {
                AppError::Unauthenticated => r@ == "Please log in"@,
                AppError::InvalidToken => r@ == "Session invalid, please log in again"@,
                AppError::InvalidCredentials => r@ == "Invalid credentials"@,
                AppError::Conflict(detail) => r@ == detail@,
                AppError::Rejected => r@ == "Failed to update score: is it really your highscore?"@,
                AppError::Internal(_) => r@ == "Internal server error"@,
            },
    {
        match self {
            AppError::Unauthenticated => "Please log in".to_owned(),
            AppError::InvalidToken => "Session invalid, please log in again".to_owned(),
            AppError::InvalidCredentials => "Invalid credentials".to_owned(),
            AppError::Conflict(detail) => detail.clone(),
            AppError::Rejected => "Failed to update score: is it really your highscore?".to_owned(),
            AppError::Internal(_) => "Internal server error".to_owned(),
        }
    }
}

} // verus!
