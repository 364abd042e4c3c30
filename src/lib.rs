//! Authentication and score-consistency core of a small leaderboard service:
//! credential hashing, signed expiring session tokens, and the account store
//! rules (unique registration, compare-and-swap high-score updates).

pub mod account;
pub mod api;
pub mod digest;
pub mod error;
pub mod password;
pub mod session;
pub mod time;
pub mod token;
