//! The service's operations over the account store: register, log in,
//! submit a score, fetch one's profile, and list the leaderboard.
use crate::account::{cas_applies, cas_rows, has_user, new_row, ranked, AccountStore, StoreError};
use crate::error::AppError;
use crate::password::{hash_password, verify_outcome, verify_password, MAX_PASSWORD_LEN};
use crate::session::claims_from_cookie;
use crate::time::{format_time, iso_time_of};
use crate::token::{decode_result, encode_claims, token_bytes, JWT_TTL};
use vstd::prelude::*;
use vstd::utf8::encode_utf8;

verus! {

/// Body of a score submission.
pub struct UpdateScorePayload {
    pub newscore: u64,
}

/// Body of a registration.
pub struct CreateUserPayload {
    pub username: String,
    pub email: String,
    pub password: String,
}

/// Body of a login.
pub struct LoginPayload {
    pub username: String,
    pub password: String,
}

/// A short acknowledgement.
pub struct GenericResponse {
    pub message: &'static str,
}

/// What a user sees of their own account.
pub struct Profile {
    pub username: String,
    pub email: String,
    pub score: u64,
    pub banned: bool,
    pub created: String,
    pub modified: String,
}

/// A row of the leaderboard.
pub struct LeaderboardEntry {
    pub username: String,
    pub score: u64,
}

/// Number of rows that the leaderboard shows.
pub const LEADERBOARD_LEN: usize = 10;

/// A token for this username and email can be built in memory.
pub open spec fn token_fits(username: Seq<char>, email: Seq<char>) -> bool {
    encode_utf8(username).len() + encode_utf8(email).len() <= usize::MAX / 4
}

/// Argon2 accepts `password`.
pub open spec fn password_fits(password: Seq<char>) -> bool {
    encode_utf8(password).len() <= MAX_PASSWORD_LEN
}

fn fits(username: &String, email: &String) -> (r: bool)
    ensures
        r == token_fits(username@, email@),
{
    let a = username.as_str().as_bytes().len();
    let b = email.as_str().as_bytes().len();
    a <= usize::MAX / 4 && b <= usize::MAX / 4 - a
}

/// The outcome of the conditional score write from the number of rows it
/// changed: one is success, none is a refusal, more breaks the uniqueness of
/// usernames and is internal.
pub fn score_update_outcome(rows_affected: u64) -> (r: Result<GenericResponse, AppError>)
    ensures
        rows_affected == 1 ==> r is Ok && r->Ok_0.message@ == "Score updated"@,
        rows_affected == 0 ==> r is Err && r->Err_0 is Rejected,
        rows_affected > 1 ==> r is Err && r->Err_0 is Internal,
{
    if rows_affected == 1 {
        Ok(GenericResponse { message: "Score updated" })
    } else if rows_affected == 0 {
        Err(AppError::Rejected)
    } else {
        Err(AppError::Internal("conditional score update changed more than one row".to_owned()))
    }
}

/// The failure reported for a refused insert: a uniqueness violation is a
/// conflict that carries `detail`; anything else is internal.
pub fn insert_failure(is_unique_violation: bool, detail: String) -> (r: AppError)
    ensures
        is_unique_violation ==> r is Conflict && r->Conflict_0@ == detail@,
        !is_unique_violation ==> r is Internal,
{
    if is_unique_violation {
        AppError::Conflict(detail)
    } else {
        AppError::Internal(detail)
    }
}

/// Registers an account and returns a session token for it. The password is
/// stored only as a salted hash that verifies against it. A free username
/// is registered, a taken one is a conflict, and a refused request leaves the
/// store as it was. Fields too long for a token and a password too long for
/// Argon2 are internal failures.
pub fn create_user(store: &mut AccountStore, payload: CreateUserPayload, secret: &[u8], now: u64)
    -> (r: Result<(String, GenericResponse), AppError>)
    requires
        old(store).wf(),
        now + JWT_TTL <= u64::MAX,
    ensures
        final(store).wf(),
        r is Err ==> final(store)@ == old(store)@,
        !has_user(old(store)@, payload.username@) && token_fits(payload.username@, payload.email@)
            && password_fits(payload.password@) ==> r is Ok,
        has_user(old(store)@, payload.username@) && token_fits(payload.username@, payload.email@)
            && password_fits(payload.password@) ==> r is Err && r->Err_0 is Conflict,
        has_user(old(store)@, payload.username@) ==> r is Err && (r->Err_0 is Conflict || r->Err_0 is Internal),
        !has_user(old(store)@, payload.username@) && r is Err ==> r->Err_0 is Internal,
        !has_user(old(store)@, payload.username@) && !token_fits(payload.username@, payload.email@) ==> r is Err,
        r is Ok ==> ({
            let (token, resp) = r->Ok_0;
            &&& exists|h: Seq<char>| #[trigger] verify_outcome(encode_utf8(payload.password@), h) == Some(true)
                && final(store)@ == old(store)@.push(new_row(payload.username@, payload.email@, h, now))
            &&& encode_utf8(token@) == token_bytes((payload.username@, payload.email@, now, (now + JWT_TTL) as u64), secret@)
            &&& resp.message@ == "Created user"@
        }),
{
    if !fits(&payload.username, &payload.email) {
        return Err(AppError::Internal("account fields too long for a session token".to_owned()));
    }
    let hash = match hash_password(payload.password.as_str()) {
        Ok(h) => h,
        Err(e) => return Err(e),
    };
    let ghost h = hash@;
    let username = payload.username.clone();
    let email = payload.email.clone();
    match store.insert_user(payload.username, payload.email, hash, now) {
        Err(StoreError::UniqueViolation) => Err(insert_failure(true, "Failed to create user: username already taken".to_owned())),
        Ok(()) => {
            let token = encode_claims(username, email, JWT_TTL, now, secret);
            assert(verify_outcome(encode_utf8(payload.password@), h) == Some(true));
            Ok((token, GenericResponse { message: "Created user" }))
        },
    }
}

/// The login decision for a stored account: the password must match its
/// record and the account must not be banned. A mismatch and a ban are both
/// `InvalidCredentials`; an unreadable record is internal.
pub fn check_credentials(password: &str, hash: &str, banned: bool) -> (r: Result<(), AppError>)
    ensures
        match verify_outcome(encode_utf8(password@), hash@) {
            None => r is Err && r->Err_0 is Internal,
            Some(false) => r is Err && r->Err_0 is InvalidCredentials,
            Some(true) => if banned { r is Err && r->Err_0 is InvalidCredentials } else { r is Ok },
        },
{
    match verify_password(password, hash) {
        Err(e) => Err(e),
        Ok(false) => Err(AppError::InvalidCredentials),
        Ok(true) => if banned {
            Err(AppError::InvalidCredentials)
        } else {
            Ok(())
        },
    }
}

/// The profile shown for a stored account, with its times as calendar text.
/// A banned account is refused as `InvalidCredentials`; a time that the
/// calendar cannot show is internal.
pub fn profile_of(username: String, email: String, score: u64, banned: bool, created: u64, modified: u64)
    -> (r: Result<Profile, AppError>)
    ensures
        banned ==> r is Err && r->Err_0 is InvalidCredentials,
        !banned ==> match (iso_time_of(created), iso_time_of(modified)) {
            (Some(a), Some(b)) => r is Ok && r->Ok_0.username@ == username@ && r->Ok_0.email@ == email@
                && r->Ok_0.score == score && !r->Ok_0.banned && r->Ok_0.created@ == a && r->Ok_0.modified@ == b,
            _ => r is Err && r->Err_0 is Internal,
        },
{
    if banned {
        return Err(AppError::InvalidCredentials);
    }
    let created = match format_time(created) {
        None => return Err(AppError::Internal("creation time out of calendar range".to_owned())),
        Some(x) => x,
    };
    let modified = match format_time(modified) {
        None => return Err(AppError::Internal("modification time out of calendar range".to_owned())),
        Some(x) => x,
    };
    Ok(Profile { username, email, score, banned, created, modified })
}

/// Logs in: checks the password against the stored hash and returns a
/// session token. An unknown user, a wrong password and a banned account are
/// all `InvalidCredentials`; an unreadable stored hash is internal.
pub fn login(store: &AccountStore, payload: LoginPayload, secret: &[u8], now: u64)
    -> (r: Result<(String, GenericResponse), AppError>)
    requires
        store.wf(),
        now + JWT_TTL <= u64::MAX,
    ensures
        !has_user(store@, payload.username@) ==> r is Err && r->Err_0 is InvalidCredentials,
        forall|i: int| 0 <= i < store@.len() && #[trigger] store@[i].username == payload.username@ ==> ({
            let row = store@[i];
            match verify_outcome(encode_utf8(payload.password@), row.hash) {
                None => r is Err && r->Err_0 is Internal,
                Some(false) => r is Err && r->Err_0 is InvalidCredentials,
                Some(true) => if row.banned {
                    r is Err && r->Err_0 is InvalidCredentials
                } else if !token_fits(row.username, row.email) {
                    r is Err && r->Err_0 is Internal
                } else {
                    r is Ok && encode_utf8(r->Ok_0.0@) == token_bytes((row.username, row.email, now, (now + JWT_TTL) as u64), secret@)
                        && r->Ok_0.1.message@ == "Logged in"@
                },
            }
        }),
{
    let i = match store.position(&payload.username) {
        None => return Err(AppError::InvalidCredentials),
        Some(i) => i,
    };
    let row = &store.rows[i];
    proof {
        assert forall|k: int| 0 <= k < store@.len() && #[trigger] store@[k].username == payload.username@ implies k == i by {
            if k != i {
                assert(store@[k].username != store@[i as int].username);
            }
        }
    }
    match check_credentials(payload.password.as_str(), row.hash.as_str(), row.banned) {
        Err(e) => Err(e),
        Ok(()) => {
            if !fits(&row.username, &row.email) {
                return Err(AppError::Internal("account fields too long for a session token".to_owned()));
            }
            let token = encode_claims(row.username.clone(), row.email.clone(), JWT_TTL, now, secret);
            Ok((token, GenericResponse { message: "Logged in" }))
        },
    }
}


/// Submits a new score for the account that the session token names. The
/// store's conditional write decides: it applies exactly when the account
/// exists, is not banned and its stored score is at most the new one.
pub fn update_score(store: &mut AccountStore, token: Option<&str>, payload: UpdateScorePayload, secret: &[u8], now: u64)
    -> (r: Result<GenericResponse, AppError>)
    requires
        old(store).wf(),
    ensures
        final(store).wf(),
        match token {
            None => r is Err && r->Err_0 is Unauthenticated && final(store)@ == old(store)@,
            Some(t) => match decode_result(encode_utf8(t@), secret@, now) {
                Err(_) => r is Err && r->Err_0 is InvalidToken && final(store)@ == old(store)@,
                Ok(c) => final(store)@ == cas_rows(old(store)@, c.0, payload.newscore, now)
                    && (r is Ok <==> cas_applies(old(store)@, c.0, payload.newscore))
                    && (r is Ok ==> r->Ok_0.message@ == "Score updated"@)
                    && (r is Err ==> r->Err_0 is Rejected),
            },
        },
{
    let claims = match claims_from_cookie(token, secret, now) {
        Err(e) => return Err(e),
        Ok(c) => c,
    };
    let n = store.cas_score(&claims.sub, payload.newscore, now);
    score_update_outcome(n)
}

/// The profile of the account that the session token names, with its times
/// as calendar text. An account that no longer exists or is banned is
/// `InvalidCredentials`; a time the calendar cannot show is internal.
pub fn me(store: &AccountStore, token: Option<&str>, secret: &[u8], now: u64) -> (r: Result<Profile, AppError>)
    requires
        store.wf(),
    ensures
        match token {
            None => r is Err && r->Err_0 is Unauthenticated,
            Some(t) => match decode_result(encode_utf8(t@), secret@, now) {
                Err(_) => r is Err && r->Err_0 is InvalidToken,
                Ok(c) => (!has_user(store@, c.0) ==> r is Err && r->Err_0 is InvalidCredentials)
                    && forall|i: int| 0 <= i < store@.len() && #[trigger] store@[i].username == c.0 ==> ({
                        let row = store@[i];
                        if row.banned {
                            r is Err && r->Err_0 is InvalidCredentials
                        } else {
                            match (iso_time_of(row.created), iso_time_of(row.modified)) {
                                (Some(a), Some(b)) => r is Ok && r->Ok_0.username@ == row.username
                                    && r->Ok_0.email@ == row.email && r->Ok_0.score == row.score
                                    && !r->Ok_0.banned && r->Ok_0.created@ == a
                                    && r->Ok_0.modified@ == b,
                                _ => r is Err && r->Err_0 is Internal,
                            }
                        }
                    }),
            },
        },
{
    let claims = match claims_from_cookie(token, secret, now) {
        Err(e) => return Err(e),
        Ok(c) => c,
    };
    let row = match store.fetch(&claims.sub) {
        None => return Err(AppError::InvalidCredentials),
        Some(u) => u,
    };
    proof {
        let k = choose|k: int| 0 <= k < store@.len() && #[trigger] store@[k] == row@ && row@.username == claims.sub@;
        assert forall|i: int| 0 <= i < store@.len() && #[trigger] store@[i].username == claims.sub@ implies i == k by {
            if i != k {
                assert(store@[i].username != store@[k].username);
            }
        }
    }
    profile_of(row.username, row.email, row.score, row.banned, row.created, row.modified)
}


/// The leaderboard: usernames and scores of the highest-scoring accounts,
/// highest first, at most `LEADERBOARD_LEN` of them.
pub fn list_users(store: &AccountStore) -> (r: Vec<LeaderboardEntry>)
    ensures
        r@.len() == (if store@.len() < LEADERBOARD_LEN { store@.len() } else { LEADERBOARD_LEN as nat }),
        exists|order: Seq<usize>| #[trigger] ranked(store@, order) && forall|k: int| 0 <= k < r@.len()
            ==> #[trigger] r@[k].username@ == store@[order[k] as int].username && r@[k].score == store@[order[k] as int].score,
{
    let order = store.ranking();
    let take = if order.len() < LEADERBOARD_LEN { order.len() } else { LEADERBOARD_LEN };
    let mut r: Vec<LeaderboardEntry> = Vec::new();
    let mut k: usize = 0;
    while k < take
        invariant
            take <= order@.len(),
            ranked(store@, order@),
            k <= take,
            r@.len() == k,
            forall|m: int| 0 <= m < k ==> #[trigger] r@[m].username@ == store@[order@[m] as int].username
                && r@[m].score == store@[order@[m] as int].score,
        decreases take - k,
    {
        let row = &store.rows[order[k]];
        r.push(LeaderboardEntry { username: row.username.clone(), score: row.score });
        k = k + 1;
    }
    r
}

} // verus!
