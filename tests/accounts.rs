use leaderboard_auth::account::{AccountStore, StoreError, User};
use leaderboard_auth::api::{
    check_credentials, create_user, insert_failure, profile_of, list_users, login, me, score_update_outcome, update_score, CreateUserPayload,
    LoginPayload, UpdateScorePayload,
};
use leaderboard_auth::error::AppError;
use leaderboard_auth::password::{hash_password, verify_password};
use leaderboard_auth::time::format_time;

const SECRET: &[u8] = b"test-signing-secret";

fn row(name: &str, score: u64) -> User {
    User {
        username: name.to_string(),
        email: format!("{name}@example.com"),
        created: 0,
        modified: 0,
        banned: false,
        score,
        hash: String::new(),
    }
}

fn store_with(rows: Vec<User>) -> AccountStore {
    AccountStore { rows }
}

fn register(store: &mut AccountStore, u: &str, e: &str, p: &str, now: u64) -> Result<(String, &'static str), AppError> {
    create_user(
        store,
        CreateUserPayload { username: u.to_string(), email: e.to_string(), password: p.to_string() },
        SECRET,
        now,
    )
    .map(|(t, r)| (t, r.message))
}

fn log_in(store: &AccountStore, u: &str, p: &str, now: u64) -> Result<(String, &'static str), AppError> {
    login(store, LoginPayload { username: u.to_string(), password: p.to_string() }, SECRET, now).map(|(t, r)| (t, r.message))
}

#[test]
fn end_to_end_scenario() {
    let mut store = AccountStore::new();
    let (token, msg) = register(&mut store, "alice", "a@example.com", "pw123", 100).unwrap();
    assert_eq!(msg, "Created user");
    assert!(!token.is_empty());
    assert!(matches!(log_in(&store, "alice", "wrong", 110), Err(AppError::InvalidCredentials)));
    let (token, msg) = log_in(&store, "alice", "pw123", 120).unwrap();
    assert_eq!(msg, "Logged in");
    let r = update_score(&mut store, Some(&token), UpdateScorePayload { newscore: 50 }, SECRET, 130).unwrap();
    assert_eq!(r.message, "Score updated");
    assert!(matches!(
        update_score(&mut store, Some(&token), UpdateScorePayload { newscore: 30 }, SECRET, 140),
        Err(AppError::Rejected)
    ));
    assert_eq!(store.rows[0].score, 50);
    let board = list_users(&store);
    assert_eq!(board.len(), 1);
    assert_eq!(board[0].username, "alice");
    assert_eq!(board[0].score, 50);
    let profile = me(&store, Some(&token), SECRET, 150).unwrap();
    assert_eq!(profile.username, "alice");
    assert_eq!(profile.email, "a@example.com");
    assert_eq!(profile.score, 50);
    assert!(!profile.banned);
    assert_eq!(profile.created, "1970-01-01T00:01:40");
    assert_eq!(profile.modified, "1970-01-01T00:02:10");
}

#[test]
fn duplicate_registration_conflicts() {
    let mut store = AccountStore::new();
    assert!(register(&mut store, "bob", "b@example.com", "x", 1).is_ok());
    assert!(matches!(register(&mut store, "bob", "other@example.com", "y", 2), Err(AppError::Conflict(_))));
    assert_eq!(store.rows.len(), 1);
    assert_eq!(store.rows[0].email, "b@example.com");
}

#[test]
fn store_insert_unique() {
    let mut store = AccountStore::new();
    assert_eq!(store.insert_user("a".to_string(), "e".to_string(), "h".to_string(), 5), Ok(()));
    assert_eq!(store.insert_user("a".to_string(), "f".to_string(), "h".to_string(), 6), Err(StoreError::UniqueViolation));
    assert_eq!(store.insert_user("b".to_string(), "f".to_string(), "h".to_string(), 6), Ok(()));
    assert_eq!(store.rows.len(), 2);
    assert_eq!(store.rows[0].created, 5);
    assert_eq!(store.rows[0].score, 0);
}

#[test]
fn cas_monotonicity() {
    let mut store = store_with(vec![row("a", 10)]);
    let name = "a".to_string();
    assert_eq!(store.cas_score(&name, 9, 1), 0);
    assert_eq!(store.rows[0].score, 10);
    assert_eq!(store.cas_score(&name, 10, 2), 1);
    assert_eq!(store.rows[0].score, 10);
    assert_eq!(store.rows[0].modified, 2);
    assert_eq!(store.cas_score(&name, 11, 3), 1);
    assert_eq!(store.rows[0].score, 11);
    assert_eq!(store.cas_score(&"nobody".to_string(), 100, 4), 0);
}

#[test]
fn cas_race_both_orders() {
    let name = "a".to_string();
    let mut s1 = store_with(vec![row("a", 10)]);
    assert_eq!(s1.cas_score(&name, 15, 1), 1);
    assert_eq!(s1.cas_score(&name, 20, 2), 1);
    assert_eq!(s1.rows[0].score, 20);
    let mut s2 = store_with(vec![row("a", 10)]);
    assert_eq!(s2.cas_score(&name, 20, 1), 1);
    assert_eq!(s2.cas_score(&name, 15, 2), 0);
    assert_eq!(s2.rows[0].score, 20);
}

#[test]
fn banned_account_cannot_score_or_log_in() {
    let mut store = AccountStore::new();
    let (token, _) = register(&mut store, "carol", "c@example.com", "pw", 1).unwrap();
    store.rows[0].banned = true;
    assert!(matches!(
        update_score(&mut store, Some(&token), UpdateScorePayload { newscore: 5 }, SECRET, 2),
        Err(AppError::Rejected)
    ));
    assert_eq!(store.rows[0].score, 0);
    assert!(matches!(log_in(&store, "carol", "pw", 3), Err(AppError::InvalidCredentials)));
}

#[test]
fn unknown_user_login_is_invalid_credentials() {
    let store = AccountStore::new();
    assert!(matches!(log_in(&store, "ghost", "pw", 1), Err(AppError::InvalidCredentials)));
}

#[test]
fn update_score_without_or_with_bad_token() {
    let mut store = store_with(vec![row("a", 1)]);
    assert!(matches!(
        update_score(&mut store, None, UpdateScorePayload { newscore: 5 }, SECRET, 2),
        Err(AppError::Unauthenticated)
    ));
    assert!(matches!(
        update_score(&mut store, Some("00"), UpdateScorePayload { newscore: 5 }, SECRET, 2),
        Err(AppError::InvalidToken)
    ));
    assert_eq!(store.rows[0].score, 1);
}

#[test]
fn profile_of_missing_account() {
    let store = AccountStore::new();
    let token = leaderboard_auth::token::encode_claims("gone".to_string(), "g@example.com".to_string(), 100, 0, SECRET);
    assert!(matches!(me(&store, Some(&token), SECRET, 1), Err(AppError::InvalidCredentials)));
    assert!(matches!(me(&store, None, SECRET, 1), Err(AppError::Unauthenticated)));
}

#[test]
fn leaderboard_order_and_limit() {
    let mut rows = Vec::new();
    for i in 0..12u64 {
        rows.push(row(&format!("u{i}"), (i * 7) % 12));
    }
    let store = store_with(rows);
    let board = list_users(&store);
    assert_eq!(board.len(), 10);
    for w in board.windows(2) {
        assert!(w[0].score >= w[1].score);
    }
    assert_eq!(board[0].score, 11);
    assert_eq!(board[9].score, 2);
    assert!(list_users(&AccountStore::new()).is_empty());
}

#[test]
fn leaderboard_ties_keep_store_order() {
    let store = store_with(vec![row("x", 5), row("y", 7), row("z", 5)]);
    let board = list_users(&store);
    let names: Vec<&str> = board.iter().map(|e| e.username.as_str()).collect();
    assert_eq!(names, vec!["y", "x", "z"]);
}

#[test]
fn outcome_of_affected_rows() {
    assert_eq!(score_update_outcome(1).unwrap().message, "Score updated");
    assert!(matches!(score_update_outcome(0), Err(AppError::Rejected)));
    assert!(matches!(score_update_outcome(2), Err(AppError::Internal(_))));
}

#[test]
fn insert_failure_kinds() {
    match insert_failure(true, "dup".to_string()) {
        AppError::Conflict(d) => assert_eq!(d, "dup"),
        _ => panic!("expected a conflict"),
    }
    assert!(matches!(insert_failure(false, "down".to_string()), AppError::Internal(_)));
}

#[test]
fn error_statuses_and_messages() {
    assert_eq!(AppError::Unauthenticated.status(), 401);
    assert_eq!(AppError::InvalidToken.status(), 401);
    assert_eq!(AppError::InvalidCredentials.status(), 401);
    assert_eq!(AppError::Conflict("x".to_string()).status(), 409);
    assert_eq!(AppError::Rejected.status(), 400);
    assert_eq!(AppError::Internal("db down".to_string()).status(), 500);
    assert_eq!(AppError::Internal("db down".to_string()).public_message(), "Internal server error");
    assert_eq!(AppError::Conflict("taken".to_string()).public_message(), "taken");
    assert!(AppError::Internal(String::new()).is_internal());
    assert!(!AppError::Rejected.is_internal());
}

#[test]
fn password_round_trip_and_mismatch() {
    let h = hash_password("pw123").unwrap();
    assert_ne!(h, "pw123");
    assert!(h.starts_with("$argon2"));
    assert_eq!(verify_password("pw123", &h).unwrap(), true);
    assert_eq!(verify_password("pw124", &h).unwrap(), false);
}

#[test]
fn password_salts_differ() {
    let a = hash_password("same").unwrap();
    let b = hash_password("same").unwrap();
    assert_ne!(a, b);
    assert!(verify_password("same", &a).unwrap());
    assert!(verify_password("same", &b).unwrap());
}

#[test]
fn malformed_record_is_internal() {
    assert!(matches!(verify_password("pw", "not a phc string"), Err(AppError::Internal(_))));
}

#[test]
fn calendar_text() {
    assert_eq!(format_time(0).unwrap(), "1970-01-01T00:00:00");
    assert_eq!(format_time(1_700_000_000).unwrap(), "2023-11-14T22:13:20");
    assert!(format_time(u64::MAX).is_none());
}

#[test]
fn credentials_decision() {
    let h = hash_password("secret").unwrap();
    assert!(check_credentials("secret", &h, false).is_ok());
    assert!(matches!(check_credentials("secret", &h, true), Err(AppError::InvalidCredentials)));
    assert!(matches!(check_credentials("nope", &h, false), Err(AppError::InvalidCredentials)));
    assert!(matches!(check_credentials("secret", "garbage", false), Err(AppError::Internal(_))));
}

#[test]
fn profile_decision() {
    let p = profile_of("dan".to_string(), "d@example.com".to_string(), 7, false, 0, 86_400).unwrap();
    assert_eq!(p.username, "dan");
    assert_eq!(p.score, 7);
    assert_eq!(p.created, "1970-01-01T00:00:00");
    assert_eq!(p.modified, "1970-01-02T00:00:00");
    assert!(matches!(profile_of("dan".to_string(), String::new(), 7, true, 0, 0), Err(AppError::InvalidCredentials)));
    assert!(matches!(profile_of("dan".to_string(), String::new(), 7, false, u64::MAX, 0), Err(AppError::Internal(_))));
}

#[test]
fn banned_account_profile_is_refused() {
    let mut store = AccountStore::new();
    let (token, _) = register(&mut store, "erin", "e@example.com", "pw", 1).unwrap();
    store.rows[0].banned = true;
    assert!(matches!(me(&store, Some(&token), SECRET, 2), Err(AppError::InvalidCredentials)));
}

#[test]
fn many_writes_end_at_highest() {
    let name = "a".to_string();
    let mut store = store_with(vec![row("a", 10)]);
    let mut accepted = Vec::new();
    for (t, v) in [12u64, 30, 15, 30, 29, 40, 5].iter().enumerate() {
        if store.cas_score(&name, *v, t as u64) == 1 {
            accepted.push(*v);
        }
        assert!(accepted.iter().all(|a| store.rows[0].score >= *a));
    }
    assert_eq!(store.rows[0].score, 40);
    assert_eq!(accepted, vec![12, 30, 30, 40]);
}
