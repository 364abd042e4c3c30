use leaderboard_auth::digest::{hash_string, hmac_sha256};
use leaderboard_auth::session::claims_from_cookie;
use leaderboard_auth::token::{decode_token, encode_claims, encode_token, from_hex, to_hex, SessionClaims, TokenError, JWT_TTL};
use leaderboard_auth::error::AppError;

const SECRET: &[u8] = b"test-signing-secret";

fn hex(bytes: &[u8]) -> String {
    String::from_utf8(to_hex(&bytes.to_vec())).unwrap()
}

fn claims(sub: &str, email: &str, iat: u64, exp: u64) -> SessionClaims {
    SessionClaims { sub: sub.to_string(), email: email.to_string(), issued_at: iat, expires_at: exp }
}

#[test]
fn sha256_known_value() {
    assert_eq!(hex(&hash_string(b"abc")), "ba7816bf8f01cfea414140de5dae2223b00361a396177a9cb410ff61f20015ad");
    assert_eq!(hex(&hash_string(b"")), "e3b0c44298fc1c149afbf4c8996fb92427ae41e4649b934ca495991b7852b855");
}

#[test]
fn hmac_sha256_known_values() {
    assert_eq!(
        hex(&hmac_sha256(b"Jefe", b"what do ya want for nothing?")),
        "5bdcc146bf60754e6a042426089575c75a003f089d2739839dec58b964ec3843"
    );
    // A key longer than one block is hashed first.
    let key = vec![0xaau8; 131];
    assert_eq!(
        hex(&hmac_sha256(&key, b"Test Using Larger Than Block-Size Key - Hash Key First")),
        "60e431591ee0b67f0d8a26aacbf5b77f8e0bc6213728c5140546040f0ee37f54"
    );
}

#[test]
fn hex_round_trip_and_rejects() {
    assert_eq!(to_hex(&vec![0x00, 0xff, 0x1a]), b"00ff1a".to_vec());
    assert_eq!(from_hex(b"00ff1a"), Some(vec![0x00, 0xff, 0x1a]));
    assert_eq!(from_hex(b""), Some(vec![]));
    assert_eq!(from_hex(b"abc"), None);
    assert_eq!(from_hex(b"0g"), None);
    assert_eq!(from_hex(b"AB"), None);
}

#[test]
fn token_round_trip() {
    let c = claims("alice", "a@example.com", 1000, 2000);
    let t = encode_token(&c, SECRET);
    assert!(t.bytes().all(|b| b.is_ascii_hexdigit()));
    let d = decode_token(&t, SECRET, 1500).unwrap();
    assert_eq!(d.sub, "alice");
    assert_eq!(d.email, "a@example.com");
    assert_eq!(d.issued_at, 1000);
    assert_eq!(d.expires_at, 2000);
}

#[test]
fn token_round_trip_non_ascii_and_empty() {
    let c = claims("ünïcødé", "", 0, 5);
    let d = decode_token(&encode_token(&c, SECRET), SECRET, 5).unwrap();
    assert_eq!(d.sub, "ünïcødé");
    assert_eq!(d.email, "");
}

#[test]
fn encode_claims_applies_ttl() {
    let t = encode_claims("bob".to_string(), "b@example.com".to_string(), JWT_TTL, 100, SECRET);
    let d = decode_token(&t, SECRET, 100).unwrap();
    assert_eq!(d.issued_at, 100);
    assert_eq!(d.expires_at, 100 + JWT_TTL);
}

#[test]
fn token_expiry_boundaries() {
    let c = claims("alice", "a@example.com", 1000, 2000);
    let t = encode_token(&c, SECRET);
    assert!(decode_token(&t, SECRET, 1999).is_ok());
    assert!(decode_token(&t, SECRET, 2000).is_ok());
    assert_eq!(decode_token(&t, SECRET, 2001).err(), Some(TokenError::Expired));
}

#[test]
fn token_wrong_secret_is_signature_invalid() {
    let t = encode_token(&claims("alice", "a@example.com", 0, 10), SECRET);
    assert_eq!(decode_token(&t, b"other-secret", 5).err(), Some(TokenError::SignatureInvalid));
}

#[test]
fn token_bit_flips_are_signature_invalid() {
    let t = encode_token(&claims("alice", "a@example.com", 0, 10), SECRET);
    let raw = from_hex(t.as_bytes()).unwrap();
    for j in 0..raw.len() {
        for b in 0..8 {
            let mut r = raw.clone();
            r[j] ^= 1 << b;
            let tampered = String::from_utf8(to_hex(&r)).unwrap();
            assert_eq!(decode_token(&tampered, SECRET, 5).err(), Some(TokenError::SignatureInvalid));
        }
    }
}

#[test]
fn tampered_expired_token_is_signature_invalid_first() {
    let t = encode_token(&claims("alice", "a@example.com", 0, 10), SECRET);
    let mut raw = from_hex(t.as_bytes()).unwrap();
    let last = raw.len() - 1;
    raw[last] ^= 1;
    let tampered = String::from_utf8(to_hex(&raw)).unwrap();
    assert_eq!(decode_token(&tampered, SECRET, 1000).err(), Some(TokenError::SignatureInvalid));
}

#[test]
fn malformed_tokens() {
    assert_eq!(decode_token("", SECRET, 0).err(), Some(TokenError::Malformed));
    assert_eq!(decode_token("xyz", SECRET, 0).err(), Some(TokenError::Malformed));
    assert_eq!(decode_token("abcd", SECRET, 0).err(), Some(TokenError::Malformed));
    // A correctly signed payload that is too short to hold the claims.
    let p = vec![1u8, 2, 3];
    let mut raw = p.clone();
    raw.extend(hmac_sha256(SECRET, &p));
    let t = String::from_utf8(to_hex(&raw)).unwrap();
    assert_eq!(decode_token(&t, SECRET, 0).err(), Some(TokenError::Malformed));
}

#[test]
fn extractor_kinds() {
    let t = encode_token(&claims("alice", "a@example.com", 0, 10), SECRET);
    assert!(matches!(claims_from_cookie(None, SECRET, 5), Err(AppError::Unauthenticated)));
    assert!(matches!(claims_from_cookie(Some("zz"), SECRET, 5), Err(AppError::InvalidToken)));
    assert!(matches!(claims_from_cookie(Some(&t), SECRET, 11), Err(AppError::InvalidToken)));
    assert_eq!(claims_from_cookie(Some(&t), SECRET, 5).unwrap().sub, "alice");
}
