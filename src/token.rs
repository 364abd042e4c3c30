//! Session tokens: a signed, expiring claim set carried as an opaque string.
//!
//! A token is the lowercase hex text of `payload ++ tag`, where `tag` is the
//! HMAC-SHA-256 of `payload` under the process's signing secret, and
//! `payload` is `issued_at ++ expires_at ++ len(subject) ++ subject ++ email`
//! with the integers as 8 big-endian bytes and the texts as UTF-8.
use crate::digest::{copy_bytes, hmac_of, hmac_sha256};
use vstd::prelude::*;
use vstd::utf8::{decode_utf8, encode_utf8, valid_utf8};

verus! {

broadcast use vstd::utf8::group_utf8_lib;

/// Lifetime of a session token in seconds, applied at issuance.
pub const JWT_TTL: u64 = 86400;

/// Length of the signature tag in bytes.
pub const TAG_LEN: usize = 32;

/// The identity a session token asserts.
pub struct SessionClaims {
    pub sub: String,
    pub email: String,
    pub issued_at: u64,
    pub expires_at: u64,
}

/// Subject, email, issue time and expiry time.
pub type ClaimsView = (Seq<char>, Seq<char>, u64, u64);

impl View for SessionClaims {
    type V = ClaimsView;

    open spec fn view(&self) -> ClaimsView {
        (self.sub@, self.email@, self.issued_at, self.expires_at)
    }
}

/// Why a token was refused.
#[derive(Clone, Copy, Debug, PartialEq, Eq, Structural)]
pub enum TokenError {
    Malformed,
    SignatureInvalid,
    Expired,
}

pub open spec fn hex_digit(n: u8) -> u8 {
    if n < 10 { (48 + n) as u8 } else { (87 + n) as u8 }
}

pub open spec fn is_hex_digit(c: u8) -> bool {
    (48 <= c && c <= 57) || (97 <= c && c <= 102)
}

pub open spec fn digit_value(c: u8) -> u8 {
    if c <= 57 { (c - 48) as u8 } else { (c - 87) as u8 }
}

/// Lowercase hex text of `s`, two digits per byte, high nibble first.
pub open spec fn hex_of(s: Seq<u8>) -> Seq<u8> {
    Seq::new(2 * s.len(), |i: int| if i % 2 == 0 { hex_digit(s[i / 2] / 16) } else { hex_digit(s[i / 2] % 16) })
}

/// The bytes that lowercase hex text `t` spells, if it is such text.
pub open spec fn unhex(t: Seq<u8>) -> Option<Seq<u8>> {
    if t.len() % 2 == 0 && forall|i: int| 0 <= i < t.len() ==> is_hex_digit(#[trigger] t[i]) {
        Some(Seq::new(t.len() / 2, |i: int| (digit_value(t[2 * i]) * 16 + digit_value(t[2 * i + 1])) as u8))
    } else {
        None
    }
}

/// The 8 big-endian bytes of `x`.
pub open spec fn be_bytes(x: u64) -> Seq<u8> {
    seq![(x >> 56u64) as u8, (x >> 48u64) as u8, (x >> 40u64) as u8, (x >> 32u64) as u8,
         (x >> 24u64) as u8, (x >> 16u64) as u8, (x >> 8u64) as u8, x as u8]
}

/// The integer held big-endian in `s[at..at + 8]`.
pub open spec fn be_value(s: Seq<u8>, at: int) -> u64 {
    (s[at] as u64) << 56u64 | (s[at + 1] as u64) << 48u64 | (s[at + 2] as u64) << 40u64
        | (s[at + 3] as u64) << 32u64 | (s[at + 4] as u64) << 24u64 | (s[at + 5] as u64) << 16u64
        | (s[at + 6] as u64) << 8u64 | (s[at + 7] as u64)
}

/// The signed part of a token for subject bytes `sub` and email bytes `email`.
pub open spec fn payload_of(sub: Seq<u8>, email: Seq<u8>, issued_at: u64, expires_at: u64) -> Seq<u8> {
    be_bytes(issued_at) + be_bytes(expires_at) + be_bytes(sub.len() as u64) + sub + email
}

/// Subject bytes, email bytes, issue and expiry time read back from a payload.
pub open spec fn parse_payload(p: Seq<u8>) -> Option<(Seq<u8>, Seq<u8>, u64, u64)> {
    if p.len() < 24 {
        None
    } else {
        let n = be_value(p, 16);
        if n > p.len() - 24 {
            None
        } else {
            Some((p.subrange(24, 24 + n), p.subrange(24 + n, p.len() as int), be_value(p, 0), be_value(p, 8)))
        }
    }
}

/// The payload that carries claims `c`.
pub open spec fn claims_payload(c: ClaimsView) -> Seq<u8> {
    payload_of(encode_utf8(c.0), encode_utf8(c.1), c.2, c.3)
}

/// The bytes of the token that carries claims `c`, signed with `secret`.
pub open spec fn token_bytes(c: ClaimsView, secret: Seq<u8>) -> Seq<u8> {
    hex_of(claims_payload(c) + hmac_of(secret, claims_payload(c)))
}

/// What decoding the token bytes `t` at time `now` yields: the structure is
/// checked, then the signature, then the payload layout, then the expiry.
pub open spec fn decode_result(t: Seq<u8>, secret: Seq<u8>, now: u64) -> Result<ClaimsView, TokenError> {
    match unhex(t) {
        None => Err(TokenError::Malformed),
        Some(raw) => if raw.len() < TAG_LEN {
            Err(TokenError::Malformed)
        } else {
            let p = raw.subrange(0, raw.len() - TAG_LEN);
            let tag = raw.subrange(raw.len() - TAG_LEN, raw.len() as int);
            if hmac_of(secret, p) != tag {
                Err(TokenError::SignatureInvalid)
            } else {
                match parse_payload(p) {
                    None => Err(TokenError::Malformed),
                    Some((sb, eb, iat, exp)) => if !valid_utf8(sb) || !valid_utf8(eb) {
                        Err(TokenError::Malformed)
                    } else if now > exp {
                        Err(TokenError::Expired)
                    } else {
                        Ok((decode_utf8(sb), decode_utf8(eb), iat, exp))
                    },
                }
            }
        },
    }
}

/// Relies on `String::from_utf8`: it succeeds exactly on valid UTF-8, and the
/// string then holds the characters that the bytes encode.
#[verifier::external_body]
fn utf8_text(b: Vec<u8>) -> (r: Option<String>)
    ensures
        match r {
            Some(s) => valid_utf8(b@) && s@ == decode_utf8(b@),
            None => !valid_utf8(b@),
        },
{
    String::from_utf8(b).ok()
}

fn push_be(out: &mut Vec<u8>, x: u64)
    ensures
        final(out)@ == old(out)@ + be_bytes(x),
{
    out.push((x >> 56u64) as u8);
    out.push((x >> 48u64) as u8);
    out.push((x >> 40u64) as u8);
    out.push((x >> 32u64) as u8);
    out.push((x >> 24u64) as u8);
    out.push((x >> 16u64) as u8);
    out.push((x >> 8u64) as u8);
    out.push(x as u8);
    assert(final(out)@ =~= old(out)@ + be_bytes(x));
}

fn read_be(s: &Vec<u8>, at: usize) -> (r: u64)
    requires
        at <= 16,
        at + 8 <= s@.len(),
    ensures
        r == be_value(s@, at as int),
{
    (s[at] as u64) << 56u64 | (s[at + 1] as u64) << 48u64 | (s[at + 2] as u64) << 40u64
        | (s[at + 3] as u64) << 32u64 | (s[at + 4] as u64) << 24u64 | (s[at + 5] as u64) << 16u64
        | (s[at + 6] as u64) << 8u64 | (s[at + 7] as u64)
}

proof fn lemma_be_round_trip(x: u64, s: Seq<u8>, at: int)
    requires
        0 <= at,
        at + 8 <= s.len(),
        s.subrange(at, at + 8) == be_bytes(x),
    ensures
        be_value(s, at) == x,
{
    assert(s[at] == be_bytes(x)[0] && s[at + 1] == be_bytes(x)[1] && s[at + 2] == be_bytes(x)[2]
        && s[at + 3] == be_bytes(x)[3] && s[at + 4] == be_bytes(x)[4] && s[at + 5] == be_bytes(x)[5]
        && s[at + 6] == be_bytes(x)[6] && s[at + 7] == be_bytes(x)[7]) by {
        assert(s[at] == s.subrange(at, at + 8)[0]);
        assert(s[at + 1] == s.subrange(at, at + 8)[1]);
        assert(s[at + 2] == s.subrange(at, at + 8)[2]);
        assert(s[at + 3] == s.subrange(at, at + 8)[3]);
        assert(s[at + 4] == s.subrange(at, at + 8)[4]);
        assert(s[at + 5] == s.subrange(at, at + 8)[5]);
        assert(s[at + 6] == s.subrange(at, at + 8)[6]);
        assert(s[at + 7] == s.subrange(at, at + 8)[7]);
    }
    assert(((((x >> 56u64) as u8) as u64) << 56u64 | (((x >> 48u64) as u8) as u64) << 48u64
        | (((x >> 40u64) as u8) as u64) << 40u64 | (((x >> 32u64) as u8) as u64) << 32u64
        | (((x >> 24u64) as u8) as u64) << 24u64 | (((x >> 16u64) as u8) as u64) << 16u64
        | (((x >> 8u64) as u8) as u64) << 8u64 | ((x as u8) as u64)) == x) by (bit_vector);
}


fn hex_char(n: u8) -> (r: u8)
    requires
        n < 16,
    ensures
        r == hex_digit(n),
{
    if n < 10 { 48 + n } else { 87 + n }
}

fn char_value(c: u8) -> (r: u8)
    requires
        is_hex_digit(c),
    ensures
        r == digit_value(c),
{
    if c <= 57 { c - 48 } else { c - 87 }
}

/// Lowercase hex text of `s`.
pub fn to_hex(s: &Vec<u8>) -> (r: Vec<u8>)
    requires
        2 * s@.len() <= usize::MAX,
    ensures
        r@ == hex_of(s@),
{
    let mut r: Vec<u8> = Vec::new();
    let mut i: usize = 0;
    while i < s.len()
        invariant
            i <= s@.len(),
            r@.len() == 2 * i,
            forall|k: int| 0 <= k < 2 * i ==> r@[k] == #[trigger] hex_of(s@)[k],
        decreases s@.len() - i,
    {
        let b = s[i];
        r.push(hex_char(b / 16));
        r.push(hex_char(b % 16));
        assert(hex_of(s@)[2 * i as int] == hex_digit(b / 16));
        assert(hex_of(s@)[2 * i as int + 1] == hex_digit(b % 16));
        i = i + 1;
    }
    assert(r@ =~= hex_of(s@));
    r
}

/// The bytes that lowercase hex text `t` spells, or `None` when `t` is not
/// such text.
pub fn from_hex(t: &[u8]) -> (r: Option<Vec<u8>>)
    ensures
        match r {
            Some(v) => unhex(t@) == Some(v@),
            None => unhex(t@) is None,
        },
{
    if t.len() % 2 != 0 {
        return None;
    }
    let n = t.len();
    let half = n / 2;
    let mut r: Vec<u8> = Vec::new();
    let mut i: usize = 0;
    while i < half
        invariant
            n == t@.len(),
            half == t@.len() / 2,
            t@.len() % 2 == 0,
            i <= half,
            r@.len() == i,
            forall|j: int| 0 <= j < 2 * i ==> is_hex_digit(#[trigger] t@[j]),
            forall|k: int| 0 <= k < i ==> #[trigger] r@[k] == (digit_value(t@[2 * k]) * 16 + digit_value(t@[2 * k + 1])) as u8,
        decreases half - i,
    {
        let hi = t[2 * i];
        let lo = t[2 * i + 1];
        if !((48 <= hi && hi <= 57) || (97 <= hi && hi <= 102)) || !((48 <= lo && lo <= 57) || (97 <= lo && lo <= 102)) {
            assert(!is_hex_digit(t@[2 * i as int]) || !is_hex_digit(t@[2 * i as int + 1]));
            return None;
        }
        let v = char_value(hi) * 16 + char_value(lo);
        r.push(v);
        assert forall|j: int| 0 <= j < 2 * (i + 1) implies is_hex_digit(#[trigger] t@[j]) by {
            if j >= 2 * i {
                assert(j == 2 * i || j == 2 * i + 1);
            }
        }
        i = i + 1;
    }
    assert(r@ =~= unhex(t@)->0);
    Some(r)
}

/// A fresh vector holding `v[lo..hi]`.
fn slice_of(v: &Vec<u8>, lo: usize, hi: usize) -> (r: Vec<u8>)
    requires
        lo <= hi <= v@.len(),
    ensures
        r@ == v@.subrange(lo as int, hi as int),
{
    let mut r: Vec<u8> = Vec::new();
    let mut i: usize = lo;
    while i < hi
        invariant
            lo <= i <= hi <= v@.len(),
            r@ == v@.subrange(lo as int, i as int),
        decreases hi - i,
    {
        r.push(v[i]);
        i = i + 1;
        assert(r@ =~= v@.subrange(lo as int, i as int));
    }
    r
}

/// Compares two byte strings without stopping at the first difference.
fn same_bytes(a: &Vec<u8>, b: &Vec<u8>) -> (r: bool)
    ensures
        r == (a@ == b@),
{
    if a.len() != b.len() {
        return false;
    }
    let mut same = true;
    let mut i: usize = 0;
    assert(a@.subrange(0, 0) =~= b@.subrange(0, 0));
    while i < a.len()
        invariant
            a@.len() == b@.len(),
            i <= a@.len(),
            same == (a@.subrange(0, i as int) == b@.subrange(0, i as int)),
        decreases a@.len() - i,
    {
        let eq = a[i] == b[i];
        proof {
            if same && eq {
                assert(a@.subrange(0, i + 1) =~= a@.subrange(0, i as int).push(a@[i as int]));
                assert(b@.subrange(0, i + 1) =~= b@.subrange(0, i as int).push(b@[i as int]));
            }
            if !eq {
                assert(a@.subrange(0, i + 1)[i as int] != b@.subrange(0, i + 1)[i as int]);
            }
            if !same {
                assert forall|k: int| 0 <= k < i implies a@.subrange(0, i + 1)[k] == a@.subrange(0, i as int)[k] && b@.subrange(0, i + 1)[k] == b@.subrange(0, i as int)[k] by {}
                if a@.subrange(0, i + 1) == b@.subrange(0, i + 1) {
                    assert(a@.subrange(0, i as int) =~= b@.subrange(0, i as int));
                }
            }
        }
        same = same && eq;
        i = i + 1;
    }
    assert(a@.subrange(0, a@.len() as int) =~= a@);
    assert(b@.subrange(0, b@.len() as int) =~= b@);
    same
}


/// Appends the bytes of `s` to `out`.
fn append_bytes(out: &mut Vec<u8>, s: &[u8])
    ensures
        final(out)@ == old(out)@ + s@,
{
    let ghost start = out@;
    let mut i: usize = 0;
    while i < s.len()
        invariant
            i <= s@.len(),
            out@ == start + s@.subrange(0, i as int),
        decreases s@.len() - i,
    {
        out.push(s[i]);
        i = i + 1;
        assert(out@ =~= start + s@.subrange(0, i as int));
    }
    assert(s@.subrange(0, s@.len() as int) =~= s@);
}

/// Hex text is ASCII, hence valid UTF-8 that decodes to one char per byte.
proof fn lemma_hex_is_utf8(s: Seq<u8>)
    ensures
        valid_utf8(hex_of(s)),
{
    let h = hex_of(s);
    let c = Seq::new(h.len(), |i: int| h[i] as char);
    assert forall|i: int| 0 <= i < c.len() implies '\0' <= #[trigger] c[i] <= '\u{7f}' by {
        assert(h[i] < 128);
    }
    assert(vstd::utf8::is_ascii_chars(c));
    assert forall|i: int| 0 <= i < c.len() implies encode_utf8(c)[i] == h[i] by {
        assert(c[i] as u8 == encode_utf8(c)[i]);
    }
    assert(encode_utf8(c) =~= h);
}

/// The payload bytes that carry `claims`.
fn payload_bytes(claims: &SessionClaims) -> (r: Vec<u8>)
    ensures
        r@ == claims_payload(claims@),
{
    let sub = claims.sub.as_str().as_bytes();
    let email = claims.email.as_str().as_bytes();
    let mut r: Vec<u8> = Vec::new();
    push_be(&mut r, claims.issued_at);
    push_be(&mut r, claims.expires_at);
    push_be(&mut r, sub.len() as u64);
    append_bytes(&mut r, sub);
    append_bytes(&mut r, email);
    assert(r@ =~= claims_payload(claims@));
    r
}

/// The token that carries `claims`, signed with `secret`.
pub fn encode_token(claims: &SessionClaims, secret: &[u8]) -> (r: String)
    requires
        encode_utf8(claims.sub@).len() + encode_utf8(claims.email@).len() <= usize::MAX / 4,
    ensures
        encode_utf8(r@) == token_bytes(claims@, secret@),
{
    let payload = payload_bytes(claims);
    let tag = hmac_sha256(secret, payload.as_slice());
    let mut raw = copy_bytes(payload.as_slice());
    append_bytes(&mut raw, tag.as_slice());
    let hex = to_hex(&raw);
    proof {
        lemma_hex_is_utf8(raw@);
    }
    match utf8_text(hex) {
        Some(text) => text,
        None => String::new(),
    }
}

/// Claims for `username` with `email`, issued at `now` and valid for `ttl`
/// seconds, encoded as a token signed with `secret`.
pub fn encode_claims(username: String, email: String, ttl: u64, now: u64, secret: &[u8]) -> (r: String)
    requires
        now + ttl <= u64::MAX,
        encode_utf8(username@).len() + encode_utf8(email@).len() <= usize::MAX / 4,
    ensures
        encode_utf8(r@) == token_bytes((username@, email@, now, (now + ttl) as u64), secret@),
{
    let claims = SessionClaims { sub: username, email, issued_at: now, expires_at: now + ttl };
    encode_token(&claims, secret)
}

/// Checks the token `token` against `secret` at time `now` and returns the
/// claims it carries.
pub fn decode_token(token: &str, secret: &[u8], now: u64) -> (r: Result<SessionClaims, TokenError>)
    ensures
        match decode_result(encode_utf8(token@), secret@, now) {
            Ok(v) => r is Ok && r->Ok_0@ == v,
            Err(e) => r is Err && r->Err_0 == e,
        },
{
    let t = token.as_bytes();
    let raw = match from_hex(t) {
        None => return Err(TokenError::Malformed),
        Some(v) => v,
    };
    if raw.len() < TAG_LEN {
        return Err(TokenError::Malformed);
    }
    let cut = raw.len() - TAG_LEN;
    let p = slice_of(&raw, 0, cut);
    let tag = slice_of(&raw, cut, raw.len());
    let expect = hmac_sha256(secret, p.as_slice());
    if !same_bytes(&expect, &tag) {
        return Err(TokenError::SignatureInvalid);
    }
    if p.len() < 24 {
        return Err(TokenError::Malformed);
    }
    let n = read_be(&p, 16);
    if (n as u128) > ((p.len() - 24) as u128) {
        return Err(TokenError::Malformed);
    }
    let mid = 24 + n as usize;
    let sb = slice_of(&p, 24, mid);
    let eb = slice_of(&p, mid, p.len());
    let issued_at = read_be(&p, 0);
    let expires_at = read_be(&p, 8);
    let sub = match utf8_text(sb) {
        None => return Err(TokenError::Malformed),
        Some(x) => x,
    };
    let email = match utf8_text(eb) {
        None => return Err(TokenError::Malformed),
        Some(x) => x,
    };
    if now > expires_at {
        return Err(TokenError::Expired);
    }
    Ok(SessionClaims { sub, email, issued_at, expires_at })
}


proof fn lemma_unhex_hex(s: Seq<u8>)
    ensures
        unhex(hex_of(s)) == Some(s),
{
    let h = hex_of(s);
    assert forall|i: int| 0 <= i < h.len() implies is_hex_digit(#[trigger] h[i]) by {}
    let v = unhex(h)->0;
    assert forall|i: int| 0 <= i < s.len() implies v[i] == s[i] by {
        assert(h[2 * i] == hex_digit(s[(2 * i) / 2] / 16));
        assert(h[2 * i + 1] == hex_digit(s[(2 * i + 1) / 2] % 16));
        assert((2 * i) / 2 == i && (2 * i + 1) / 2 == i);
    }
    assert(v =~= s);
}

proof fn lemma_parse_payload(sub: Seq<u8>, email: Seq<u8>, issued_at: u64, expires_at: u64)
    requires
        sub.len() <= u64::MAX,
    ensures
        parse_payload(payload_of(sub, email, issued_at, expires_at)) == Some((sub, email, issued_at, expires_at)),
{
    let p = payload_of(sub, email, issued_at, expires_at);
    assert(p.subrange(0, 8) =~= be_bytes(issued_at));
    assert(p.subrange(8, 16) =~= be_bytes(expires_at));
    assert(p.subrange(16, 24) =~= be_bytes(sub.len() as u64));
    lemma_be_round_trip(issued_at, p, 0);
    lemma_be_round_trip(expires_at, p, 8);
    lemma_be_round_trip(sub.len() as u64, p, 16);
    assert(p.subrange(24, 24 + sub.len() as int) =~= sub);
    assert(p.subrange(24 + sub.len() as int, p.len() as int) =~= email);
}

/// A token carries its claims back: decoding the token issued for `c` under
/// `secret` yields `c` while `now` is at most its expiry, and `Expired` after.
pub proof fn lemma_token_round_trip(c: ClaimsView, secret: Seq<u8>, now: u64)
    requires
        encode_utf8(c.0).len() <= u64::MAX,
    ensures
        decode_result(token_bytes(c, secret), secret, now) == (if now > c.3 {
            Err::<ClaimsView, TokenError>(TokenError::Expired)
        } else {
            Ok::<ClaimsView, TokenError>(c)
        }),
{
    let p = claims_payload(c);
    let raw = p + hmac_of(secret, p);
    lemma_unhex_hex(raw);
    assert(raw.subrange(0, raw.len() - TAG_LEN) =~= p);
    assert(raw.subrange(raw.len() - TAG_LEN, raw.len() as int) =~= hmac_of(secret, p));
    lemma_parse_payload(encode_utf8(c.0), encode_utf8(c.1), c.2, c.3);
}

/// Expiry is exclusive of the instant after it: a token is accepted up to and
/// including its `expires_at` second and refused as `Expired` one second later.
pub proof fn lemma_token_expiry(c: ClaimsView, secret: Seq<u8>)
    requires
        encode_utf8(c.0).len() <= u64::MAX,
        0 < c.3 < u64::MAX,
    ensures
        decode_result(token_bytes(c, secret), secret, (c.3 + 1) as u64) == Err::<ClaimsView, TokenError>(TokenError::Expired),
        decode_result(token_bytes(c, secret), secret, c.3) == Ok::<ClaimsView, TokenError>(c),
        decode_result(token_bytes(c, secret), secret, (c.3 - 1) as u64) == Ok::<ClaimsView, TokenError>(c),
{
    lemma_token_round_trip(c, secret, (c.3 + 1) as u64);
    lemma_token_round_trip(c, secret, c.3);
    lemma_token_round_trip(c, secret, (c.3 - 1) as u64);
}

/// `s` with bit `b` of byte `j` flipped.
pub open spec fn flip_bit(s: Seq<u8>, j: int, b: u8) -> Seq<u8> {
    s.update(j, s[j] ^ (1u8 << b))
}

/// The signature is checked before anything else that the payload says: a
/// token whose tag is not the MAC of its payload is refused as
/// `SignatureInvalid`, whatever its claimed expiry.
pub proof fn lemma_integrity_first(t: Seq<u8>, secret: Seq<u8>, now: u64)
    requires
        unhex(t) is Some,
        unhex(t)->0.len() >= TAG_LEN,
        hmac_of(secret, unhex(t)->0.subrange(0, unhex(t)->0.len() - TAG_LEN))
            != unhex(t)->0.subrange(unhex(t)->0.len() - TAG_LEN, unhex(t)->0.len() as int),
    ensures
        decode_result(t, secret, now) == Err::<ClaimsView, TokenError>(TokenError::SignatureInvalid),
{
}

/// Flipping any single bit of an issued token's signature tag makes it
/// `SignatureInvalid`; flipping one of its payload does too, unless the MAC of
/// the altered payload equals the issued tag (a forgery of HMAC-SHA-256).
pub proof fn lemma_token_tamper(c: ClaimsView, secret: Seq<u8>, now: u64, j: int, b: u8)
    requires
        b < 8,
        0 <= j < claims_payload(c).len() + TAG_LEN,
        j < claims_payload(c).len() ==> hmac_of(secret, flip_bit(claims_payload(c), j, b))
            != hmac_of(secret, claims_payload(c)),
    ensures
        decode_result(hex_of(flip_bit(claims_payload(c) + hmac_of(secret, claims_payload(c)), j, b)), secret, now)
            == Err::<ClaimsView, TokenError>(TokenError::SignatureInvalid),
{
    let p = claims_payload(c);
    let tag = hmac_of(secret, p);
    let raw = p + tag;
    let x = raw[j];
    let flipped = flip_bit(raw, j, b);
    assert(x ^ (1u8 << b) != x) by (bit_vector)
        requires
            b < 8,
    ;
    lemma_unhex_hex(flipped);
    let fp = flipped.subrange(0, flipped.len() - TAG_LEN);
    let ft = flipped.subrange(flipped.len() - TAG_LEN, flipped.len() as int);
    if j < p.len() {
        assert(fp =~= flip_bit(p, j, b));
        assert(ft =~= tag);
    } else {
        assert(fp =~= p);
        assert(ft[j - p.len()] != tag[j - p.len()]);
    }
}

} // verus!
