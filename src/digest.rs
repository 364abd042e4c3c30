//! SHA-256 digests and HMAC-SHA-256 message authentication codes.
use sha2::Digest;
use vstd::prelude::*;

verus! {

/// What SHA-256 yields on the given bytes.
pub uninterp spec fn sha256_of(data: Seq<u8>) -> Seq<u8>;

/// Relies on `sha2::Sha256` (`new`, `update`, `finalize`): the digest of the
/// bytes, a function of them alone, and always 32 bytes long.
#[verifier::external_body]
fn sha256_digest(data: &[u8]) -> (r: Vec<u8>)
    ensures
        r@ == sha256_of(data@),
        r@.len() == 32,
{
    let mut hasher = sha2::Sha256::new();
    hasher.update(data);
    hasher.finalize().to_vec()
}

/// SHA-256 digest of `input`.
pub fn hash_string(input: &[u8]) -> (r: Vec<u8>)
    ensures
        r@ == sha256_of(input@),
        r@.len() == 32,
{
    sha256_digest(input)
}

/// The SHA-256 digest of `data` as its 32 bytes.
pub open spec fn digest32(data: Seq<u8>) -> Seq<u8> {
    let d = sha256_of(data);
    Seq::new(32, |i: int| if i < d.len() { d[i] } else { 0u8 })
}

fn digest(data: &[u8]) -> (r: Vec<u8>)
    ensures
        r@ == digest32(data@),
        r@.len() == 32,
{
    let r = sha256_digest(data);
    assert(r@ =~= digest32(data@));
    r
}

/// Block size of SHA-256 in bytes.
pub const BLOCK_LEN: usize = 64;

pub const INNER_PAD: u8 = 0x36;

pub const OUTER_PAD: u8 = 0x5c;

/// The key brought to exactly one block: hashed first when longer than a
/// block, then padded with zero bytes.
pub open spec fn key_block(key: Seq<u8>) -> Seq<u8> {
    let k = if key.len() > BLOCK_LEN { digest32(key) } else { key };
    k + Seq::new((BLOCK_LEN - k.len()) as nat, |i: int| 0u8)
}

/// Every byte of `s` xor-ed with `pad`.
pub open spec fn xor_each(s: Seq<u8>, pad: u8) -> Seq<u8> {
    Seq::new(s.len(), |i: int| s[i] ^ pad)
}

/// HMAC-SHA-256 of `msg` under `key`.
pub open spec fn hmac_of(key: Seq<u8>, msg: Seq<u8>) -> Seq<u8> {
    let kb = key_block(key);
    digest32(xor_each(kb, OUTER_PAD) + digest32(xor_each(kb, INNER_PAD) + msg))
}

/// A fresh vector holding the bytes of `s`.
pub fn copy_bytes(s: &[u8]) -> (r: Vec<u8>)
    ensures
        r@ == s@,
{
    let mut r: Vec<u8> = Vec::new();
    let mut i: usize = 0;
    while i < s.len()
        invariant
            i <= s@.len(),
            r@ == s@.subrange(0, i as int),
        decreases s@.len() - i,
    {
        r.push(s[i]);
        i = i + 1;
        assert(r@ =~= s@.subrange(0, i as int));
    }
    assert(s@.subrange(0, s@.len() as int) =~= s@);
    r
}

fn padded_key(key: &[u8]) -> (r: Vec<u8>)
    ensures
        r@ == key_block(key@),
        r@.len() == BLOCK_LEN,
{
    let mut r: Vec<u8> = if key.len() > BLOCK_LEN {
        digest(key)
    } else {
        copy_bytes(key)
    };
    let ghost k = r@;
    while r.len() < BLOCK_LEN
        invariant
            k.len() <= r@.len() <= BLOCK_LEN,
            r@ == k + Seq::new((r@.len() - k.len()) as nat, |i: int| 0u8),
        decreases BLOCK_LEN - r@.len(),
    {
        r.push(0u8);
        assert(r@ =~= k + Seq::new((r@.len() - k.len()) as nat, |i: int| 0u8));
    }
    assert(r@ =~= key_block(key@));
    r
}

/// `prefix` xor-ed with `pad`, followed by `rest`.
fn xor_then(prefix: &Vec<u8>, pad: u8, rest: &[u8]) -> (r: Vec<u8>)
    ensures
        r@ == xor_each(prefix@, pad) + rest@,
{
    let mut r: Vec<u8> = Vec::new();
    let mut i: usize = 0;
    while i < prefix.len()
        invariant
            i <= prefix@.len(),
            r@ == xor_each(prefix@.subrange(0, i as int), pad),
        decreases prefix@.len() - i,
    {
        r.push(prefix[i] ^ pad);
        i = i + 1;
        assert(r@ =~= xor_each(prefix@.subrange(0, i as int), pad));
    }
    let mut j: usize = 0;
    while j < rest.len()
        invariant
            j <= rest@.len(),
            r@ == xor_each(prefix@, pad) + rest@.subrange(0, j as int),
        decreases rest@.len() - j,
    {
        assert(prefix@.subrange(0, prefix@.len() as int) =~= prefix@);
        r.push(rest[j]);
        j = j + 1;
        assert(r@ =~= xor_each(prefix@, pad) + rest@.subrange(0, j as int));
    }
    assert(prefix@.subrange(0, prefix@.len() as int) =~= prefix@);
    assert(rest@.subrange(0, rest@.len() as int) =~= rest@);
    r
}

/// HMAC-SHA-256 of `msg` under `key`.
pub fn hmac_sha256(key: &[u8], msg: &[u8]) -> (r: Vec<u8>)
    ensures
        r@ == hmac_of(key@, msg@),
        r@.len() == 32,
{
    let kb = padded_key(key);
    let inner_input = xor_then(&kb, INNER_PAD, msg);
    let inner = digest(inner_input.as_slice());
    let outer_input = xor_then(&kb, OUTER_PAD, inner.as_slice());
    digest(outer_input.as_slice())
}

} // verus!
