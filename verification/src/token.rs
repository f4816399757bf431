//! The token service: issues and verifies signed, time-bound session
//! credentials identifying a user id. A token is twelve claim bytes — the
//! user id and the expiry second, both big-endian — followed by an
//! HMAC-SHA-256 tag over those bytes under a server-held secret. The service
//! is stateless: there is no revocation list, so a stolen, unexpired token
//! stays valid until its expiry.

use hmac::{KeyInit, Mac};
use vstd::prelude::*;
use vstd::slice::slice_subrange;

use crate::errors::AppError;

verus! {

/// How long an issued token stays valid, in seconds: seven days.
pub const TOKEN_VALIDITY_SECS: u64 = 604800;

/// The HMAC-SHA-256 tag of `msg` under `key`: a function of the two
/// arguments alone.
pub uninterp spec fn hmac_sha256_of(key: Seq<u8>, msg: Seq<u8>) -> Seq<u8>;

/// Relies on the `hmac` crate's `Hmac<Sha256>` (`new_from_slice`, `update`,
/// `finalize`): computes the HMAC-SHA-256 tag of `msg` under `key`, a pure
/// function of the two arguments; SHA-256 tags are 32 bytes. `Hmac` accepts
/// keys of any length.
#[verifier::external_body]
fn hmac_sha256(key: &[u8], msg: &[u8]) -> (r: Vec<u8>)
    ensures
        r@ == hmac_sha256_of(key@, msg@),
        r@.len() == 32,
{
    let mut mac = <hmac::Hmac<sha2::Sha256> as KeyInit>::new_from_slice(key).expect(
        "HMAC accepts keys of any length",
    );
    mac.update(msg);
    mac.finalize().into_bytes().to_vec()
}

/// The four bytes of `n`, big-endian.
pub open spec fn be32(n: u32) -> Seq<u8> {
    seq![(n >> 24) as u8, ((n >> 16) & 0xff) as u8, ((n >> 8) & 0xff) as u8, (n & 0xff) as u8]
}

/// The eight bytes of `n`, big-endian.
pub open spec fn be64(n: u64) -> Seq<u8> {
    seq![
        (n >> 56) as u8,
        ((n >> 48) & 0xff) as u8,
        ((n >> 40) & 0xff) as u8,
        ((n >> 32) & 0xff) as u8,
        ((n >> 24) & 0xff) as u8,
        ((n >> 16) & 0xff) as u8,
        ((n >> 8) & 0xff) as u8,
        (n & 0xff) as u8,
    ]
}

/// The value of four big-endian bytes.
pub open spec fn be32_val(s: Seq<u8>) -> u32
    recommends
        s.len() == 4,
{
    ((s[0] as u32) << 24) | ((s[1] as u32) << 16) | ((s[2] as u32) << 8) | (s[3] as u32)
}

/// The value of eight big-endian bytes.
pub open spec fn be64_val(s: Seq<u8>) -> u64
    recommends
        s.len() == 8,
{
    ((s[0] as u64) << 56) | ((s[1] as u64) << 48) | ((s[2] as u64) << 40) | ((s[3] as u64) << 32)
        | ((s[4] as u64) << 24) | ((s[5] as u64) << 16) | ((s[6] as u64) << 8) | (s[7] as u64)
}

/// Reading back the four big-endian bytes of `n` yields `n`.
pub proof fn lemma_be32_roundtrip(n: u32)
    ensures
        be32_val(be32(n)) == n,
{
    let b0 = (n >> 24) as u8;
    let b1 = ((n >> 16) & 0xff) as u8;
    let b2 = ((n >> 8) & 0xff) as u8;
    let b3 = (n & 0xff) as u8;
    assert(((b0 as u32) << 24) | ((b1 as u32) << 16) | ((b2 as u32) << 8) | (b3 as u32) == n)
        by (bit_vector)
        requires
            b0 == (n >> 24) as u8,
            b1 == ((n >> 16) & 0xff) as u8,
            b2 == ((n >> 8) & 0xff) as u8,
            b3 == (n & 0xff) as u8,
    ;
}

/// Reading back the eight big-endian bytes of `n` yields `n`.
pub proof fn lemma_be64_roundtrip(n: u64)
    ensures
        be64_val(be64(n)) == n,
{
    let b0 = (n >> 56) as u8;
    let b1 = ((n >> 48) & 0xff) as u8;
    let b2 = ((n >> 40) & 0xff) as u8;
    let b3 = ((n >> 32) & 0xff) as u8;
    let b4 = ((n >> 24) & 0xff) as u8;
    let b5 = ((n >> 16) & 0xff) as u8;
    let b6 = ((n >> 8) & 0xff) as u8;
    let b7 = (n & 0xff) as u8;
    assert(((b0 as u64) << 56) | ((b1 as u64) << 48) | ((b2 as u64) << 40) | ((b3 as u64) << 32) | (
    (b4 as u64) << 24) | ((b5 as u64) << 16) | ((b6 as u64) << 8) | (b7 as u64) == n)
        by (bit_vector)
        requires
            b0 == (n >> 56) as u8,
            b1 == ((n >> 48) & 0xff) as u8,
            b2 == ((n >> 40) & 0xff) as u8,
            b3 == ((n >> 32) & 0xff) as u8,
            b4 == ((n >> 24) & 0xff) as u8,
            b5 == ((n >> 16) & 0xff) as u8,
            b6 == ((n >> 8) & 0xff) as u8,
            b7 == (n & 0xff) as u8,
    ;
}

/// The claim bytes of a token: the user id and the expiry second,
/// big-endian.
pub open spec fn claim_bytes(user_id: u32, exp: u64) -> Seq<u8> {
    be32(user_id) + be64(exp)
}

/// A whole token: the claim bytes followed by their HMAC-SHA-256 tag under
/// the secret.
pub open spec fn token_bytes(secret: Seq<u8>, user_id: u32, exp: u64) -> Seq<u8> {
    claim_bytes(user_id, exp) + hmac_sha256_of(secret, claim_bytes(user_id, exp))
}

/// The user id a token claims.
pub open spec fn sub_of(t: Seq<u8>) -> u32 {
    be32_val(t.subrange(0, 4))
}

/// The expiry second a token claims.
pub open spec fn exp_of(t: Seq<u8>) -> u64 {
    be64_val(t.subrange(4, 12))
}

/// Whether the token's tag is the HMAC-SHA-256 tag of its claim bytes under
/// the secret: what distinguishes a token this server signed from a
/// malformed or tampered one.
pub open spec fn token_authentic(secret: Seq<u8>, t: Seq<u8>) -> bool {
    t.len() >= 12 && t.subrange(12, t.len() as int) == hmac_sha256_of(
        secret,
        t.subrange(0, 12),
    )
}

/// Why a token is refused: not signed by this server's secret, or signed
/// but past its expiry. The two are distinct, though both deny access.
#[derive(Clone, Copy, PartialEq, Eq, Debug)]
pub enum TokenError {
    Malformed,
    Expired,
}

/// Appends the four big-endian bytes of `n`.
fn push_be32(v: &mut Vec<u8>, n: u32)
    ensures
        final(v)@ == old(v)@ + be32(n),
{
    v.push((n >> 24) as u8);
    v.push(((n >> 16) & 0xff) as u8);
    v.push(((n >> 8) & 0xff) as u8);
    v.push((n & 0xff) as u8);
    proof {
        assert(final(v)@ =~= old(v)@ + be32(n));
    }
}

/// Appends the eight big-endian bytes of `n`.
fn push_be64(v: &mut Vec<u8>, n: u64)
    ensures
        final(v)@ == old(v)@ + be64(n),
{
    v.push((n >> 56) as u8);
    v.push(((n >> 48) & 0xff) as u8);
    v.push(((n >> 40) & 0xff) as u8);
    v.push(((n >> 32) & 0xff) as u8);
    v.push(((n >> 24) & 0xff) as u8);
    v.push(((n >> 16) & 0xff) as u8);
    v.push(((n >> 8) & 0xff) as u8);
    v.push((n & 0xff) as u8);
    proof {
        assert(final(v)@ =~= old(v)@ + be64(n));
    }
}

/// Reads four big-endian bytes at `off`.
fn read_be32(t: &[u8], off: usize) -> (r: u32)
    requires
        off + 4 <= t@.len(),
    ensures
        r == be32_val(t@.subrange(off as int, off as int + 4)),
{
    let r = ((t[off] as u32) << 24) | ((t[off + 1] as u32) << 16) | ((t[off + 2] as u32) << 8) | (
    t[off + 3] as u32);
    proof {
        let s = t@.subrange(off as int, off as int + 4);
        assert(s[0] == t@[off as int] && s[1] == t@[off as int + 1] && s[2] == t@[off as int + 2]
            && s[3] == t@[off as int + 3]);
    }
    r
}

/// Reads eight big-endian bytes at `off`.
fn read_be64(t: &[u8], off: usize) -> (r: u64)
    requires
        off + 8 <= t@.len(),
    ensures
        r == be64_val(t@.subrange(off as int, off as int + 8)),
{
    let r = ((t[off] as u64) << 56) | ((t[off + 1] as u64) << 48) | ((t[off + 2] as u64) << 40) | (
    (t[off + 3] as u64) << 32) | ((t[off + 4] as u64) << 24) | ((t[off + 5] as u64) << 16) | ((t[off
        + 6] as u64) << 8) | (t[off + 7] as u64);
    proof {
        let s = t@.subrange(off as int, off as int + 8);
        assert(s[0] == t@[off as int] && s[1] == t@[off as int + 1] && s[2] == t@[off as int + 2]
            && s[3] == t@[off as int + 3] && s[4] == t@[off as int + 4] && s[5] == t@[off as int
            + 5] && s[6] == t@[off as int + 6] && s[7] == t@[off as int + 7]);
    }
    r
}

/// Whether two byte strings are equal.
fn bytes_eq(a: &[u8], b: &[u8]) -> (r: bool)
    ensures
        r == (a@ =~= b@),
{
    if a.len() != b.len() {
        return false;
    }
    let n = a.len();
    for i in 0..n
        invariant
            n == a@.len(),
            n == b@.len(),
            forall|k: int| 0 <= k < i ==> a@[k] == b@[k],
    {
        if a[i] != b[i] {
            return false;
        }
    }
    true
}

/// Issues a credential for the user: the claim bytes — user id and expiry
/// set to now plus the validity window — signed with the server-held secret.
pub fn issue(secret: &[u8], user_id: u32, now: u64) -> (r: Vec<u8>)
    requires
        now + TOKEN_VALIDITY_SECS <= u64::MAX,
    ensures
        r@ == token_bytes(secret@, user_id, (now + TOKEN_VALIDITY_SECS) as u64),
        token_authentic(secret@, r@),
        sub_of(r@) == user_id,
        exp_of(r@) == now + TOKEN_VALIDITY_SECS,
{
    let exp = now + TOKEN_VALIDITY_SECS;
    let mut out: Vec<u8> = Vec::new();
    push_be32(&mut out, user_id);
    push_be64(&mut out, exp);
    proof {
        assert(out@ =~= claim_bytes(user_id, exp));
    }
    let mut tag = hmac_sha256(secret, out.as_slice());
    out.append(&mut tag);
    proof {
        assert(out@ =~= token_bytes(secret@, user_id, exp));
        assert(out@.subrange(0, 12) =~= claim_bytes(user_id, exp));
        assert(out@.subrange(12, out@.len() as int) =~= hmac_sha256_of(
            secret@,
            claim_bytes(user_id, exp),
        ));
        assert(out@.subrange(0, 4) =~= be32(user_id));
        assert(out@.subrange(4, 12) =~= be64(exp));
        lemma_be32_roundtrip(user_id);
        lemma_be64_roundtrip(exp);
    }
    out
}

/// Verifies a credential: recomputes the tag of the claim bytes under the
/// secret and rejects a token that was not signed with it (`Malformed`), or
/// whose expiry is not after `now` (`Expired`) even though the signature
/// holds. Returns the user id the token was issued for.
pub fn verify(secret: &[u8], token: &[u8], now: u64) -> (r: Result<u32, TokenError>)
    ensures
        r == Ok::<u32, TokenError>(sub_of(token@)) <==> token_authentic(secret@, token@) && now
            < exp_of(token@),
        r == Err::<u32, TokenError>(TokenError::Expired) <==> token_authentic(secret@, token@)
            && now >= exp_of(token@),
        r == Err::<u32, TokenError>(TokenError::Malformed) <==> !token_authentic(secret@, token@),
{
    if token.len() < 12 {
        return Err(TokenError::Malformed);
    }
    let claims = slice_subrange(token, 0, 12);
    let tag = slice_subrange(token, 12, token.len());
    let mac = hmac_sha256(secret, claims);
    if !bytes_eq(tag, mac.as_slice()) {
        return Err(TokenError::Malformed);
    }
    let exp = read_be64(token, 4);
    if now < exp {
        Ok(read_be32(token, 0))
    } else {
        Err(TokenError::Expired)
    }
}

/// Resolves the caller's identity from an optional session credential, as a
/// request boundary does: no token, a token not signed with the secret, and
/// a token past its expiry are all `Unauthorized`.
pub fn authenticate(secret: &[u8], token: Option<&Vec<u8>>, now: u64) -> (r: Result<u32, AppError>)
    ensures
        match token {
            Some(t) => {
                &&& r == Ok::<u32, AppError>(sub_of(t@)) <==> token_authentic(secret@, t@) && now
                    < exp_of(t@)
                &&& r is Err ==> r == Err::<u32, AppError>(AppError::Unauthorized)
            },
            None => r == Err::<u32, AppError>(AppError::Unauthorized),
        },
{
    match token {
        Some(t) => match verify(secret, t.as_slice(), now) {
            Ok(uid) => Ok(uid),
            Err(_) => Err(AppError::Unauthorized),
        },
        None => Err(AppError::Unauthorized),
    }
}

/// A token issued for a user resolves to that user when verified before its
/// expiry, and is refused as `Expired` after it: under `verify`'s contract,
/// `token_bytes(secret, user_id, exp)` is authentic for `secret` and claims
/// exactly `user_id` and `exp`.
pub proof fn lemma_token_round_trip(secret: Seq<u8>, user_id: u32, exp: u64)
    ensures
        token_authentic(secret, token_bytes(secret, user_id, exp)),
        sub_of(token_bytes(secret, user_id, exp)) == user_id,
        exp_of(token_bytes(secret, user_id, exp)) == exp,
{
    let t = token_bytes(secret, user_id, exp);
    assert(t.subrange(0, 12) =~= claim_bytes(user_id, exp));
    assert(t.subrange(12, t.len() as int) =~= hmac_sha256_of(secret, claim_bytes(user_id, exp)));
    assert(t.subrange(0, 4) =~= be32(user_id));
    assert(t.subrange(4, 12) =~= be64(exp));
    lemma_be32_roundtrip(user_id);
    lemma_be64_roundtrip(exp);
}

/// A token signed with one secret is not authentic for another secret,
/// regardless of expiry, whenever the two secrets tag its claim bytes
/// differently — so `verify` under the other secret refuses it as
/// `Malformed`.
pub proof fn lemma_token_wrong_secret(secret: Seq<u8>, other: Seq<u8>, user_id: u32, exp: u64)
    requires
        hmac_sha256_of(other, claim_bytes(user_id, exp)) != hmac_sha256_of(
            secret,
            claim_bytes(user_id, exp),
        ),
    ensures
        !token_authentic(other, token_bytes(secret, user_id, exp)),
{
    let t = token_bytes(secret, user_id, exp);
    assert(t.subrange(0, 12) =~= claim_bytes(user_id, exp));
    assert(t.subrange(12, t.len() as int) =~= hmac_sha256_of(secret, claim_bytes(user_id, exp)));
}

} // verus!
