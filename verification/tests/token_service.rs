//! The token service against the real HMAC-SHA-256 implementation, and the
//! registration/login flow against the real argon2 hasher.

use hmac::{KeyInit, Mac};
use marketplace::errors::AppError;
use marketplace::store::Store;
use marketplace::token::{authenticate, issue, verify, TokenError, TOKEN_VALIDITY_SECS};

const SECRET: &[u8] = b"server-held-secret";
const NOW: u64 = 1_700_000_000;

#[test]
fn issued_token_verifies_to_its_user_before_expiry() {
    let token = issue(SECRET, 42, NOW);
    let r = verify(SECRET, &token, NOW + 1);
    assert_eq!(r, Ok(42));
    let r = verify(SECRET, &token, NOW + TOKEN_VALIDITY_SECS - 1);
    assert_eq!(r, Ok(42));
}

#[test]
fn issued_token_expires_after_its_window() {
    let token = issue(SECRET, 42, NOW);
    let r = verify(SECRET, &token, NOW + TOKEN_VALIDITY_SECS);
    assert_eq!(r, Err(TokenError::Expired));
    let r = verify(SECRET, &token, NOW + TOKEN_VALIDITY_SECS + 50);
    assert_eq!(r, Err(TokenError::Expired));
}

#[test]
fn token_under_another_secret_is_rejected_regardless_of_expiry() {
    let token = issue(SECRET, 42, NOW);
    let r = verify(b"some-other-secret", &token, NOW + 1);
    assert_eq!(r, Err(TokenError::Malformed));
    // Still rejected as unsigned, not as expired, long after the window.
    let r = verify(b"some-other-secret", &token, NOW + 2 * TOKEN_VALIDITY_SECS);
    assert_eq!(r, Err(TokenError::Malformed));
}

#[test]
fn tampered_token_is_rejected() {
    let token = issue(SECRET, 42, NOW);
    for at in [0, 3, 11, 12, token.len() - 1] {
        let mut bad = token.clone();
        bad[at] ^= 1;
        assert_eq!(verify(SECRET, &bad, NOW + 1), Err(TokenError::Malformed));
    }
    let truncated = token[..token.len() - 1].to_vec();
    assert_eq!(verify(SECRET, &truncated, NOW + 1), Err(TokenError::Malformed));
    assert_eq!(verify(SECRET, &Vec::new(), NOW + 1), Err(TokenError::Malformed));
}

#[test]
fn token_tag_matches_independent_hmac() {
    let token = issue(SECRET, 7, NOW);
    assert_eq!(token.len(), 44);
    // The claim bytes carry the user id and expiry, big-endian.
    assert_eq!(&token[..4], &7u32.to_be_bytes());
    assert_eq!(&token[4..12], &(NOW + TOKEN_VALIDITY_SECS).to_be_bytes());
    // The tag is the HMAC-SHA-256 of the claim bytes, recomputed here
    // without the library.
    let mut mac = <hmac::Hmac<sha2::Sha256> as KeyInit>::new_from_slice(SECRET).unwrap();
    mac.update(&token[..12]);
    let tag = mac.finalize().into_bytes();
    assert_eq!(&token[12..], tag.as_slice());
}

#[test]
fn authenticate_maps_all_failures_to_unauthorized() {
    let token = issue(SECRET, 42, NOW);
    assert_eq!(authenticate(SECRET, Some(&token), NOW + 1), Ok(42));
    assert_eq!(authenticate(SECRET, None, NOW + 1), Err(AppError::Unauthorized));
    assert_eq!(
        authenticate(SECRET, Some(&token), NOW + TOKEN_VALIDITY_SECS),
        Err(AppError::Unauthorized)
    );
    assert_eq!(
        authenticate(b"wrong", Some(&token), NOW + 1),
        Err(AppError::Unauthorized)
    );
}

#[test]
fn register_validates_fields_in_order() {
    let mut st = Store::new();
    let r = st.register("", "123456789", "long enough");
    assert!(matches!(r, Err(AppError::BadInput("name can't be empty"))));
    let r = st.register(
        "This name is much much longer than thirty characters",
        "123456789",
        "long enough",
    );
    assert!(matches!(r, Err(AppError::BadInput("name can't be longer than 30"))));
    let r = st.register("Ann", "12345678", "long enough");
    assert!(matches!(r, Err(AppError::BadInput("phone number must be 9 digits long"))));
    let r = st.register("Ann", "12345678x", "long enough");
    assert!(matches!(r, Err(AppError::BadInput("phone number must be 9 digits long"))));
    let r = st.register("Ann", "123456789", "short");
    assert!(matches!(r, Err(AppError::BadInput("password must be at least 8 characters"))));
    assert_eq!(st.users.len(), 0);
}

#[test]
fn register_then_login_round_trip() {
    let mut st = Store::new();
    let uid = st.register("Ann", "123456789", "correct horse").unwrap();
    // The stored record carries a hash, never the password.
    assert_ne!(st.users[0].hashed_password, "correct horse");
    let phone = "123456789".to_string();
    assert_eq!(st.login(&phone, "correct horse"), Ok(uid));
    assert_eq!(st.login(&phone, "wrong horse"), Err(AppError::Unauthorized));
    let unknown = "999999999".to_string();
    assert_eq!(st.login(&unknown, "correct horse"), Err(AppError::Unauthorized));
}

#[test]
fn duplicate_phone_number_is_refused() {
    let mut st = Store::new();
    st.register("Ann", "123456789", "correct horse").unwrap();
    let r = st.register("Another Ann", "123456789", "other password");
    assert!(matches!(r, Err(AppError::DuplicateUser)));
    assert_eq!(st.users.len(), 1);
}

#[test]
fn user_info_returns_the_public_record() {
    let mut st = Store::new();
    let uid = st.register("Ann", "123456789", "correct horse").unwrap();
    let info = st.user_info(uid).unwrap();
    assert_eq!(info.id, uid);
    assert_eq!(info.name, "Ann");
    assert_eq!(info.phone_number, "123456789");
    assert!(matches!(st.user_info(99), Err(AppError::NoSuchUser)));
}

#[test]
fn login_token_identifies_the_session_user() {
    let mut st = Store::new();
    let uid = st.register("Ann", "123456789", "correct horse").unwrap();
    let phone = "123456789".to_string();
    let logged_in = st.login(&phone, "correct horse").unwrap();
    let token = issue(SECRET, logged_in, NOW);
    assert_eq!(authenticate(SECRET, Some(&token), NOW + 60), Ok(uid));
}
