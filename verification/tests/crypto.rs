use medium::crypto::{
    check_token_expiry, control_pin, open_session_token, sign_session_token, TokenError,
    SESSION_TOKEN_CLOCK_SKEW_MINUTES, SESSION_TOKEN_CLOCK_SKEW_NANOS,
};
use base64::Engine;
use hmac::Mac;

const MINUTE: i128 = 60_000_000_000;

#[test]
fn session_token_round_trips_with_shared_secret() {
    let payload = br#"{"session_id":"sess-1","service_id":"svc_ssh","node_id":"node-1"}"#;
    let token = sign_session_token("local-secret", payload);
    let opened = open_session_token("local-secret", &token).unwrap();
    assert_eq!(opened, payload.to_vec());
}

#[test]
fn session_token_rejects_wrong_secret() {
    let payload = br#"{"session_id":"sess-1","service_id":"svc_ssh","node_id":"node-1"}"#;
    let token = sign_session_token("local-secret", payload);
    let error = open_session_token("other-secret", &token).unwrap_err();
    assert!(error.message().contains("invalid session token signature"));
}

#[test]
fn session_token_allows_small_clock_skew_after_expiry() {
    let now: i128 = 1_700_000_000 * 1_000_000_000;
    let expires_at = now - (SESSION_TOKEN_CLOCK_SKEW_MINUTES as i128 - 1) * MINUTE;
    check_token_expiry(expires_at, now).unwrap();
}

#[test]
fn session_token_rejects_expiry_beyond_clock_skew() {
    let now: i128 = 1_700_000_000 * 1_000_000_000;
    let expires_at = now - (SESSION_TOKEN_CLOCK_SKEW_MINUTES as i128 + 1) * MINUTE;
    let error = check_token_expiry(expires_at, now).unwrap_err();
    assert_eq!(error, TokenError::Expired);
    assert!(error.message().contains("session token expired"));
}

#[test]
fn expiry_boundary_is_exactly_the_skew() {
    let now: i128 = 5 * MINUTE * 100;
    assert!(check_token_expiry(now - SESSION_TOKEN_CLOCK_SKEW_NANOS, now).is_ok());
    assert!(check_token_expiry(now - SESSION_TOKEN_CLOCK_SKEW_NANOS - 1, now).is_err());
}

#[test]
fn token_format_errors_are_reported() {
    assert_eq!(open_session_token("s", "no-dot-here").unwrap_err(), TokenError::Format);
    assert_eq!(open_session_token("s", "@@.AAAA").unwrap_err(), TokenError::PayloadEncoding);
    assert_eq!(open_session_token("s", "AAAA.@@").unwrap_err(), TokenError::SignatureEncoding);
    assert_eq!(open_session_token("s", "AAAA.AAAA").unwrap_err(), TokenError::Signature);
}

fn expected_token(secret: &str, payload: &[u8]) -> String {
    let mut mac = hmac::Hmac::<sha2::Sha256>::new_from_slice(secret.as_bytes()).unwrap();
    mac.update(payload);
    let signature = mac.finalize().into_bytes();
    let engine = base64::engine::general_purpose::URL_SAFE_NO_PAD;
    format!("{}.{}", engine.encode(payload), engine.encode(signature))
}

#[test]
fn tokens_are_base64url_payload_dot_hmac() {
    let token = sign_session_token("k", b"hi");
    assert_eq!(token, expected_token("k", b"hi"));
    assert!(token.starts_with("aGk."));
    assert!(!token.contains('='));
    assert_eq!(open_session_token("k", &expected_token("k", b"other payload")).unwrap(), b"other payload".to_vec());
}

#[test]
fn tampered_tokens_are_refused() {
    let token = sign_session_token("k", b"hello");
    let (payload, signature) = token.split_once('.').unwrap();
    let engine = base64::engine::general_purpose::URL_SAFE_NO_PAD;
    let forged = format!("{}.{}", engine.encode(b"hellp"), signature);
    assert_eq!(open_session_token("k", &forged).unwrap_err(), TokenError::Signature);
    assert_eq!(open_session_token("k", &format!("{payload}.{signature}")).unwrap(), b"hello".to_vec());
}

#[test]
fn control_pin_is_sha256_hex_of_certificate() {
    assert_eq!(
        control_pin(b"abc"),
        "sha256:ba7816bf8f01cfea414140de5dae2223b00361a396177a9cb410ff61f20015ad"
    );
}
