//! Session tokens signed with the shared secret, and control certificate pins.
use vstd::prelude::*;
use vstd::string::StringSliceAdditionalSpecFns;
use crate::primitives::{
    b64url_decode, b64url_decoding_of, b64url_encode, b64url_encoding_of, hmac_sha256, hmac_sha256_of,
    is_b64url_char, sha256, sha256_of,
};
use crate::text::{chars_of, extend_str, find, find_from, hex_bytes, hex_lower, matches_at, split_once, split_once_chars, string_of};

verus! {

/// How long an issued session token is valid, in minutes.
pub const SESSION_TOKEN_TTL_MINUTES: i64 = 10;
/// How long after expiry a token is still accepted, in minutes.
pub const SESSION_TOKEN_CLOCK_SKEW_MINUTES: i64 = 5;
/// The clock skew in nanoseconds.
pub const SESSION_TOKEN_CLOCK_SKEW_NANOS: i128 = 300_000_000_000;

/// The control plane's TLS identity and the pin clients check it by.
#[derive(Debug, Clone)]
pub struct ControlTlsIdentity {
    pub cert_pem: String,
    pub key_pem: String,
    pub control_pin: String,
}

/// The certificate authority that signs service certificates.
#[derive(Debug, Clone)]
pub struct MediumServiceCa {
    pub cert_pem: String,
    pub key_pem: String,
}

/// A service's TLS certificate and key.
#[derive(Debug, Clone)]
pub struct ServiceTlsIdentity {
    pub cert_pem: String,
    pub key_pem: String,
}

/// The pin of a certificate: `sha256:` and the lower-case hex of the SHA-256 of its DER bytes.
pub open spec fn control_pin_spec(cert_der: Seq<u8>) -> Seq<char> {
    "sha256:"@ + hex_bytes(sha256_of(cert_der))
}

/// The pin of a certificate given as DER bytes.
pub fn control_pin(cert_der: &[u8]) -> (r: String)
    ensures
        r@ == control_pin_spec(cert_der@),
{
    let digest = sha256(cert_der);
    let hex = hex_lower(&digest);
    let mut out: Vec<char> = Vec::new();
    extend_str(&mut out, "sha256:");
    extend_str(&mut out, hex.as_str());
    string_of(&out)
}

/// Why a session token was refused.
#[derive(Debug, Clone, Copy, PartialEq, Eq, Structural)]
pub enum TokenError {
    /// No `.` between payload and signature.
    Format,
    /// The payload is not unpadded URL-safe Base64.
    PayloadEncoding,
    /// The signature is not unpadded URL-safe Base64.
    SignatureEncoding,
    /// The signature is not the payload's HMAC under the shared secret.
    Signature,
    /// The token expired longer ago than the allowed clock skew.
    Expired,
}

impl TokenError {
    /// The error as a message.
    pub fn message(&self) -> (s: &'static str)
        ensures
            s@ == token_error_message(*self),
    {
        match self {
            TokenError::Format => "invalid session token format",
            TokenError::PayloadEncoding => "invalid session token payload",
            TokenError::SignatureEncoding => "invalid session token signature encoding",
            TokenError::Signature => "invalid session token signature",
            TokenError::Expired => "session token expired",
        }
    }
}

/// The message of each token error.
pub open spec fn token_error_message(e: TokenError) -> Seq<char> {
    match e {
        TokenError::Format => "invalid session token format"@,
        TokenError::PayloadEncoding => "invalid session token payload"@,
        TokenError::SignatureEncoding => "invalid session token signature encoding"@,
        TokenError::Signature => "invalid session token signature"@,
        TokenError::Expired => "session token expired"@,
    }
}

/// A token: the Base64 of the payload, a dot, the Base64 of its HMAC under the secret.
pub open spec fn token_spec(secret: Seq<u8>, payload: Seq<u8>) -> Seq<char> {
    b64url_encoding_of(payload) + "."@ + b64url_encoding_of(hmac_sha256_of(secret, payload))
}

/// What opening `token` with `secret` gives: the payload, or why the token is refused.
pub open spec fn open_spec(secret: Seq<u8>, token: Seq<char>) -> Result<Seq<u8>, TokenError> {
    match split_once(token, "."@) {
        None => Err(TokenError::Format),
        Some(parts) => match b64url_decoding_of(parts.0) {
            None => Err(TokenError::PayloadEncoding),
            Some(payload) => match b64url_decoding_of(parts.1) {
                None => Err(TokenError::SignatureEncoding),
                Some(sig) => if sig == hmac_sha256_of(secret, payload) {
                    Ok(payload)
                } else {
                    Err(TokenError::Signature)
                },
            },
        },
    }
}

proof fn lemma_split_at_first_dot(a: Seq<char>, b: Seq<char>)
    requires
        forall|i: int| 0 <= i < a.len() ==> is_b64url_char(#[trigger] a[i]),
    ensures
        split_once(a + "."@ + b, "."@) == Some((a, b)),
{
    reveal_strlit(".");
    let t = a + "."@ + b;
    assert(matches_at(t, a.len() as int, "."@)) by {
        assert(t.subrange(a.len() as int, a.len() as int + 1) =~= "."@);
    }
    assert forall|k: int| 0 <= k < a.len() implies !matches_at(t, k, "."@) by {
        assert(is_b64url_char(a[k]));
        if matches_at(t, k, "."@) {
            assert(t.subrange(k, k + 1)[0] == t[k]);
            assert(t[k] == a[k]);
        }
    }
    lemma_find_first_dot(t, a.len() as int, 0);
    assert(t.take(a.len() as int) =~= a);
    assert(t.skip(a.len() as int + 1) =~= b);
}

proof fn lemma_find_first_dot(t: Seq<char>, j: int, i: int)
    requires
        0 <= i <= j,
        matches_at(t, j, "."@),
        forall|k: int| i <= k < j ==> !matches_at(t, k, "."@),
    ensures
        find_from(t, "."@, i) == Some(j),
    decreases j - i,
{
    if i < j {
        lemma_find_first_dot(t, j, i + 1);
    }
}

/// Signs a payload into a session token with the shared secret. Opening the token with the same
/// secret gives the payload back; with another secret, it is refused unless both secrets give the
/// payload the same HMAC.
pub fn sign_session_token(shared_secret: &str, payload: &[u8]) -> (token: String)
    requires
        payload@.len() <= usize::MAX / 2,
    ensures
        token@ == token_spec(shared_secret.spec_bytes(), payload@),
        open_spec(shared_secret.spec_bytes(), token@) == Ok::<Seq<u8>, TokenError>(payload@),
        forall|other: Seq<u8>| #[trigger] open_spec(other, token@) == (if hmac_sha256_of(other, payload@) == hmac_sha256_of(shared_secret.spec_bytes(), payload@) {
            Ok::<Seq<u8>, TokenError>(payload@)
        } else {
            Err(TokenError::Signature)
        }),
{
    let signature = hmac_sha256(shared_secret.as_bytes(), payload);
    let payload_b64 = b64url_encode(payload);
    let signature_b64 = b64url_encode(&signature);
    let mut out: Vec<char> = Vec::new();
    extend_str(&mut out, payload_b64.as_str());
    extend_str(&mut out, ".");
    extend_str(&mut out, signature_b64.as_str());
    proof {
        lemma_split_at_first_dot(payload_b64@, signature_b64@);
    }
    string_of(&out)
}

/// Opens a session token with the shared secret: the signed payload, or why it was refused.
pub fn open_session_token(shared_secret: &str, token: &str) -> (r: Result<Vec<u8>, TokenError>)
    ensures
        match open_spec(shared_secret.spec_bytes(), token@) {
            Ok(p) => r matches Ok(v) && v@ == p,
            Err(e) => r == Err::<Vec<u8>, TokenError>(e),
        },
{
    let t = chars_of(token);
    let dot = chars_of(".");
    let (payload_part, signature_part) = match split_once_chars(&t, &dot) {
        Some(parts) => parts,
        None => {
            return Err(TokenError::Format);
        },
    };
    let payload_text = string_of(&payload_part);
    let payload = match b64url_decode(payload_text.as_str()) {
        Some(p) => p,
        None => {
            return Err(TokenError::PayloadEncoding);
        },
    };
    let signature_text = string_of(&signature_part);
    let signature = match b64url_decode(signature_text.as_str()) {
        Some(s) => s,
        None => {
            return Err(TokenError::SignatureEncoding);
        },
    };
    let expected = hmac_sha256(shared_secret.as_bytes(), &payload);
    if !crate::transport::udp_session::same_bytes(&signature, &expected) {
        return Err(TokenError::Signature);
    }
    Ok(payload)
}

/// Checks expiry with the allowed clock skew (times in nanoseconds since the Unix epoch): a token
/// is refused once more than the skew has passed since it expired.
pub fn check_token_expiry(expires_at_nanos: i128, now_nanos: i128) -> (r: Result<(), TokenError>)
    requires
        expires_at_nanos + SESSION_TOKEN_CLOCK_SKEW_NANOS <= i128::MAX,
    ensures
        r is Err <==> expires_at_nanos + SESSION_TOKEN_CLOCK_SKEW_NANOS < now_nanos,
        r matches Err(e) ==> e == TokenError::Expired,
{
    if expires_at_nanos + SESSION_TOKEN_CLOCK_SKEW_NANOS < now_nanos {
        Err(TokenError::Expired)
    } else {
        Ok(())
    }
}

} // verus!
