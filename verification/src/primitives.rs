//! Trusted wrappers around the hash, MAC, Base64 and AEAD primitives of outside crates.
use vstd::prelude::*;
use base64::Engine;
use chacha20poly1305::aead::Aead;
use hmac::Mac;
use sha2::Digest;

verus! {

/// The SHA-256 digest of `data`.
pub uninterp spec fn sha256_of(data: Seq<u8>) -> Seq<u8>;

/// HMAC-SHA256 of `msg` under `key`.
pub uninterp spec fn hmac_sha256_of(key: Seq<u8>, msg: Seq<u8>) -> Seq<u8>;

/// URL-safe Base64 (RFC 4648 section 5) of `data`, without padding.
pub uninterp spec fn b64url_encoding_of(data: Seq<u8>) -> Seq<char>;

/// The bytes whose unpadded URL-safe Base64 is `text`, if `text` is such an encoding.
pub uninterp spec fn b64url_decoding_of(text: Seq<char>) -> Option<Seq<u8>>;

/// ChaCha20-Poly1305 sealing of `plaintext` (ciphertext followed by tag), if the cipher accepts it.
pub uninterp spec fn aead_sealed(key: Seq<u8>, nonce: Seq<u8>, plaintext: Seq<u8>) -> Option<Seq<u8>>;

/// ChaCha20-Poly1305 opening of `ciphertext`, if it authenticates.
pub uninterp spec fn aead_opened(key: Seq<u8>, nonce: Seq<u8>, ciphertext: Seq<u8>) -> Option<Seq<u8>>;

/// The characters of the URL-safe Base64 alphabet.
pub open spec fn is_b64url_char(c: char) -> bool {
    ('A' <= c && c <= 'Z') || ('a' <= c && c <= 'z') || ('0' <= c && c <= '9') || c == '-' || c
        == '_'
}

/// `sha2::Sha256::digest`: the 32-byte SHA-256 digest of `data`; deterministic in `data`.
#[verifier::external_body]
pub(crate) fn sha256(data: &[u8]) -> (r: Vec<u8>)
    ensures
        r@ == sha256_of(data@),
        r@.len() == 32,
{
    sha2::Sha256::digest(data).to_vec()
}

/// `hmac::Hmac::<Sha256>`: `new_from_slice(key)`, `update(msg)`, `finalize()`. HMAC takes keys of
/// any length, so the constructor's error arm is never taken; the tag is 32 bytes.
#[verifier::external_body]
pub(crate) fn hmac_sha256(key: &[u8], msg: &[u8]) -> (r: Vec<u8>)
    ensures
        r@ == hmac_sha256_of(key@, msg@),
        r@.len() == 32,
{
    match <hmac::Hmac<sha2::Sha256> as hmac::Mac>::new_from_slice(key) {
        Ok(mut mac) => {
            mac.update(msg);
            mac.finalize().into_bytes().to_vec()
        },
        Err(_) => Vec::new(),
    }
}

/// `base64::engine::general_purpose::URL_SAFE_NO_PAD.encode`: the text uses only the URL-safe
/// alphabet, and decoding it with the same engine gives `data` back.
#[verifier::external_body]
pub(crate) fn b64url_encode(data: &[u8]) -> (r: String)
    requires
        data@.len() <= usize::MAX / 2,
    ensures
        r@ == b64url_encoding_of(data@),
        b64url_decoding_of(r@) == Some(data@),
        forall|i: int| 0 <= i < r@.len() ==> is_b64url_char(#[trigger] r@[i]),
{
    base64::engine::general_purpose::URL_SAFE_NO_PAD.encode(data)
}

/// `base64::engine::general_purpose::URL_SAFE_NO_PAD.decode`; the decode error becomes `None`.
#[verifier::external_body]
pub(crate) fn b64url_decode(text: &str) -> (r: Option<Vec<u8>>)
    ensures
        r matches Some(v) ==> b64url_decoding_of(text@) == Some(v@),
        r is None ==> b64url_decoding_of(text@) is None,
{
    match base64::engine::general_purpose::URL_SAFE_NO_PAD.decode(text) {
        Ok(v) => Some(v),
        Err(_) => None,
    }
}

/// `ChaCha20Poly1305::new(key).encrypt(nonce, plaintext)`. The cipher refuses only plaintexts of
/// 64 * u32::MAX bytes or more; the output is the ciphertext followed by a 16-byte tag.
#[verifier::external_body]
pub(crate) fn aead_seal(key: &[u8], nonce: &[u8], plaintext: &[u8]) -> (r: Option<Vec<u8>>)
    requires
        key@.len() == 32,
        nonce@.len() == 12,
    ensures
        r matches Some(c) ==> aead_sealed(key@, nonce@, plaintext@) == Some(c@) && c@.len() == plaintext@.len() + 16,
        r is None ==> aead_sealed(key@, nonce@, plaintext@) is None,
        plaintext@.len() < 64 * (u32::MAX as int) ==> r is Some,
{
    let cipher = <chacha20poly1305::ChaCha20Poly1305 as chacha20poly1305::KeyInit>::new(
        chacha20poly1305::Key::from_slice(key),
    );
    cipher.encrypt(chacha20poly1305::Nonce::from_slice(nonce), plaintext).ok()
}

/// `ChaCha20Poly1305::new(key).decrypt(nonce, ciphertext)`: it opens exactly what sealing under
/// the same key and nonce produced, and gives back that plaintext.
#[verifier::external_body]
pub(crate) fn aead_open(key: &[u8], nonce: &[u8], ciphertext: &[u8]) -> (r: Option<Vec<u8>>)
    requires
        key@.len() == 32,
        nonce@.len() == 12,
    ensures
        r matches Some(p) ==> aead_opened(key@, nonce@, ciphertext@) == Some(p@),
        r is None ==> aead_opened(key@, nonce@, ciphertext@) is None,
        r matches Some(q) ==> forall|p: Seq<u8>| #[trigger] aead_sealed(key@, nonce@, p) == Some(ciphertext@) ==> q@ == p,
        (exists|p: Seq<u8>| #[trigger] aead_sealed(key@, nonce@, p) == Some(ciphertext@)) ==> r is Some,
{
    let cipher = <chacha20poly1305::ChaCha20Poly1305 as chacha20poly1305::KeyInit>::new(
        chacha20poly1305::Key::from_slice(key),
    );
    cipher.decrypt(chacha20poly1305::Nonce::from_slice(nonce), ciphertext).ok()
}


/// `std::str::from_utf8(bytes).is_ok()`: the bytes are well-formed UTF-8.
#[verifier::external_body]
pub(crate) fn is_utf8(bytes: &[u8]) -> (r: bool)
    ensures
        r == vstd::utf8::valid_utf8(bytes@),
{
    std::str::from_utf8(bytes).is_ok()
}

} // verus!
