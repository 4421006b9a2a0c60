//! Request signing for Backpack: the Ed25519 seed read from the base64 API
//! secret, and base64 signatures of the texts Backpack expects signed.

use crate::exchange::{build_signature_payload, signature_payload_spec, signed_digits, signed_text};
use crate::keys::pair_views;
use base64::engine::general_purpose::STANDARD;
use base64::Engine;
use ed25519_dalek::{Signer, SigningKey};
use vstd::prelude::*;
use vstd::string::StringExecFns;

verus! {

/// The bytes standard base64 (with padding) decodes from a text, if it is valid.
pub uninterp spec fn base64_decoded(text: Seq<char>) -> Option<Seq<u8>>;

/// The standard base64 text (with padding) of a signature's bytes.
pub uninterp spec fn base64_text(bytes: Seq<u8>) -> Seq<char>;

/// The Ed25519 signature the key with this seed gives a message's UTF-8 bytes.
pub uninterp spec fn ed25519_signature(seed: Seq<u8>, message: Seq<char>) -> Seq<u8>;

/// `STANDARD.decode` of the text's bytes; `None` for an invalid text.
#[verifier::external_body]
fn base64_decode(text: &str) -> (r: Option<Vec<u8>>)
    ensures
        match r {
            Some(bytes) => base64_decoded(text@) == Some(bytes@),
            None => base64_decoded(text@) is None,
        },
{
    match STANDARD.decode(text.as_bytes()) {
        Ok(bytes) => Some(bytes),
        Err(_) => None,
    }
}

/// `STANDARD.encode` of a signature's sixty-four bytes.
#[verifier::external_body]
fn base64_encode(bytes: &[u8; 64]) -> (r: String)
    ensures
        r@ == base64_text(bytes@),
{
    STANDARD.encode(bytes)
}

/// `SigningKey::from_bytes(seed).sign(message.as_bytes()).to_bytes()`, which
/// Ed25519 makes a function of the seed and the message.
#[verifier::external_body]
fn ed25519_sign(seed: &[u8; 32], message: &str) -> (r: [u8; 64])
    ensures
        r@ == ed25519_signature(seed@, message@),
{
    SigningKey::from_bytes(seed).sign(message.as_bytes()).to_bytes()
}

/// Why the API secret gives no signing key.
#[derive(Debug, Clone, Copy, PartialEq, Eq, Structural)]
pub enum SigningError {
    InvalidSecret,
    SeedTooShort,
}

/// The signing seed: the first thirty-two bytes of the base64-decoded secret.
pub fn signing_seed(secret: &str) -> (r: Result<[u8; 32], SigningError>)
    ensures
        match base64_decoded(secret@) {
            None => r == Err::<[u8; 32], SigningError>(SigningError::InvalidSecret),
            Some(bytes) => if bytes.len() < 32 {
                r == Err::<[u8; 32], SigningError>(SigningError::SeedTooShort)
            } else {
                r matches Ok(seed) && seed@ == bytes.take(32)
            },
        },
{
    match base64_decode(secret) {
        Some(bytes) => seed_from_secret_bytes(bytes.as_slice()),
        None => Err(SigningError::InvalidSecret),
    }
}

/// The signing seed in the decoded bytes of a secret: the first thirty-two.
pub fn seed_from_secret_bytes(bytes: &[u8]) -> (r: Result<[u8; 32], SigningError>)
    ensures
        if bytes@.len() < 32 {
            r == Err::<[u8; 32], SigningError>(SigningError::SeedTooShort)
        } else {
            r matches Ok(seed) && seed@ == bytes@.take(32)
        },
{
    if bytes.len() < 32 {
        return Err(SigningError::SeedTooShort);
    }
    let mut seed = [0u8; 32];
    let mut i: usize = 0;
    while i < 32
        invariant
            i <= 32,
            bytes@.len() >= 32,
            forall|k: int| 0 <= k < i ==> seed@[k] == bytes@[k],
        decreases 32 - i,
    {
        seed[i] = bytes[i];
        i = i + 1;
    }
    assert(seed@ =~= bytes@.take(32));
    Ok(seed)
}

/// The base64 Ed25519 signature of a text.
pub fn sign_text(seed: &[u8; 32], text: &str) -> (r: String)
    ensures
        r@ == base64_text(ed25519_signature(seed@, text@)),
{
    base64_encode(&ed25519_sign(seed, text))
}

/// What a signed request carries besides its body.
#[derive(Debug, PartialEq)]
pub struct SignedHeaders {
    pub api_key: String,
    pub timestamp: String,
    pub window: String,
    pub signature: String,
}

/// The headers of a request signed at `timestamp` within `window`
/// milliseconds: the signature covers the instruction, the parameters in
/// key order, the timestamp and the window.
pub fn signed_headers(
    api_key: &str,
    seed: &[u8; 32],
    instruction: &str,
    params: &[(String, String)],
    timestamp: i64,
    window: &str,
) -> (r: SignedHeaders)
    ensures
        r.api_key@ == api_key@,
        r.timestamp@ == signed_digits(timestamp as int),
        r.window@ == window@,
        r.signature@ == base64_text(
            ed25519_signature(seed@, signature_payload_spec(instruction@, pair_views(params@), timestamp as int, window@)),
        ),
{
    let payload = build_signature_payload(instruction, params, timestamp, window);
    SignedHeaders {
        api_key: String::from_str(api_key),
        timestamp: signed_text(timestamp),
        window: String::from_str(window),
        signature: sign_text(seed, payload.as_str()),
    }
}

/// `subscribe:<channel>:<timestamp>:<nonce>`, the text a stream subscription signs.
pub open spec fn subscription_text(channel: Seq<char>, timestamp: int, nonce: Seq<char>) -> Seq<char> {
    "subscribe:"@ + channel + ":"@ + signed_digits(timestamp) + ":"@ + nonce
}

/// The signature of a stream subscription to `channel` at `timestamp` with `nonce`.
pub fn subscription_signature(seed: &[u8; 32], channel: &str, timestamp: i64, nonce: &str) -> (r: String)
    ensures
        r@ == base64_text(ed25519_signature(seed@, subscription_text(channel@, timestamp as int, nonce@))),
{
    let mut text = String::from_str("subscribe:");
    text.append(channel);
    text.append(":");
    text.append(signed_text(timestamp).as_str());
    text.append(":");
    text.append(nonce);
    sign_text(seed, text.as_str())
}

} // verus!
