use backpack_grid_bot::signing::{
    seed_from_secret_bytes, sign_text, signed_headers, signing_seed, subscription_signature, SigningError,
};
use base64::engine::general_purpose::STANDARD;
use base64::Engine;
use ed25519_dalek::{Signer, SigningKey};

fn secret() -> String {
    STANDARD.encode([7u8; 40])
}

#[test]
fn seed_is_the_first_thirty_two_secret_bytes() {
    assert_eq!(signing_seed(&secret()), Ok([7u8; 32]));
    assert_eq!(signing_seed("not base64!"), Err(SigningError::InvalidSecret));
    assert_eq!(signing_seed(&STANDARD.encode([1u8; 16])), Err(SigningError::SeedTooShort));
}

#[test]
fn signatures_are_base64_ed25519() {
    let seed = [7u8; 32];
    let expected = STANDARD.encode(SigningKey::from_bytes(&seed).sign(b"hello").to_bytes());
    assert_eq!(sign_text(&seed, "hello"), expected);
    assert_ne!(sign_text(&seed, "hello"), sign_text(&seed, "hellO"));
}

#[test]
fn signed_headers_sign_the_payload() {
    let seed = [9u8; 32];
    let params = vec![("symbol".to_string(), "ETH_USDC_PERP".to_string())];
    let headers = signed_headers("key", &seed, "positionQuery", &params, 1700000000000, "5000");
    assert_eq!(headers.timestamp, "1700000000000");
    assert_eq!(headers.window, "5000");
    assert_eq!(headers.api_key, "key");
    let payload = "instruction=positionQuery&symbol=ETH_USDC_PERP&timestamp=1700000000000&window=5000";
    assert_eq!(headers.signature, sign_text(&seed, payload));
    assert_eq!(
        subscription_signature(&seed, "orders", 12, "n-1"),
        sign_text(&seed, "subscribe:orders:12:n-1")
    );
}

#[test]
fn seed_comes_from_the_leading_decoded_bytes() {
    let mut bytes = [0u8; 33];
    for (i, b) in bytes.iter_mut().enumerate() {
        *b = i as u8;
    }
    let mut want = [0u8; 32];
    want.copy_from_slice(&bytes[..32]);
    assert_eq!(seed_from_secret_bytes(&bytes), Ok(want));
    assert_eq!(seed_from_secret_bytes(&bytes[..31]), Err(SigningError::SeedTooShort));
    assert_eq!(seed_from_secret_bytes(&[]), Err(SigningError::SeedTooShort));
}
