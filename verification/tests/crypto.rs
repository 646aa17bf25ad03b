use this_me::crypto::{decrypt_string, derive_key_from_hash, encrypt_string, sha256, CryptoError};
use this_me::encoding::{b64_decode, b64_encode};
use this_me::me::Me;

#[test]
fn sha256_known_vector() {
    let digest = sha256(b"abc");
    let expected: [u8; 32] = [
        0xba, 0x78, 0x16, 0xbf, 0x8f, 0x01, 0xcf, 0xea, 0x41, 0x41, 0x40, 0xde, 0x5d, 0xae, 0x22,
        0x23, 0xb0, 0x03, 0x61, 0xa3, 0x96, 0x17, 0x7a, 0x9c, 0xb4, 0x10, 0xff, 0x61, 0xf2, 0x00,
        0x15, 0xad,
    ];
    assert_eq!(digest.as_slice(), &expected);
}

#[test]
fn derive_key_is_sha256_of_username_then_password() {
    let k = Me::derive_key("ab", "c");
    let d = sha256(b"abc");
    assert_eq!(k, d);
    assert_eq!(k.len(), 32);
}

#[test]
fn base64_known_vector_and_round_trip() {
    let e = b64_encode(b"hello");
    assert_eq!(e, "aGVsbG8=");
    let d = b64_decode(&e).unwrap();
    assert_eq!(d, b"hello");
    assert!(b64_decode("not base64!!").is_none());
}

#[test]
fn key_padding_from_short_hash() {
    let k = derive_key_from_hash("ab");
    assert_eq!(k.len(), 32);
    assert_eq!(&k[..2], b"ab");
    assert!(k[2..].iter().all(|&b| b == 0));
}

#[test]
fn key_truncation_from_long_hash() {
    let long = "0123456789012345678901234567890123456789";
    let k = derive_key_from_hash(long);
    assert_eq!(k.len(), 32);
    assert_eq!(k.as_slice(), &long.as_bytes()[..32]);
}

#[test]
fn encrypt_decrypt_round_trip() {
    let cases = [
        ("alice123", "pw1234", "the quick brown fox"),
        ("bob_2", "s3cret", ""),
        ("carol.x", "pass", "ünïcödé ✓ payload"),
    ];
    for (username, password, plaintext) in cases {
        let key = Me::derive_key(username, password);
        let hash = b64_encode(&key);
        let blob = encrypt_string(&hash, plaintext).unwrap();
        assert_eq!(blob.len(), plaintext.len() + 28);
        let back = decrypt_string(&hash, &blob).unwrap();
        assert_eq!(back, plaintext);
    }
}

#[test]
fn fresh_nonce_per_encryption() {
    let hash = b64_encode(&Me::derive_key("alice123", "pw1234"));
    let b1 = encrypt_string(&hash, "same plaintext").unwrap();
    let b2 = encrypt_string(&hash, "same plaintext").unwrap();
    assert_ne!(b1, b2);
    assert_ne!(&b1[..12], &b2[..12]);
}

#[test]
fn decrypt_rejects_short_blob() {
    let hash = b64_encode(&Me::derive_key("alice123", "pw1234"));
    assert_eq!(decrypt_string(&hash, &[]), Err(CryptoError::DecryptionFailed));
    assert_eq!(decrypt_string(&hash, &[0u8; 12]), Err(CryptoError::DecryptionFailed));
}

#[test]
fn decrypt_rejects_wrong_key() {
    let h1 = b64_encode(&Me::derive_key("alice123", "pw1234"));
    let h2 = b64_encode(&Me::derive_key("alice123", "pw1235"));
    let blob = encrypt_string(&h1, "payload").unwrap();
    assert_eq!(decrypt_string(&h2, &blob), Err(CryptoError::DecryptionFailed));
}

#[test]
fn tamper_any_single_bit_fails() {
    let hash = b64_encode(&Me::derive_key("alice123", "pw1234"));
    let blob = encrypt_string(&hash, "tamper me").unwrap();
    for byte in 0..blob.len() {
        for bit in 0..8 {
            let mut copy = blob.clone();
            copy[byte] ^= 1u8 << bit;
            assert_eq!(
                decrypt_string(&hash, &copy),
                Err(CryptoError::DecryptionFailed),
                "flipping bit {} of byte {} went unnoticed",
                bit,
                byte
            );
        }
    }
}

#[test]
fn context_determinism_and_separation() {
    let c1 = Me::derive_context("raw key material");
    let c2 = Me::derive_context("raw key material");
    let c3 = Me::derive_context("raw key materiaL");
    assert_eq!(c1, c2);
    assert_ne!(c1, c3);
}

#[test]
fn crypto_error_values_are_distinct() {
    assert_ne!(CryptoError::EncryptionFailed, CryptoError::DecryptionFailed);
    assert_ne!(CryptoError::DecryptionFailed, CryptoError::InvalidKeyLength);
}
