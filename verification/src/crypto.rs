//! The crypto primitive: password-derived keys and authenticated encryption
//! with a fresh random nonce, over a 32-byte key.
//!
//! A stored blob is `nonce ‖ ciphertext ‖ tag`: a 96-bit nonce, then the
//! ciphertext with its 16-byte authentication tag. Whether a blob opens
//! under a key is a deterministic fact, named [`aead_open_of`]; encryption
//! promises that the blob it returns opens back to the plaintext, and
//! decryption returns exactly what the blob opens to.

use vstd::prelude::*;
use vstd::string::StringSliceAdditionalSpecFns;
use vstd::utf8::{decode_utf8, encode_utf8, valid_utf8};
use chacha20poly1305::aead::{Aead, KeyInit};
use chacha20poly1305::{ChaCha20Poly1305, Key, Nonce};
use rand::RngCore;
use sha2::Digest;

verus! {

/// Failure of a cryptographic operation. Decryption failure is reported
/// uniformly, whether the key was wrong or the blob was damaged.
#[derive(Clone, Copy, Debug, PartialEq, Eq, Structural)]
pub enum CryptoError {
    EncryptionFailed,
    DecryptionFailed,
    InvalidKeyLength,
}

/// The SHA-256 digest of a byte sequence.
pub uninterp spec fn sha256_of(data: Seq<u8>) -> Seq<u8>;

/// Relies on sha2::Sha256: a 32-byte digest determined by the input bytes
/// alone, identical across processes and machines.
#[verifier::external_body]
pub fn sha256(data: &[u8]) -> (r: Vec<u8>)
    ensures
        r@ == sha256_of(data@),
        r@.len() == 32,
{
    sha2::Sha256::digest(data).to_vec()
}

/// What a ciphertext authenticates and decrypts to under a key and nonce:
/// the plaintext, or `None` when the tag does not verify.
pub uninterp spec fn aead_open_of(key: Seq<u8>, nonce: Seq<u8>, ct: Seq<u8>) -> Option<Seq<u8>>;

/// Relies on chacha20poly1305::ChaCha20Poly1305 encrypt: the ciphertext is
/// the plaintext's length plus the 16-byte tag, and decrypting it under the
/// same key and nonce gives the plaintext back.
#[verifier::external_body]
fn aead_encrypt(key: &[u8], nonce: &[u8], plaintext: &[u8]) -> (r: Result<Vec<u8>, CryptoError>)
    requires
        key@.len() == 32,
        nonce@.len() == 12,
    ensures
        match r {
            Ok(ct) => ct@.len() == plaintext@.len() + 16 && aead_open_of(key@, nonce@, ct@)
                == Some(plaintext@),
            Err(e) => e == CryptoError::EncryptionFailed,
        },
{
    let cipher = ChaCha20Poly1305::new(Key::from_slice(key));
    cipher.encrypt(Nonce::from_slice(nonce), plaintext).map_err(|_| CryptoError::EncryptionFailed)
}

/// Relies on chacha20poly1305::ChaCha20Poly1305 decrypt: deterministic in
/// key, nonce and ciphertext; succeeds exactly on ciphertexts that
/// authenticate, and a ciphertext shorter than the 16-byte tag never does.
#[verifier::external_body]
fn aead_decrypt(key: &[u8], nonce: &[u8], ct: &[u8]) -> (r: Result<Vec<u8>, CryptoError>)
    requires
        key@.len() == 32,
        nonce@.len() == 12,
    ensures
        match r {
            Ok(pt) => aead_open_of(key@, nonce@, ct@) == Some(pt@),
            Err(e) => aead_open_of(key@, nonce@, ct@) is None && e
                == CryptoError::DecryptionFailed,
        },
        ct@.len() < 16 ==> r is Err,
{
    let cipher = ChaCha20Poly1305::new(Key::from_slice(key));
    cipher.decrypt(Nonce::from_slice(nonce), ct).map_err(|_| CryptoError::DecryptionFailed)
}

/// Relies on rand::rngs::OsRng, the operating system's secure generator:
/// the bytes are unpredictable, so nothing is stated of them beyond the
/// count; failure to obtain them is reported, not ignored.
#[verifier::external_body]
pub fn random_bytes(n: usize) -> (r: Result<Vec<u8>, CryptoError>)
    ensures
        match r {
            Ok(v) => v@.len() == n,
            Err(e) => e == CryptoError::EncryptionFailed,
        },
{
    let mut buf = vec![0u8; n];
    match rand::rngs::OsRng.try_fill_bytes(&mut buf) {
        Ok(()) => Ok(buf),
        Err(_) => Err(CryptoError::EncryptionFailed),
    }
}

/// Relies on String::from_utf8: succeeds exactly on valid UTF-8 and decodes
/// it; anything else is rejected.
#[verifier::external_body]
fn bytes_to_string(v: Vec<u8>) -> (r: Result<String, CryptoError>)
    ensures
        match r {
            Ok(s) => valid_utf8(v@) && s@ == decode_utf8(v@),
            Err(e) => !valid_utf8(v@) && e == CryptoError::DecryptionFailed,
        },
{
    String::from_utf8(v).map_err(|_| CryptoError::DecryptionFailed)
}

/// The 32-byte cipher key a hash string denotes: its first 32 bytes, zero
/// padded when it is shorter.
pub open spec fn key_from_hash(hb: Seq<u8>) -> Seq<u8> {
    if hb.len() >= 32 {
        hb.subrange(0, 32)
    } else {
        hb + Seq::new((32 - hb.len()) as nat, |i: int| 0u8)
    }
}

/// Derives the fixed-size cipher key from a hash string.
pub fn derive_key_from_hash(hash: &str) -> (r: Vec<u8>)
    ensures
        r@ == key_from_hash(hash.spec_bytes()),
        r@.len() == 32,
{
    let hb = hash.as_bytes();
    let n = hb.len();
    let m = if n < 32 {
        n
    } else {
        32
    };
    let mut key: Vec<u8> = Vec::new();
    let mut i: usize = 0;
    while i < m
        invariant
            0 <= i <= m,
            m <= n,
            n == hb@.len(),
            key@ == hb@.take(i as int),
        decreases m - i,
    {
        key.push(hb[i]);
        proof {
            assert(hb@.take(i + 1) =~= hb@.take(i as int).push(hb@[i as int]));
        }
        i = i + 1;
    }
    while key.len() < 32
        invariant
            m <= key@.len() <= 32,
            m <= n,
            n == hb@.len(),
            hb@ == hash.spec_bytes(),
            m == if n < 32 {
                n as int
            } else {
                32
            },
            forall|j: int| 0 <= j < m ==> key@[j] == hb@[j],
            forall|j: int| m <= j < key@.len() ==> key@[j] == 0u8,
        decreases 32 - key.len(),
    {
        key.push(0u8);
    }
    proof {
        assert(key@ =~= key_from_hash(hash.spec_bytes()));
    }
    key
}

/// What a stored blob opens to under a key: `None` when it is shorter than
/// the nonce plus one byte, else what its ciphertext authenticates to under
/// its leading nonce.
pub open spec fn spec_open_blob(key: Seq<u8>, blob: Seq<u8>) -> Option<Seq<u8>> {
    if blob.len() < 13 {
        None
    } else {
        aead_open_of(key, blob.subrange(0, 12), blob.subrange(12, blob.len() as int))
    }
}

/// What decrypting a blob under a hash string yields: the plaintext it
/// opens to, decoded as text; `None` when it does not open or is not text.
pub open spec fn spec_decrypt(hash: Seq<char>, blob: Seq<u8>) -> Option<Seq<char>> {
    match spec_open_blob(key_from_hash(encode_utf8(hash)), blob) {
        Some(pt) => if valid_utf8(pt) {
            Some(decode_utf8(pt))
        } else {
            None
        },
        None => None,
    }
}

/// The bytes of `b` from `from` to `to`.
fn copy_range(b: &[u8], from: usize, to: usize) -> (r: Vec<u8>)
    requires
        from <= to <= b@.len(),
    ensures
        r@ == b@.subrange(from as int, to as int),
{
    let mut r: Vec<u8> = Vec::new();
    let mut i: usize = from;
    while i < to
        invariant
            from <= i <= to,
            to <= b@.len(),
            r@ == b@.subrange(from as int, i as int),
        decreases to - i,
    {
        r.push(b[i]);
        proof {
            assert(b@.subrange(from as int, i + 1) =~= b@.subrange(from as int, i as int).push(
                b@[i as int],
            ));
        }
        i = i + 1;
    }
    r
}

/// Encrypts a plaintext string under the key a hash string derives:
/// a fresh random 96-bit nonce, then the ciphertext and tag. The blob it
/// returns decrypts back to the plaintext under the same hash string.
pub fn encrypt_string(hash: &str, plaintext: &str) -> (r: Result<Vec<u8>, CryptoError>)
    ensures
        match r {
            Ok(blob) => blob@.len() == plaintext.spec_bytes().len() + 28 && spec_decrypt(
                hash@,
                blob@,
            ) == Some(plaintext@),
            Err(e) => e == CryptoError::EncryptionFailed,
        },
{
    let key = derive_key_from_hash(hash);
    let nonce = match random_bytes(12) {
        Ok(v) => v,
        Err(e) => {
            return Err(e);
        },
    };
    let mut ct = match aead_encrypt(key.as_slice(), nonce.as_slice(), plaintext.as_bytes()) {
        Ok(c) => c,
        Err(e) => {
            return Err(e);
        },
    };
    let ghost nonce_v = nonce@;
    let ghost ct_v = ct@;
    let mut blob = nonce;
    blob.append(&mut ct);
    proof {
        assert(blob@.subrange(0, 12) =~= nonce_v);
        assert(blob@.subrange(12, blob@.len() as int) =~= ct_v);
        broadcast use vstd::utf8::encode_utf8_valid_utf8;
        broadcast use vstd::utf8::encode_utf8_decode_utf8;

        assert(spec_decrypt(hash@, blob@) == Some(plaintext@));
    }
    Ok(blob)
}

/// Decrypts a stored blob under the key a hash string derives. A blob
/// shorter than the nonce plus one byte is rejected before any cipher work;
/// a wrong key and a damaged blob fail one and the same way.
pub fn decrypt_string(hash: &str, ciphertext: &[u8]) -> (r: Result<String, CryptoError>)
    ensures
        match r {
            Ok(s) => spec_decrypt(hash@, ciphertext@) == Some(s@),
            Err(e) => spec_decrypt(hash@, ciphertext@) is None && e
                == CryptoError::DecryptionFailed,
        },
{
    let n = ciphertext.len();
    if n < 13 {
        return Err(CryptoError::DecryptionFailed);
    }
    let key = derive_key_from_hash(hash);
    let nonce = copy_range(ciphertext, 0, 12);
    let ct = copy_range(ciphertext, 12, n);
    match aead_decrypt(key.as_slice(), nonce.as_slice(), ct.as_slice()) {
        Ok(pt) => bytes_to_string(pt),
        Err(e) => Err(e),
    }
}

} // verus!
