//! Base64 text encoding of binary material: public keys, encrypted blobs
//! and context digests are all persisted as base64 text.

use vstd::prelude::*;
use base64::Engine;

verus! {

/// The base64 text of a byte sequence, in the standard alphabet with
/// padding.
pub uninterp spec fn b64_of(bytes: Seq<u8>) -> Seq<char>;

/// The bytes a base64 text denotes, or `None` when no byte sequence
/// encodes to it.
pub uninterp spec fn b64_decode_of(s: Seq<char>) -> Option<Seq<u8>>;

/// Relies on base64's STANDARD engine encode: deterministic in the input
/// bytes, and decoding its output gives the input back.
#[verifier::external_body]
pub fn b64_encode(bytes: &[u8]) -> (r: String)
    ensures
        r@ == b64_of(bytes@),
        b64_decode_of(r@) == Some(bytes@),
{
    base64::engine::general_purpose::STANDARD.encode(bytes)
}

/// Relies on base64's STANDARD engine decode: deterministic in the input
/// text, and strict, rejecting what no byte sequence encodes to.
#[verifier::external_body]
pub fn b64_decode(s: &str) -> (r: Option<Vec<u8>>)
    ensures
        match r {
            Some(v) => b64_decode_of(s@) == Some(v@),
            None => b64_decode_of(s@) is None,
        },
{
    match base64::engine::general_purpose::STANDARD.decode(s) {
        Ok(v) => Some(v),
        Err(_) => None,
    }
}

} // verus!
