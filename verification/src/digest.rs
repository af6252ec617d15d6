//! Content digests and their hex rendering.
//!
//! The store addresses an object by the lowercase hex of its digest: SHA-1
//! under scheme version 1, SHA-256 under version 2 and later.

use vstd::prelude::*;

use sha1::Digest;

use crate::strutil::hex_of;

verus! {

/// The SHA-1 digest of a byte string; a function of the bytes alone.
pub uninterp spec fn sha1_of(bytes: Seq<u8>) -> Seq<u8>;

/// The SHA-256 digest of a byte string; a function of the bytes alone.
pub uninterp spec fn sha256_of(bytes: Seq<u8>) -> Seq<u8>;

/// Relies on sha1::Sha1 through the Digest trait: returns the 20-byte SHA-1
/// digest, which depends on the input bytes alone.
#[verifier::external_body]
pub(crate) fn sha1_digest(values: &Vec<u8>) -> (r: Vec<u8>)
    ensures
        r@ == sha1_of(values@),
        r@.len() == 20,
{
    let mut hasher = sha1::Sha1::new();
    hasher.update(values.as_slice());
    hasher.finalize().to_vec()
}

/// Relies on sha2::Sha256 through the Digest trait: returns the 32-byte
/// SHA-256 digest, which depends on the input bytes alone.
#[verifier::external_body]
pub(crate) fn sha256_digest(values: &Vec<u8>) -> (r: Vec<u8>)
    ensures
        r@ == sha256_of(values@),
        r@.len() == 32,
{
    let mut hasher = sha2::Sha256::new();
    hasher.update(values.as_slice());
    hasher.finalize().to_vec()
}

/// Relies on hex_string::HexString::from_bytes and as_string: renders each
/// byte as two lowercase hex digits, high nibble first.
#[verifier::external_body]
pub(crate) fn bytes_to_hex(values: &Vec<u8>) -> (r: String)
    ensures
        r@ == hex_of(values@),
{
    hex_string::HexString::from_bytes(values).as_string()
}

} // verus!
