//! Zlib compression of object payloads.
//!
//! Every stored object is one zlib stream; decompressing what `zlib_compress`
//! produced yields the original bytes again, which the round-trip contracts
//! of the object store build on.

use vstd::prelude::*;

use std::io::Write;

use crate::error::CODE_LOADING_FILE_FAILED;
use crate::error::ZatsuError;

verus! {

/// The zlib stream that compressing a byte string at the default level
/// produces; a function of the bytes alone.
pub uninterp spec fn deflate_of(bytes: Seq<u8>) -> Seq<u8>;

/// What decompressing a byte string yields: the decoded bytes for a valid
/// zlib stream, nothing otherwise.
pub uninterp spec fn inflate_of(bytes: Seq<u8>) -> Option<Seq<u8>>;

/// Relies on flate2::write::ZlibEncoder at the default compression level:
/// emits one zlib stream, a function of the input bytes alone, whose
/// decompression yields exactly the input. The encoder writes into an
/// in-memory Vec, whose Write impl never errors, so compression always
/// succeeds.
#[verifier::external_body]
pub(crate) fn zlib_compress(values: &Vec<u8>) -> (r: Vec<u8>)
    ensures
        r@ == deflate_of(values@),
        inflate_of(r@) == Some(values@),
{
    let mut encoder = flate2::write::ZlibEncoder::new(Vec::new(), flate2::Compression::default());
    encoder.write_all(values.as_slice()).expect("writing into a Vec sink cannot fail");
    encoder.finish().expect("finishing into a Vec sink cannot fail")
}

/// Relies on flate2::write::ZlibDecoder: whether decoding succeeds, and the
/// decoded bytes when it does, depend on the input bytes alone.
#[verifier::external_body]
pub(crate) fn zlib_decompress(values: &Vec<u8>) -> (r: Result<Vec<u8>, ZatsuError>)
    ensures
        match r {
            Ok(v) => inflate_of(values@) == Some(v@),
            Err(e) => inflate_of(values@) is None && e.code == CODE_LOADING_FILE_FAILED,
        },
{
    let mut decoder = flate2::write::ZlibDecoder::new(Vec::new());
    if decoder.write_all(values.as_slice()).is_err() {
        return Err(ZatsuError::new(CODE_LOADING_FILE_FAILED));
    }
    match decoder.finish() {
        Ok(decoded) => Ok(decoded),
        Err(_) => Err(ZatsuError::new(CODE_LOADING_FILE_FAILED)),
    }
}

} // verus!
