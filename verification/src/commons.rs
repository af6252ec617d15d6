//! Content addressing shared by every command: the object hash of a payload
//! under a scheme version, and the sharded paths under which objects and
//! revisions are stored.

use vstd::prelude::*;

use crate::digest::bytes_to_hex;
use crate::digest::sha1_digest;
use crate::digest::sha1_of;
use crate::digest::sha256_digest;
use crate::digest::sha256_of;
use crate::strutil::hex_of;
use crate::strutil::hex_of_byte;
use crate::strutil::int_text;
use crate::strutil::lemma_hex_of_len;
use crate::strutil::push_byte_hex;
use crate::strutil::push_char;

verus! {

/// The content hash of a payload: lowercase hex of its SHA-1 digest under
/// scheme version 1, of its SHA-256 digest under any later scheme.
pub open spec fn object_hash_spec(bytes: Seq<u8>, version: int) -> Seq<char> {
    if version <= 1 {
        hex_of(sha1_of(bytes))
    } else {
        hex_of(sha256_of(bytes))
    }
}

pub fn object_hash(values: &Vec<u8>, version: i32) -> (r: String)
    ensures
        r@ == object_hash_spec(values@, version as int),
        version <= 1 ==> r@.len() == 40,
        version > 1 ==> r@.len() == 64,
{
    if version <= 1 {
        let digest = sha1_digest(values);
        proof {
            lemma_hex_of_len(sha1_of(values@));
        }
        bytes_to_hex(&digest)
    } else {
        let digest = sha256_digest(values);
        proof {
            lemma_hex_of_len(sha256_of(values@));
        }
        bytes_to_hex(&digest)
    }
}

/// The shard directory of an object: the store's objects tree plus the first
/// two hex digits of the hash.
pub open spec fn object_directory_spec(hash: Seq<char>) -> Seq<char> {
    ".zatsu/objects/"@ + hash.take(2)
}

/// The full path of an object file under its shard directory.
pub open spec fn object_path_spec(hash: Seq<char>) -> Seq<char> {
    object_directory_spec(hash) + seq!['/'] + hash
}

pub fn object_directory_path(hash: &String) -> (r: String)
    requires
        hash@.len() >= 2,
    ensures
        r@ == object_directory_spec(hash@),
{
    let mut r = String::from_str(".zatsu/objects/");
    let shard = hash.as_str().substring_char(0, 2);
    r.append(shard);
    r
}

pub fn object_file_path(hash: &String) -> (r: String)
    requires
        hash@.len() >= 2,
    ensures
        r@ == object_path_spec(hash@),
{
    let mut r = object_directory_path(hash);
    push_char(&mut r, '/');
    r.append(hash.as_str());
    assert(r@ =~= object_path_spec(hash@));
    r
}

/// The stored form a payload takes under a scheme: its content hash and its
/// zlib-compressed bytes, ready for deduplicated placement.
pub fn prepare_object(values: &Vec<u8>, version: i32) -> (r: crate::store::StoredObject)
    ensures
        r.hash@ == object_hash_spec(values@, version as int),
        r.data@ == crate::compress::deflate_of(values@),
        crate::compress::inflate_of(r.data@) == Some(values@),
        r.hash@.len() >= 2,
{
    let hash = object_hash(values, version);
    let data = crate::compress::zlib_compress(values);
    crate::store::StoredObject { hash, data }
}

/// Decompresses one stored object's bytes; fails exactly on data that is not
/// a valid zlib stream.
pub fn decode_object(data: &Vec<u8>) -> (r: Result<Vec<u8>, crate::error::ZatsuError>)
    ensures
        match r {
            Ok(v) => crate::compress::inflate_of(data@) == Some(v@),
            Err(e) => crate::compress::inflate_of(data@) is None && e.code
                == crate::error::CODE_LOADING_FILE_FAILED,
        },
{
    crate::compress::zlib_decompress(data)
}

/// The shard directory of a revision: the revisions tree plus the low byte
/// of the revision number as two hex digits.
pub open spec fn revision_directory_spec(revision_number: i32) -> Seq<char> {
    ".zatsu/revisions/"@ + hex_of_byte((revision_number & 0xff) as u8)
}

/// The full path of a revision file under its shard directory.
pub open spec fn revision_path_spec(revision_number: i32) -> Seq<char> {
    revision_directory_spec(revision_number) + seq!['/'] + int_text(revision_number as int)
        + ".json"@
}

pub fn revision_directory_path(revision_number: i32) -> (r: String)
    ensures
        r@ == revision_directory_spec(revision_number),
{
    proof {
        assert(0 <= revision_number & 0xff < 256) by (bit_vector);
    }
    let low = (revision_number & 0xff) as u8;
    let mut r = String::from_str(".zatsu/revisions/");
    push_byte_hex(&mut r, low);
    r
}

pub fn revision_file_path(revision_number: i32) -> (r: String)
    ensures
        r@ == revision_path_spec(revision_number),
{
    let mut r = revision_directory_path(revision_number);
    push_char(&mut r, '/');
    let number_text = crate::strutil::i32_string(revision_number);
    r.append(number_text.as_str());
    r.append(".json");
    assert(r@ =~= revision_path_spec(revision_number));
    r
}

} // verus!
