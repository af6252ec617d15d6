//! Construction of repository index values, and the interpretation of the
//! version marker text that is read before the serialized index.

use vstd::prelude::*;

use crate::repository::RepositoryBase;
use crate::strutil::parse_i32;
use crate::strutil::parse_i32_spec;
use crate::strutil::remove_char;
use crate::strutil::remove_char_string;

verus! {

pub fn new(version: i32) -> (r: RepositoryBase)
    ensures
        r.revision_numbers@ == Seq::<i32>::empty(),
        r.version == version,
{
    let r = RepositoryBase { revision_numbers: Vec::new(), version };
    assert(r.revision_numbers@ =~= Seq::<i32>::empty());
    r
}

pub fn with_arguments(revision_numbers: &Vec<i32>, version: i32) -> (r: RepositoryBase)
    ensures
        r.revision_numbers@ == revision_numbers@,
        r.version == version,
{
    let numbers = revision_numbers.clone();
    assert(numbers@ =~= revision_numbers@);
    RepositoryBase { revision_numbers: numbers, version }
}

/// The scheme version a marker file's text denotes: its integer value with
/// newlines removed, or 1 where the text is not a number.
pub open spec fn version_of_text(s: Seq<char>) -> i32 {
    match parse_i32_spec(remove_char(s, '\n')) {
        Some(v) => v,
        None => 1,
    }
}

pub fn version_from_text(text: &str) -> (r: i32)
    ensures
        r == version_of_text(text@),
{
    let cleaned = remove_char_string(text, '\n');
    match parse_i32(cleaned.as_str()) {
        Some(v) => v,
        None => 1,
    }
}

} // verus!
