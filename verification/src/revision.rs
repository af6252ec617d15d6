//! One immutable full-tree snapshot: a commit timestamp in milliseconds, the
//! list of entries taken, and a reserved description text.
//!
//! Reading and writing the revision's on-disk JSON form is the caller's
//! business; this type is the value those files carry.

use vstd::prelude::*;

use crate::entry::Entry;

verus! {

#[derive(Debug)]
pub struct Revision {
    pub commited: i64,
    pub entries: Vec<Entry>,
    pub description: String,
}

impl Revision {
    /// A fresh revision with the given timestamp and entries and an empty
    /// description, as a commit assembles it.
    pub fn with_entries(commited: i64, entries: Vec<Entry>) -> (r: Revision)
        ensures
            r.commited == commited,
            r.entries == entries,
            r.description@ == Seq::<char>::empty(),
    {
        Revision { commited, entries, description: String::new() }
    }
}

} // verus!
