//! One file within a revision: its relative path, the hash of its content
//! object, and its permission bits.

use vstd::prelude::*;

verus! {

#[derive(Debug)]
pub struct Entry {
    pub path: String,
    pub hash: String,
    pub permission: i32,
}

impl Entry {
    /// A field-for-field copy of this entry.
    pub fn duplicate(&self) -> (r: Entry)
        ensures
            r.path == self.path,
            r.hash == self.hash,
            r.permission == self.permission,
    {
        Entry { path: self.path.clone(), hash: self.hash.clone(), permission: self.permission }
    }
}

} // verus!
