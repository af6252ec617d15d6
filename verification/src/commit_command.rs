//! The snapshot builder: a commit drains the working-tree walk, stores each
//! file's content as an object, assembles the entries into a revision, and
//! appends the next revision number to the index.

use vstd::prelude::*;

use crate::entry::Entry;
use crate::repository::Repository;
use crate::repository::latest_spec;

verus! {

/// The permission bits every committed entry records.
pub const DEFAULT_PERMISSION: i32 = 0o644;

pub struct CommitCommand {}

impl CommitCommand {
    pub fn new() -> CommitCommand {
        CommitCommand {}
    }
}

/// The number the next commit receives: one past the latest.
pub fn next_revision_number<R: Repository>(repository: &R) -> (n: i32)
    requires
        latest_spec(repository.numbers()) < i32::MAX,
    ensures
        n == latest_spec(repository.numbers()) + 1,
{
    repository.latest_revision() + 1
}

/// Appends the next revision number to the index and returns it; the scheme
/// version is untouched.
pub fn record_commit<R: Repository>(repository: &mut R) -> (n: i32)
    requires
        latest_spec(old(repository).numbers()) < i32::MAX,
        old(repository).numbers().len() < usize::MAX,
    ensures
        n == latest_spec(old(repository).numbers()) + 1,
        final(repository).numbers() == old(repository).numbers().push(n),
        final(repository).scheme_version() == old(repository).scheme_version(),
{
    let latest = repository.latest_revision();
    let n = latest + 1;
    let mut numbers = repository.revision_numbers();
    numbers.push(n);
    repository.set_revision_numbers(&numbers);
    n
}

/// The entry one committed file becomes, under the default permission bits.
pub fn file_entry(path: String, hash: String) -> (r: Entry)
    ensures
        r.path == path,
        r.hash == hash,
        r.permission == DEFAULT_PERMISSION,
{
    Entry { path, hash, permission: DEFAULT_PERMISSION }
}

} // verus!
