//! The repository index: the ordered list of revision numbers that exist and
//! the active hash-scheme version.
//!
//! The index is the single source of truth for what is committed: a revision
//! file whose number the index does not hold is invisible. Commits append
//! `latest + 1`; forgetting keeps a suffix. The numbering laws at the bottom
//! show that revision numbers are handed out consecutively and never reused
//! as long as at least one revision is retained.

use vstd::prelude::*;

pub mod factory;

verus! {

/// The latest revision number: the last element, or 0 for an empty index.
pub open spec fn latest_spec(numbers: Seq<i32>) -> i32 {
    if numbers.len() == 0 {
        0
    } else {
        numbers.last()
    }
}

pub struct SerializableRepositoryV1 {
    pub revision_numbers: Vec<i32>,
}

pub trait Repository: Sized {
    /// The revision numbers the index holds, oldest first.
    spec fn numbers(&self) -> Seq<i32>;

    /// The active hash-scheme version.
    spec fn scheme_version(&self) -> int;

    fn revision_numbers(&self) -> (r: Vec<i32>)
        ensures
            r@ == self.numbers(),
    ;

    fn set_revision_numbers(&mut self, revision_numbers: &Vec<i32>)
        ensures
            final(self).numbers() == revision_numbers@,
            final(self).scheme_version() == old(self).scheme_version(),
    ;

    fn version(&self) -> (r: i32)
        ensures
            r as int == self.scheme_version(),
    ;

    fn latest_revision(&self) -> (r: i32)
        ensures
            r == latest_spec(self.numbers()),
    ;

    fn to_serializable_v1(&self) -> (r: SerializableRepositoryV1)
        ensures
            r.revision_numbers@ == self.numbers(),
    ;
}

pub struct RepositoryBase {
    pub revision_numbers: Vec<i32>,
    pub version: i32,
}

impl Repository for RepositoryBase {
    open spec fn numbers(&self) -> Seq<i32> {
        self.revision_numbers@
    }

    open spec fn scheme_version(&self) -> int {
        self.version as int
    }

    fn revision_numbers(&self) -> (r: Vec<i32>) {
        let r = self.revision_numbers.clone();
        assert(r@ =~= self.revision_numbers@);
        r
    }

    fn set_revision_numbers(&mut self, revision_numbers: &Vec<i32>) {
        let copy = revision_numbers.clone();
        assert(copy@ =~= revision_numbers@);
        self.revision_numbers = copy;
    }

    fn version(&self) -> (r: i32) {
        self.version
    }

    fn latest_revision(&self) -> (r: i32) {
        let count = self.revision_numbers.len();
        if count == 0 {
            return 0;
        }
        self.revision_numbers[count - 1]
    }

    fn to_serializable_v1(&self) -> (r: SerializableRepositoryV1) {
        let numbers = self.revision_numbers.clone();
        assert(numbers@ =~= self.revision_numbers@);
        SerializableRepositoryV1 { revision_numbers: numbers }
    }
}

impl RepositoryBase {
    pub fn from_serializable_v1(repository_v1: &SerializableRepositoryV1) -> (r: RepositoryBase)
        ensures
            r.revision_numbers@ == repository_v1.revision_numbers@,
            r.version == 1,
    {
        let numbers = repository_v1.revision_numbers.clone();
        assert(numbers@ =~= repository_v1.revision_numbers@);
        RepositoryBase { revision_numbers: numbers, version: 1 }
    }
}

/// An index whose numbers ascend by exactly one from the first: what commits
/// and forgets maintain.
pub open spec fn contiguous(numbers: Seq<i32>) -> bool {
    forall|i: int| 0 <= i < numbers.len() ==> #[trigger] numbers[i] == numbers[0] + i
}

/// What a forget that retains the newest `count` revisions leaves of the
/// index: the whole index when it already holds no more than `count`,
/// otherwise its last `count` elements.
pub open spec fn forgotten_numbers(numbers: Seq<i32>, count: int) -> Seq<i32> {
    if numbers.len() - count <= 0 {
        numbers
    } else {
        numbers.skip(numbers.len() - count)
    }
}

/// Revision numbering under commits: a commit appends `latest + 1`, which is
/// strictly greater than every number already present, so consecutive commits
/// are numbered 1, 2, 3, … and a number is never assigned twice.
pub proof fn lemma_commit_numbering(numbers: Seq<i32>)
    requires
        contiguous(numbers),
        latest_spec(numbers) < i32::MAX,
    ensures
        contiguous(numbers.push((latest_spec(numbers) + 1) as i32)),
        latest_spec(numbers.push((latest_spec(numbers) + 1) as i32)) == latest_spec(numbers) + 1,
        forall|k: int|
            0 <= k < numbers.len() ==> #[trigger] numbers[k] < latest_spec(numbers) + 1,
{
    let next = (latest_spec(numbers) + 1) as i32;
    let pushed = numbers.push(next);
    if numbers.len() == 0 {
        assert(forall|i: int| 0 <= i < pushed.len() ==> #[trigger] pushed[i] == pushed[0] + i);
    } else {
        assert(numbers.last() == numbers[0] + numbers.len() - 1);
        assert(forall|i: int| 0 <= i < pushed.len() ==> #[trigger] pushed[i] == pushed[0] + i);
    }
}

/// Revision numbering under forgets: retaining at least one revision keeps a
/// suffix of the index unchanged, so the latest number is preserved, nothing
/// is renumbered, and no number is invented.
pub proof fn lemma_forget_numbering(numbers: Seq<i32>, count: int)
    requires
        contiguous(numbers),
        count >= 1,
    ensures
        contiguous(forgotten_numbers(numbers, count)),
        latest_spec(forgotten_numbers(numbers, count)) == latest_spec(numbers),
        forall|k: int|
            0 <= k < forgotten_numbers(numbers, count).len() ==> numbers.contains(
                #[trigger] forgotten_numbers(numbers, count)[k],
            ),
{
    let kept = forgotten_numbers(numbers, count);
    if numbers.len() - count > 0 {
        let dropped = numbers.len() - count;
        assert(kept.len() == count);
        assert(forall|i: int| 0 <= i < kept.len() ==> #[trigger] kept[i] == numbers[dropped + i]);
        assert(kept[0] == numbers[0] + dropped);
        assert(kept.last() == numbers.last());
        assert(forall|k: int|
            0 <= k < kept.len() ==> numbers.contains(#[trigger] kept[k])) by {
            assert(forall|k: int|
                0 <= k < kept.len() ==> #[trigger] kept[k] == numbers[dropped + k]);
        }
    } else {
        assert(forall|k: int|
            0 <= k < kept.len() ==> numbers.contains(#[trigger] kept[k])) by {
            assert(forall|k: int| 0 <= k < kept.len() ==> #[trigger] kept[k] == numbers[k]);
        }
    }
}

} // verus!
