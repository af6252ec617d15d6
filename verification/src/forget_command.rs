//! Forgetting old revisions and collecting their garbage.
//!
//! `forget N` truncates the index to its newest `N` revisions, then sweeps:
//! a revision file is deleted exactly when its parsed number is no longer in
//! the index (an unparsable name is kept, failing safe toward non-deletion),
//! and an object is deleted exactly when no retained revision references its
//! hash.

use vstd::prelude::*;

use crate::repository::Repository;
use crate::repository::forgotten_numbers;
use crate::revision::Revision;
use crate::strutil::parse_i32;
use crate::strutil::parse_i32_spec;

verus! {

pub struct ForgetCommand {
    pub revision_count: i32,
}

impl ForgetCommand {
    pub fn new(revision_count: i32) -> (r: ForgetCommand)
        ensures
            r.revision_count == revision_count,
    {
        ForgetCommand { revision_count }
    }
}

/// Truncates the index to its newest `revision_count` entries; an index that
/// already holds no more than that is left alone. Returns whether anything
/// was dropped.
pub fn apply_forget<R: Repository>(repository: &mut R, revision_count: i32) -> (changed: bool)
    requires
        revision_count >= 0,
        old(repository).numbers().len() <= i32::MAX,
    ensures
        final(repository).numbers() == forgotten_numbers(
            old(repository).numbers(),
            revision_count as int,
        ),
        final(repository).scheme_version() == old(repository).scheme_version(),
        changed == (old(repository).numbers().len() > revision_count),
{
    let mut numbers = repository.revision_numbers();
    let current_count: i64 = numbers.len() as i64;
    let removed_count: i64 = current_count - (revision_count as i64);
    if removed_count <= 0 {
        proof {
            assert(forgotten_numbers(old(repository).numbers(), revision_count as int)
                == old(repository).numbers());
        }
        return false;
    }
    let index: usize = removed_count as usize;
    let tail = numbers.split_off(index);
    repository.set_revision_numbers(&tail);
    proof {
        assert(tail@ =~= forgotten_numbers(old(repository).numbers(), revision_count as int));
    }
    true
}

/// Whether the index holds a revision number.
pub fn contains_revision_number(numbers: &Vec<i32>, n: i32) -> (r: bool)
    ensures
        r == numbers@.contains(n),
{
    let mut i: usize = 0;
    while i < numbers.len()
        invariant
            i <= numbers@.len(),
            forall|j: int| 0 <= j < i ==> numbers@[j] != n,
        decreases numbers@.len() - i,
    {
        if numbers[i] == n {
            return true;
        }
        i = i + 1;
    }
    false
}

/// Whether a revision file with this stem survives the sweep: an unparsable
/// stem is kept, a parsed number is kept exactly when the index holds it.
pub open spec fn revision_kept(stem: Seq<char>, numbers: Seq<i32>) -> bool {
    match parse_i32_spec(stem) {
        Some(n) => numbers.contains(n),
        None => true,
    }
}

pub fn revision_file_keep(file_stem: &str, revision_numbers: &Vec<i32>) -> (r: bool)
    ensures
        r == revision_kept(file_stem@, revision_numbers@),
{
    match parse_i32(file_stem) {
        Some(n) => contains_revision_number(revision_numbers, n),
        None => true,
    }
}

/// Whether any revision's entries reference the hash.
pub open spec fn referenced_spec(revisions: Seq<Revision>, hash: Seq<char>) -> bool {
    exists|i: int, j: int|
        0 <= i < revisions.len() && 0 <= j < revisions[i].entries@.len() && (#[trigger] revisions[i].entries@[j]).hash@ == hash
}

pub fn is_referenced(revisions: &Vec<Revision>, hash: &String) -> (r: bool)
    ensures
        r == referenced_spec(revisions@, hash@),
{
    let mut i: usize = 0;
    while i < revisions.len()
        invariant
            i <= revisions@.len(),
            forall|a: int, b: int|
                0 <= a < i && 0 <= b < revisions@[a].entries@.len() ==> (
                #[trigger] revisions@[a].entries@[b]).hash@ != hash@,
        decreases revisions@.len() - i,
    {
        let entries = &revisions[i].entries;
        let mut j: usize = 0;
        while j < entries.len()
            invariant
                i < revisions@.len(),
                j <= entries@.len(),
                entries@ == revisions@[i as int].entries@,
                forall|b: int|
                    0 <= b < j ==> (#[trigger] revisions@[i as int].entries@[b]).hash@ != hash@,
            decreases entries@.len() - j,
        {
            if entries[j].hash == *hash {
                proof {
                    assert(revisions@[i as int].entries@[j as int].hash@ == hash@);
                }
                return true;
            }
            j = j + 1;
        }
        i = i + 1;
    }
    false
}

/// Collects every hash the given revisions' entries reference: the mark set
/// of the sweep. A hash is in the result exactly when some entry carries it.
pub fn referenced_hashes(revisions: &Vec<Revision>) -> (r: Vec<String>)
    ensures
        forall|h: Seq<char>| #[trigger]
            r.deep_view().contains(h) <==> referenced_spec(revisions@, h),
{
    let mut r: Vec<String> = Vec::new();
    let mut i: usize = 0;
    while i < revisions.len()
        invariant
            i <= revisions@.len(),
            forall|k: int|
                0 <= k < r.deep_view().len() ==> referenced_spec(
                    revisions@,
                    #[trigger] r.deep_view()[k],
                ),
            forall|a: int, b: int|
                0 <= a < i && 0 <= b < revisions@[a].entries@.len() ==> r.deep_view().contains(
                    (#[trigger] revisions@[a].entries@[b]).hash@,
                ),
        decreases revisions@.len() - i,
    {
        let entries = &revisions[i].entries;
        let mut j: usize = 0;
        while j < entries.len()
            invariant
                i < revisions@.len(),
                j <= entries@.len(),
                entries@ == revisions@[i as int].entries@,
                forall|k: int|
                    0 <= k < r.deep_view().len() ==> referenced_spec(
                        revisions@,
                        #[trigger] r.deep_view()[k],
                    ),
                forall|a: int, b: int|
                    0 <= a < i && 0 <= b < revisions@[a].entries@.len() ==> r.deep_view().contains(
                        (#[trigger] revisions@[a].entries@[b]).hash@,
                    ),
                forall|b: int|
                    0 <= b < j ==> r.deep_view().contains(
                        (#[trigger] revisions@[i as int].entries@[b]).hash@,
                    ),
            decreases entries@.len() - j,
        {
            let ghost before = r.deep_view();
            let hash = entries[j].hash.clone();
            r.push(hash);
            proof {
                assert(r.deep_view() =~~= before.push(
                    revisions@[i as int].entries@[j as int].hash@,
                ));
                assert(referenced_spec(revisions@, revisions@[i as int].entries@[j as int].hash@));
                assert(forall|k: int| 0 <= k < before.len() ==> r.deep_view()[k] == before[k]);
                assert forall|a: int, b: int|
                    0 <= a < i && 0 <= b < revisions@[a].entries@.len() implies r.deep_view(
                ).contains((#[trigger] revisions@[a].entries@[b]).hash@) by {
                    let k = choose|k: int|
                        0 <= k < before.len() && before[k] == revisions@[a].entries@[b].hash@;
                    assert(r.deep_view()[k] == revisions@[a].entries@[b].hash@);
                }
                assert forall|b: int| 0 <= b < j + 1 implies r.deep_view().contains(
                    (#[trigger] revisions@[i as int].entries@[b]).hash@,
                ) by {
                    if b < j {
                        let k = choose|k: int|
                            0 <= k < before.len() && before[k]
                                == revisions@[i as int].entries@[b].hash@;
                        assert(r.deep_view()[k] == revisions@[i as int].entries@[b].hash@);
                    } else {
                        assert(r.deep_view()[before.len() as int]
                            == revisions@[i as int].entries@[b].hash@);
                    }
                }
            }
            j = j + 1;
        }
        i = i + 1;
    }
    proof {
        assert forall|h: Seq<char>| #[trigger]
            r.deep_view().contains(h) <==> referenced_spec(revisions@, h) by {
            if r.deep_view().contains(h) {
                let k = choose|k: int| 0 <= k < r.deep_view().len() && r.deep_view()[k] == h;
                assert(referenced_spec(revisions@, r.deep_view()[k]));
            }
            if referenced_spec(revisions@, h) {
                let (a, b): (int, int) = choose|a: int, b: int|
                    0 <= a < revisions@.len() && 0 <= b < revisions@[a].entries@.len() && (
                    #[trigger] revisions@[a].entries@[b]).hash@ == h;
                assert(r.deep_view().contains(revisions@[a].entries@[b].hash@));
            }
        }
    }
    r
}

/// The hashes among `present` that no revision references, in their original
/// order: exactly what the sweep deletes.
pub open spec fn unreferenced_spec(present: Seq<Seq<char>>, revisions: Seq<Revision>) -> Seq<
    Seq<char>,
>
    decreases present.len(),
{
    if present.len() == 0 {
        Seq::empty()
    } else {
        let head = if !referenced_spec(revisions, present[0]) {
            seq![present[0]]
        } else {
            Seq::<Seq<char>>::empty()
        };
        head + unreferenced_spec(present.drop_first(), revisions)
    }
}

pub proof fn lemma_unreferenced_contains(
    present: Seq<Seq<char>>,
    revisions: Seq<Revision>,
    h: Seq<char>,
)
    ensures
        unreferenced_spec(present, revisions).contains(h) <==> (present.contains(h)
            && !referenced_spec(revisions, h)),
    decreases present.len(),
{
    if present.len() > 0 {
        lemma_unreferenced_contains(present.drop_first(), revisions, h);
        let u = unreferenced_spec(present, revisions);
        let rest = unreferenced_spec(present.drop_first(), revisions);
        if u.contains(h) {
            let k = choose|k: int| 0 <= k < u.len() && u[k] == h;
            if !referenced_spec(revisions, present[0]) && k == 0 {
                assert(present[0] == h);
                assert(present.contains(h));
            } else {
                assert(rest.contains(h));
                let k2 = choose|k2: int|
                    0 <= k2 < present.drop_first().len() && present.drop_first()[k2] == h;
                assert(present[k2 + 1] == h);
            }
        }
        if present.contains(h) && !referenced_spec(revisions, h) {
            let k = choose|k: int| 0 <= k < present.len() && present[k] == h;
            if k == 0 {
                assert(u[0] == h);
            } else {
                assert(present.drop_first()[k - 1] == h);
                assert(present.drop_first().contains(h));
                assert(rest.contains(h));
                let k2 = choose|k2: int| 0 <= k2 < rest.len() && rest[k2] == h;
                let head_len = u.len() - rest.len();
                assert(u[k2 + head_len] == h);
            }
        }
    }
}

/// Plans the object sweep: the present hashes that no retained revision
/// references. A hash is in the plan exactly when it is present and
/// unreferenced; everything referenced stays.
pub fn unreferenced_objects(present: &Vec<String>, revisions: &Vec<Revision>) -> (r: Vec<String>)
    ensures
        r.deep_view() == unreferenced_spec(present.deep_view(), revisions@),
        forall|h: Seq<char>| #[trigger]
            r.deep_view().contains(h) <==> (present.deep_view().contains(h) && !referenced_spec(
                revisions@,
                h,
            )),
{
    let ghost pdeep = present.deep_view();
    let mut r: Vec<String> = Vec::new();
    let mut i: usize = 0;
    proof {
        assert(pdeep.skip(0) =~= pdeep);
        assert(pdeep =~= Seq::new(present@.len() as nat, |k: int| present@[k]@));
        assert(r.deep_view() + unreferenced_spec(pdeep.skip(0), revisions@) =~~= unreferenced_spec(
            pdeep,
            revisions@,
        ));
    }
    while i < present.len()
        invariant
            i <= present@.len(),
            pdeep == present.deep_view(),
            pdeep.len() == present@.len(),
            forall|k: int| 0 <= k < pdeep.len() ==> #[trigger] pdeep[k] == present@[k]@,
            unreferenced_spec(pdeep, revisions@) =~~= r.deep_view() + unreferenced_spec(
                pdeep.skip(i as int),
                revisions@,
            ),
        decreases present@.len() - i,
    {
        proof {
            assert(pdeep.skip(i as int).len() > 0);
            assert(pdeep.skip(i as int)[0] == pdeep[i as int]);
            assert(pdeep.skip(i as int).drop_first() =~= pdeep.skip(i + 1));
        }
        let ghost before = r.deep_view();
        if !is_referenced(revisions, &present[i]) {
            let h = present[i].clone();
            r.push(h);
            proof {
                assert(r.deep_view() =~~= before.push(present@[i as int]@));
            }
        }
        proof {
            assert(unreferenced_spec(pdeep, revisions@) =~~= r.deep_view() + unreferenced_spec(
                pdeep.skip(i + 1),
                revisions@,
            ));
        }
        i = i + 1;
    }
    proof {
        assert(pdeep.skip(pdeep.len() as int) =~= Seq::<Seq<char>>::empty());
        assert(r.deep_view() =~~= unreferenced_spec(pdeep, revisions@));
        assert forall|h: Seq<char>| #[trigger]
            r.deep_view().contains(h) <==> (pdeep.contains(h) && !referenced_spec(
                revisions@,
                h,
            )) by {
            lemma_unreferenced_contains(pdeep, revisions@, h);
        }
    }
    r
}

} // verus!
