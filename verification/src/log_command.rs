//! The revision log and its diff engine.
//!
//! History is rendered newest first; each revision is compared with its
//! immediate predecessor and every file is reported as added, modified or
//! deleted. The change set is defined by `change_lines`; bucketing entries by
//! their first path character (`divided_entries`) is a lookup shortcut that
//! leaves the change set untouched.

use vstd::prelude::*;

use crate::entry::Entry;
use crate::strutil::int_text;
use crate::strutil::push_char;

verus! {

pub struct LogCommand {}

impl LogCommand {
    pub fn new() -> LogCommand {
        LogCommand {}
    }
}

/// The hash of the first entry carrying the given path.
pub open spec fn find_hash_spec(entries: Seq<Entry>, path: Seq<char>) -> Option<Seq<char>>
    decreases entries.len(),
{
    if entries.len() == 0 {
        None
    } else if entries[0].path@ == path {
        Some(entries[0].hash@)
    } else {
        find_hash_spec(entries.drop_first(), path)
    }
}

pub fn find_hash(entries: &Vec<Entry>, path: &String) -> (r: Option<String>)
    ensures
        match r {
            Some(h) => find_hash_spec(entries@, path@) == Some(h@),
            None => find_hash_spec(entries@, path@) is None,
        },
{
    let mut i: usize = 0;
    proof {
        assert(entries@.skip(0) =~= entries@);
    }
    while i < entries.len()
        invariant
            i <= entries@.len(),
            find_hash_spec(entries@, path@) == find_hash_spec(entries@.skip(i as int), path@),
        decreases entries@.len() - i,
    {
        proof {
            assert(entries@.skip(i as int).len() > 0);
            assert(entries@.skip(i as int)[0] == entries@[i as int]);
            assert(entries@.skip(i as int).drop_first() =~= entries@.skip(i + 1));
        }
        if entries[i].path == *path {
            return Some(entries[i].hash.clone());
        }
        i = i + 1;
    }
    proof {
        assert(entries@.skip(entries@.len() as int) =~= Seq::<Entry>::empty());
    }
    None
}

/// One rendered change: its tag, a space, the path.
pub open spec fn change_line(tag: char, path: Seq<char>) -> Seq<char> {
    seq![tag, ' '] + path
}

fn make_change_line(tag: char, path: &String) -> (r: String)
    ensures
        r@ == change_line(tag, path@),
{
    let mut r = String::new();
    push_char(&mut r, tag);
    push_char(&mut r, ' ');
    r.append(path.as_str());
    assert(r@ =~= change_line(tag, path@));
    r
}

/// The lines the newer entries contribute, in entry order: `M` for a path
/// whose hash changed, `A` for a path the predecessor does not know.
pub open spec fn upsert_lines(entries: Seq<Entry>, previous: Seq<Entry>) -> Seq<Seq<char>>
    decreases entries.len(),
{
    if entries.len() == 0 {
        Seq::empty()
    } else {
        let head = match find_hash_spec(previous, entries[0].path@) {
            Some(h) => if h != entries[0].hash@ {
                seq![change_line('M', entries[0].path@)]
            } else {
                Seq::empty()
            },
            None => seq![change_line('A', entries[0].path@)],
        };
        head + upsert_lines(entries.drop_first(), previous)
    }
}

/// The `D` lines: one for each older entry whose path no longer appears.
pub open spec fn deleted_lines(entries: Seq<Entry>, previous: Seq<Entry>) -> Seq<Seq<char>>
    decreases previous.len(),
{
    if previous.len() == 0 {
        Seq::empty()
    } else {
        let head = if find_hash_spec(entries, previous[0].path@) is None {
            seq![change_line('D', previous[0].path@)]
        } else {
            Seq::empty()
        };
        head + deleted_lines(entries, previous.drop_first())
    }
}

/// The full change set from `previous` to `entries`.
pub open spec fn change_lines(entries: Seq<Entry>, previous: Seq<Entry>) -> Seq<Seq<char>> {
    upsert_lines(entries, previous) + deleted_lines(entries, previous)
}

/// Appends the change set from `previous_entries` to `entries` to the given
/// line list.
pub fn update_changes(
    changes: &mut Vec<String>,
    entries: &Vec<Entry>,
    previous_entries: &Vec<Entry>,
)
    ensures
        final(changes).deep_view() == old(changes).deep_view() + change_lines(
            entries@,
            previous_entries@,
        ),
{
    let ghost base = old(changes).deep_view();
    let ghost up_all = upsert_lines(entries@, previous_entries@);
    let mut i: usize = 0;
    proof {
        assert(entries@.skip(0) =~= entries@);
        assert(base + upsert_lines(entries@.skip(0), previous_entries@) =~~= base + up_all);
    }
    while i < entries.len()
        invariant
            i <= entries@.len(),
            base + up_all =~~= changes.deep_view() + upsert_lines(
                entries@.skip(i as int),
                previous_entries@,
            ),
        decreases entries@.len() - i,
    {
        proof {
            assert(entries@.skip(i as int).len() > 0);
            assert(entries@.skip(i as int)[0] == entries@[i as int]);
            assert(entries@.skip(i as int).drop_first() =~= entries@.skip(i + 1));
        }
        let ghost before = changes.deep_view();
        match find_hash(previous_entries, &entries[i].path) {
            Some(previous_hash) => {
                if previous_hash != entries[i].hash {
                    let line = make_change_line('M', &entries[i].path);
                    changes.push(line);
                    proof {
                        assert(changes.deep_view() =~~= before.push(
                            change_line('M', entries@[i as int].path@),
                        ));
                    }
                }
            },
            None => {
                let line = make_change_line('A', &entries[i].path);
                changes.push(line);
                proof {
                    assert(changes.deep_view() =~~= before.push(
                        change_line('A', entries@[i as int].path@),
                    ));
                }
            },
        }
        proof {
            assert(base + up_all =~~= changes.deep_view() + upsert_lines(
                entries@.skip(i + 1),
                previous_entries@,
            ));
        }
        i = i + 1;
    }
    proof {
        assert(entries@.skip(entries@.len() as int) =~= Seq::<Entry>::empty());
        assert(changes.deep_view() =~~= base + up_all);
    }
    let ghost mid = changes.deep_view();
    let ghost del_all = deleted_lines(entries@, previous_entries@);
    let mut j: usize = 0;
    proof {
        assert(previous_entries@.skip(0) =~= previous_entries@);
        assert(mid + deleted_lines(entries@, previous_entries@.skip(0)) =~~= mid + del_all);
    }
    while j < previous_entries.len()
        invariant
            j <= previous_entries@.len(),
            mid + del_all =~~= changes.deep_view() + deleted_lines(
                entries@,
                previous_entries@.skip(j as int),
            ),
        decreases previous_entries@.len() - j,
    {
        proof {
            assert(previous_entries@.skip(j as int).len() > 0);
            assert(previous_entries@.skip(j as int)[0] == previous_entries@[j as int]);
            assert(previous_entries@.skip(j as int).drop_first() =~= previous_entries@.skip(j + 1));
        }
        let ghost before = changes.deep_view();
        match find_hash(entries, &previous_entries[j].path) {
            Some(_) => {},
            None => {
                let line = make_change_line('D', &previous_entries[j].path);
                changes.push(line);
                proof {
                    assert(changes.deep_view() =~~= before.push(
                        change_line('D', previous_entries@[j as int].path@),
                    ));
                }
            },
        }
        proof {
            assert(mid + del_all =~~= changes.deep_view() + deleted_lines(
                entries@,
                previous_entries@.skip(j + 1),
            ));
        }
        j = j + 1;
    }
    proof {
        assert(previous_entries@.skip(previous_entries@.len() as int) =~= Seq::<Entry>::empty());
        assert(changes.deep_view() =~~= mid + del_all);
        assert(changes.deep_view() =~~= base + change_lines(entries@, previous_entries@));
    }
}

/// The bucket key of an entry: the first character of its path, or NUL for
/// an empty path.
pub open spec fn entry_key(e: Entry) -> char {
    if e.path@.len() > 0 {
        e.path@[0]
    } else {
        '\0'
    }
}

/// The entries carrying a given bucket key, in their original order.
pub open spec fn bucket_of(entries: Seq<Entry>, key: char) -> Seq<Entry>
    decreases entries.len(),
{
    if entries.len() == 0 {
        Seq::empty()
    } else {
        let head = if entry_key(entries[0]) == key {
            seq![entries[0]]
        } else {
            Seq::<Entry>::empty()
        };
        head + bucket_of(entries.drop_first(), key)
    }
}

pub proof fn lemma_bucket_of_push(entries: Seq<Entry>, e: Entry, key: char)
    ensures
        bucket_of(entries.push(e), key) == if entry_key(e) == key {
            bucket_of(entries, key).push(e)
        } else {
            bucket_of(entries, key)
        },
    decreases entries.len(),
{
    let t = entries.push(e);
    assert(t.len() == entries.len() + 1);
    if entries.len() == 0 {
        assert(t[0] == e);
        assert(t.drop_first() =~= Seq::<Entry>::empty());
        assert(bucket_of(t.drop_first(), key) == Seq::<Entry>::empty());
        assert(bucket_of(t, key) == (if entry_key(e) == key {
            seq![e]
        } else {
            Seq::<Entry>::empty()
        }) + Seq::<Entry>::empty());
        assert(bucket_of(entries, key) == Seq::<Entry>::empty());
        if entry_key(e) == key {
            assert(bucket_of(t, key) =~= bucket_of(entries, key).push(e));
        } else {
            assert(bucket_of(t, key) =~= bucket_of(entries, key));
        }
    } else {
        assert(t[0] == entries[0]);
        assert(t.drop_first() =~= entries.drop_first().push(e));
        lemma_bucket_of_push(entries.drop_first(), e, key);
        assert(bucket_of(t, key) == (if entry_key(entries[0]) == key {
            seq![entries[0]]
        } else {
            Seq::<Entry>::empty()
        }) + bucket_of(entries.drop_first().push(e), key));
        assert(bucket_of(entries, key) == (if entry_key(entries[0]) == key {
            seq![entries[0]]
        } else {
            Seq::<Entry>::empty()
        }) + bucket_of(entries.drop_first(), key));
        if entry_key(e) == key {
            assert(bucket_of(t, key) =~= bucket_of(entries, key).push(e));
        } else {
            assert(bucket_of(t, key) =~= bucket_of(entries, key));
        }
    }
}

pub struct EntryBucket {
    pub key: char,
    pub entries: Vec<Entry>,
}

/// Whether a bucket with the given key exists.
pub open spec fn has_bucket(buckets: Seq<EntryBucket>, key: char) -> bool {
    exists|b: int| 0 <= b < buckets.len() && (#[trigger] buckets[b]).key == key
}

fn find_bucket(buckets: &Vec<EntryBucket>, key: char) -> (r: Option<usize>)
    ensures
        match r {
            Some(b) => b < buckets@.len() && buckets@[b as int].key == key,
            None => !has_bucket(buckets@, key),
        },
{
    let mut i: usize = 0;
    while i < buckets.len()
        invariant
            i <= buckets@.len(),
            forall|j: int| 0 <= j < i ==> (#[trigger] buckets@[j]).key != key,
        decreases buckets@.len() - i,
    {
        if buckets[i].key == key {
            return Some(i);
        }
        i = i + 1;
    }
    None
}

/// Groups entries by their bucket key: each key the input holds gets exactly
/// one bucket, holding precisely its entries in input order. The order of the
/// buckets themselves carries no meaning.
#[verifier::rlimit(60)]
pub fn divided_entries(entries: &Vec<Entry>) -> (r: Vec<EntryBucket>)
    ensures
        forall|b: int|
            0 <= b < r@.len() ==> (#[trigger] r@[b]).entries@ == bucket_of(entries@, r@[b].key),
        forall|b1: int, b2: int| 0 <= b1 < b2 < r@.len() ==> r@[b1].key != r@[b2].key,
        forall|k: char| #[trigger] has_bucket(r@, k) <==> bucket_of(entries@, k).len() > 0,
{
    let mut r: Vec<EntryBucket> = Vec::new();
    let mut i: usize = 0;
    proof {
        assert(entries@.take(0) =~= Seq::<Entry>::empty());
    }
    while i < entries.len()
        invariant
            i <= entries@.len(),
            forall|b: int|
                0 <= b < r@.len() ==> (#[trigger] r@[b]).entries@ == bucket_of(
                    entries@.take(i as int),
                    r@[b].key,
                ),
            forall|b1: int, b2: int| 0 <= b1 < b2 < r@.len() ==> r@[b1].key != r@[b2].key,
            forall|k: char| #[trigger]
                has_bucket(r@, k) <==> bucket_of(entries@.take(i as int), k).len() > 0,
        decreases entries@.len() - i,
    {
        let e = entries[i].duplicate();
        proof {
            assert(e == entries@[i as int]);
        }
        let key = if e.path.as_str().is_empty() {
            '\0'
        } else {
            e.path.as_str().get_char(0)
        };
        let ghost prefix = entries@.take(i as int);
        proof {
            assert(key == entry_key(entries@[i as int]));
            assert(prefix.push(entries@[i as int]) =~= entries@.take(i + 1));
            assert forall|k: char|
                bucket_of(entries@.take(i + 1), k) == if entry_key(entries@[i as int]) == k {
                    bucket_of(prefix, k).push(entries@[i as int])
                } else {
                    bucket_of(prefix, k)
                } by {
                lemma_bucket_of_push(prefix, entries@[i as int], k);
            }
        }
        let ghost old_r = r@;
        match find_bucket(&r, key) {
            Some(bi) => {
                let mut bucket = r.remove(bi);
                bucket.entries.push(e);
                let ghost updated = bucket;
                r.insert(bi, bucket);
                proof {
                    assert(r@ =~= old_r.update(bi as int, updated));
                    assert(updated.key == key);
                    assert(updated.entries@ == bucket_of(prefix, key).push(entries@[i as int]));
                    assert forall|k: char| #[trigger]
                        has_bucket(r@, k) <==> bucket_of(entries@.take(i + 1), k).len() > 0 by {
                        if has_bucket(r@, k) {
                            let b = choose|b: int|
                                0 <= b < r@.len() && (#[trigger] r@[b]).key == k;
                            assert(old_r[b].key == k);
                            assert(has_bucket(old_r, k));
                        }
                        if bucket_of(entries@.take(i + 1), k).len() > 0 {
                            if k == key {
                                assert(r@[bi as int].key == k);
                            } else {
                                assert(bucket_of(prefix, k).len() > 0);
                                assert(has_bucket(old_r, k));
                                let b = choose|b: int|
                                    0 <= b < old_r.len() && (#[trigger] old_r[b]).key == k;
                                assert(r@[b].key == k);
                            }
                        }
                    }
                }
            },
            None => {
                let mut list: Vec<Entry> = Vec::new();
                list.push(e);
                r.push(EntryBucket { key, entries: list });
                proof {
                    assert(r@.len() == old_r.len() + 1);
                    assert(r@[old_r.len() as int].key == key);
                    assert(r@[old_r.len() as int].entries@ =~= bucket_of(prefix, key).push(
                        entries@[i as int],
                    ));
                    assert(forall|b: int| 0 <= b < old_r.len() ==> r@[b] == old_r[b]);
                    assert forall|k: char| #[trigger]
                        has_bucket(r@, k) <==> bucket_of(entries@.take(i + 1), k).len() > 0 by {
                        if has_bucket(r@, k) {
                            let b = choose|b: int|
                                0 <= b < r@.len() && (#[trigger] r@[b]).key == k;
                            if b < old_r.len() {
                                assert(has_bucket(old_r, k));
                            }
                        }
                        if bucket_of(entries@.take(i + 1), k).len() > 0 {
                            if k == key {
                                assert(r@[old_r.len() as int].key == k);
                            } else {
                                assert(bucket_of(prefix, k).len() > 0);
                                assert(has_bucket(old_r, k));
                                let b = choose|b: int|
                                    0 <= b < old_r.len() && (#[trigger] old_r[b]).key == k;
                                assert(r@[b].key == k);
                            }
                        }
                    }
                }
            },
        }
        i = i + 1;
    }
    proof {
        assert(entries@.take(entries@.len() as int) =~= entries@);
    }
    r
}

/// Whether chrono can represent a millisecond timestamp as a date at all;
/// a property of the value alone.
pub uninterp spec fn datetime_representable(ms: int) -> bool;

/// The "%Y/%m/%d %H:%M" UTC rendering of a representable millisecond
/// timestamp; a function of the value alone.
pub uninterp spec fn utc_datetime_text(ms: int) -> Seq<char>;

/// Relies on chrono::DateTime::from_timestamp_millis, which succeeds exactly
/// on the timestamps chrono can represent, and on formatting the UTC result
/// with "%Y/%m/%d %H:%M"; both depend on the timestamp alone.
#[verifier::external_body]
fn format_commit_time(ms: i64) -> (r: Option<String>)
    ensures
        r is Some <==> datetime_representable(ms as int),
        r is Some ==> r->Some_0@ == utc_datetime_text(ms as int),
{
    match chrono::DateTime::from_timestamp_millis(ms) {
        Some(dt) => Some(format!("{}", dt.format("%Y/%m/%d %H:%M"))),
        None => None,
    }
}

/// Relies on chrono::Utc::now, then formats it; the result depends on the
/// clock, so nothing is promised of it.
#[verifier::external_body]
fn current_time_text() -> String {
    format!("{}", chrono::Utc::now().format("%Y/%m/%d %H:%M"))
}

/// The heading of one revision in the log.
pub open spec fn header_line(revision_number: i32, time_text: Seq<char>) -> Seq<char> {
    "Revision "@ + int_text(revision_number as int) + ", commited at "@ + time_text
}

pub fn revision_header(revision_number: i32, time_text: &String) -> (r: String)
    ensures
        r@ == header_line(revision_number, time_text@),
{
    let mut r = String::from_str("Revision ");
    let number_text = crate::strutil::i32_string(revision_number);
    r.append(number_text.as_str());
    r.append(", commited at ");
    r.append(time_text.as_str());
    assert(r@ =~= header_line(revision_number, time_text@));
    r
}

/// The log block of one revision: its heading, then its change set against
/// the predecessor's entries. A timestamp chrono cannot represent is rendered
/// as the current time, as the heading's time text.
pub fn revision_log_lines(
    revision_number: i32,
    commited: i64,
    entries: &Vec<Entry>,
    previous_entries: &Vec<Entry>,
) -> (r: Vec<String>)
    ensures
        datetime_representable(commited as int) ==> r.deep_view() == seq![
            header_line(revision_number, utc_datetime_text(commited as int)),
        ] + change_lines(entries@, previous_entries@),
        exists|t: Seq<char>|
            r.deep_view() == seq![header_line(revision_number, t)] + change_lines(
                entries@,
                previous_entries@,
            ),
{
    let time_text = match format_commit_time(commited) {
        Some(t) => t,
        None => current_time_text(),
    };
    let header = revision_header(revision_number, &time_text);
    let mut lines: Vec<String> = Vec::new();
    lines.push(header);
    proof {
        assert(lines.deep_view() =~~= seq![header_line(revision_number, time_text@)]);
    }
    update_changes(&mut lines, entries, previous_entries);
    proof {
        assert(lines.deep_view() =~~= seq![header_line(revision_number, time_text@)]
            + change_lines(entries@, previous_entries@));
    }
    lines
}

/// Where no entry of the predecessor carries a path, the whole newer list is
/// reported as added: the diff against an empty predecessor marks every entry
/// `A`.
pub proof fn lemma_diff_empty_previous(entries: Seq<Entry>)
    ensures
        change_lines(entries, Seq::empty()) =~= Seq::new(
            entries.len(),
            |i: int| change_line('A', entries[i].path@),
        ),
    decreases entries.len(),
{
    if entries.len() > 0 {
        lemma_diff_empty_previous(entries.drop_first());
        assert(change_lines(entries.drop_first(), Seq::empty()) =~= upsert_lines(
            entries.drop_first(),
            Seq::empty(),
        ));
        assert(change_lines(entries, Seq::empty()) =~= seq![change_line('A', entries[0].path@)]
            + upsert_lines(entries.drop_first(), Seq::empty()));
        assert forall|i: int| 0 <= i < entries.len() implies change_lines(entries, Seq::empty())[i]
            == change_line('A', entries[i].path@) by {
            if i > 0 {
                assert(upsert_lines(entries.drop_first(), Seq::empty())[i - 1] == change_line(
                    'A',
                    entries.drop_first()[i - 1].path@,
                ));
            }
        }
    }
}

/// The first entry with a given path determines the hash `find_hash_spec`
/// reports.
proof fn lemma_find_hash_at(entries: Seq<Entry>, i: int)
    requires
        0 <= i < entries.len(),
        forall|j: int| 0 <= j < i ==> (#[trigger] entries[j].path@) != entries[i].path@,
    ensures
        find_hash_spec(entries, entries[i].path@) == Some(entries[i].hash@),
    decreases entries.len(),
{
    if i > 0 {
        assert(entries[0].path@ != entries[i].path@);
        assert(entries.drop_first()[i - 1] == entries[i]);
        assert(forall|j: int|
            0 <= j < i - 1 ==> (#[trigger] entries.drop_first()[j].path@) == entries[j + 1].path@);
        lemma_find_hash_at(entries.drop_first(), i - 1);
    }
}

proof fn lemma_upsert_self(sub: Seq<Entry>, full: Seq<Entry>)
    requires
        forall|i: int|
            0 <= i < sub.len() ==> find_hash_spec(full, (#[trigger] sub[i]).path@) == Some(
                sub[i].hash@,
            ),
    ensures
        upsert_lines(sub, full) =~= Seq::<Seq<char>>::empty(),
    decreases sub.len(),
{
    if sub.len() > 0 {
        assert(forall|i: int| 0 <= i < sub.len() - 1 ==> sub.drop_first()[i] == sub[i + 1]);
        lemma_upsert_self(sub.drop_first(), full);
    }
}

proof fn lemma_deleted_none(sub: Seq<Entry>, full: Seq<Entry>)
    requires
        forall|i: int|
            0 <= i < sub.len() ==> find_hash_spec(full, (#[trigger] sub[i]).path@) is Some,
    ensures
        deleted_lines(full, sub) =~= Seq::<Seq<char>>::empty(),
    decreases sub.len(),
{
    if sub.len() > 0 {
        assert(forall|i: int| 0 <= i < sub.len() - 1 ==> sub.drop_first()[i] == sub[i + 1]);
        lemma_deleted_none(sub.drop_first(), full);
    }
}

/// Diffing a revision against itself yields no changes, for entry lists in
/// which no path repeats.
pub proof fn lemma_diff_self(entries: Seq<Entry>)
    requires
        forall|i: int, j: int|
            0 <= i < j < entries.len() ==> (#[trigger] entries[i].path@) != (
            #[trigger] entries[j].path@),
    ensures
        change_lines(entries, entries) =~= Seq::<Seq<char>>::empty(),
{
    assert forall|i: int| 0 <= i < entries.len() implies find_hash_spec(
        entries,
        (#[trigger] entries[i]).path@,
    ) == Some(entries[i].hash@) by {
        lemma_find_hash_at(entries, i);
    }
    lemma_upsert_self(entries, entries);
    lemma_deleted_none(entries, entries);
}

} // verus!
