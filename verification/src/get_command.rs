//! Extracting a file or a directory subtree from a stored revision.
//!
//! The requested path either names an entry exactly (a file) or is a proper
//! path-segment prefix of some entry (a directory). A file is written out as
//! `<stem>-r<revision>.<ext>`; a directory is rebuilt under
//! `<leaf>-r<revision>/`.

use vstd::prelude::*;

use crate::entry::Entry;
use crate::strutil::int_text;
use crate::strutil::lemma_split_text_len;
use crate::strutil::push_char;
use crate::strutil::split_string;
use crate::strutil::split_text;
use crate::strutil::str_starts_with;

verus! {

pub struct GetCommand {
    pub revision_number: i32,
    pub path: String,
}

impl GetCommand {
    pub fn new(revision_number: i32, path: &str) -> (r: GetCommand)
        ensures
            r.revision_number == revision_number,
            r.path@ == path@,
    {
        GetCommand { revision_number, path: path.to_owned() }
    }
}

/// The hash of the last entry carrying the given path: later entries win, as
/// the extraction scan overwrites earlier matches.
pub open spec fn last_hash_spec(entries: Seq<Entry>, path: Seq<char>) -> Option<Seq<char>>
    decreases entries.len(),
{
    if entries.len() == 0 {
        None
    } else if entries.last().path@ == path {
        Some(entries.last().hash@)
    } else {
        last_hash_spec(entries.drop_last(), path)
    }
}

/// Whether an entry path lies strictly under a requested directory path: the
/// request, then a slash, then more.
pub open spec fn under_directory(entry_path: Seq<char>, requested: Seq<char>) -> bool {
    entry_path.len() > requested.len() && entry_path.take(requested.len() as int) == requested
        && entry_path[requested.len() as int] == '/'
}

/// Whether any entry lies strictly under the requested directory path.
pub open spec fn any_under(entries: Seq<Entry>, requested: Seq<char>) -> bool {
    exists|i: int| 0 <= i < entries.len() && under_directory((#[trigger] entries[i]).path@, requested)
}

pub fn is_under_directory(entry_path: &String, requested: &String) -> (r: bool)
    ensures
        r == under_directory(entry_path@, requested@),
{
    let el = entry_path.as_str().unicode_len();
    let rl = requested.as_str().unicode_len();
    if el <= rl {
        return false;
    }
    if !str_starts_with(entry_path.as_str(), requested.as_str()) {
        return false;
    }
    entry_path.as_str().get_char(rl) == '/'
}

/// What a requested path names within a revision's entries.
pub enum LocateOutcome {
    FoundFile { hash: String },
    FoundDirectory,
    NotFound,
}

/// Resolves a requested path: an exact entry match is a file (the last match
/// determines the hash); otherwise a proper path-segment prefix of any entry
/// is a directory; otherwise nothing.
pub fn locate(entries: &Vec<Entry>, path: &String) -> (r: LocateOutcome)
    ensures
        match r {
            LocateOutcome::FoundFile { hash } => last_hash_spec(entries@, path@) == Some(hash@),
            LocateOutcome::FoundDirectory => last_hash_spec(entries@, path@) is None && any_under(
                entries@,
                path@,
            ),
            LocateOutcome::NotFound => last_hash_spec(entries@, path@) is None && !any_under(
                entries@,
                path@,
            ),
        },
{
    let mut hash: Option<String> = None;
    let mut directory_found = false;
    let mut i: usize = 0;
    proof {
        assert(entries@.take(0) =~= Seq::<Entry>::empty());
    }
    while i < entries.len()
        invariant
            i <= entries@.len(),
            match hash {
                Some(h) => last_hash_spec(entries@.take(i as int), path@) == Some(h@),
                None => last_hash_spec(entries@.take(i as int), path@) is None,
            },
            directory_found <==> any_under(entries@.take(i as int), path@),
        decreases entries@.len() - i,
    {
        let ghost prefix = entries@.take(i as int);
        proof {
            assert(prefix.push(entries@[i as int]) =~= entries@.take(i + 1));
            assert(entries@.take(i + 1).drop_last() =~= prefix);
            assert(entries@.take(i + 1).last() == entries@[i as int]);
        }
        let ghost was_found = directory_found;
        if entries[i].path == *path {
            hash = Some(entries[i].hash.clone());
        }
        if is_under_directory(&entries[i].path, path) {
            directory_found = true;
        }
        proof {
            if directory_found {
                if was_found {
                    let w = choose|k: int|
                        0 <= k < prefix.len() && under_directory((#[trigger] prefix[k]).path@, path@);
                    assert(under_directory(entries@.take(i + 1)[w].path@, path@));
                } else {
                    assert(under_directory(entries@.take(i + 1)[i as int].path@, path@));
                }
            } else {
                assert forall|k: int|
                    0 <= k < entries@.take(i + 1).len() implies !under_directory(
                    (#[trigger] entries@.take(i + 1)[k]).path@,
                    path@,
                ) by {
                    if k < i {
                        assert(entries@.take(i + 1)[k] == prefix[k]);
                        assert(!any_under(prefix, path@));
                        assert(!under_directory(prefix[k].path@, path@));
                    }
                }
            }
        }
        i = i + 1;
    }
    proof {
        assert(entries@.take(entries@.len() as int) =~= entries@);
    }
    match hash {
        Some(h) => LocateOutcome::FoundFile { hash: h },
        None => {
            if directory_found {
                LocateOutcome::FoundDirectory
            } else {
                LocateOutcome::NotFound
            }
        },
    }
}

/// The name an extracted file is written under: the path's last segment with
/// `-r<revision>` spliced in before the extension, or a fixed fallback where
/// the segment has no extension.
pub open spec fn output_file_name_spec(path: Seq<char>, revision_number: i32) -> Seq<char> {
    let parts = split_text(path, '/');
    let dots = split_text(parts.last(), '.');
    if dots.len() > 1 {
        dots[0] + "-r"@ + int_text(revision_number as int) + "."@ + dots[1]
    } else {
        "out.dat"@
    }
}

pub fn output_file_name(path: &String, revision_number: i32) -> (r: String)
    ensures
        r@ == output_file_name_spec(path@, revision_number),
{
    let parts = split_string(path.as_str(), '/');
    proof {
        lemma_split_text_len(path@, '/');
        assert(parts.deep_view()[parts@.len() - 1] == parts@[parts@.len() - 1]@);
    }
    let original_file_name = &parts[parts.len() - 1];
    proof {
        assert(original_file_name@ == split_text(path@, '/').last());
    }
    let dots = split_string(original_file_name.as_str(), '.');
    if dots.len() > 1 {
        proof {
            assert(dots.deep_view()[0] == dots@[0]@);
            assert(dots.deep_view()[1] == dots@[1]@);
        }
        let mut r = dots[0].clone();
        r.append("-r");
        let number_text = crate::strutil::i32_string(revision_number);
        r.append(number_text.as_str());
        r.append(".");
        r.append(dots[1].as_str());
        assert(r@ =~= output_file_name_spec(path@, revision_number));
        r
    } else {
        String::from_str("out.dat")
    }
}

/// The root directory an extracted subtree is rebuilt under: the requested
/// path's last segment plus `-r<revision>`.
pub open spec fn directory_root_spec(path: Seq<char>, revision_number: i32) -> Seq<char> {
    split_text(path, '/').last() + "-r"@ + int_text(revision_number as int)
}

pub fn directory_root_name(path: &String, revision_number: i32) -> (r: String)
    ensures
        r@ == directory_root_spec(path@, revision_number),
{
    let parts = split_string(path.as_str(), '/');
    proof {
        lemma_split_text_len(path@, '/');
        assert(parts.deep_view()[parts@.len() - 1] == parts@[parts@.len() - 1]@);
    }
    let mut r = parts[parts.len() - 1].clone();
    r.append("-r");
    let number_text = crate::strutil::i32_string(revision_number);
    r.append(number_text.as_str());
    assert(r@ =~= directory_root_spec(path@, revision_number));
    r
}

/// A base path extended by one slash-prefixed segment for each of
/// `parts[from..to]`.
pub open spec fn join_segments(base: Seq<char>, parts: Seq<Seq<char>>, from: int, to: int) -> Seq<
    char,
>
    decreases to - from,
{
    if from >= to {
        base
    } else {
        join_segments(base + seq!['/'] + parts[from], parts, from + 1, to)
    }
}

pub proof fn lemma_join_extend(base: Seq<char>, parts: Seq<Seq<char>>, from: int, to: int)
    requires
        from <= to < parts.len(),
    ensures
        join_segments(base, parts, from, to + 1) == join_segments(base, parts, from, to) + seq![
            '/',
        ] + parts[to],
    decreases to - from,
{
    if from == to {
        assert(join_segments(base + seq!['/'] + parts[from], parts, from + 1, to + 1) == base
            + seq!['/'] + parts[from]);
    } else {
        lemma_join_extend(base + seq!['/'] + parts[from], parts, from + 1, to);
    }
}

/// The directory an extracted entry's file lands in: the root, extended by
/// the entry path's middle segments (everything between its first segment and
/// its file name).
pub open spec fn entry_directory_spec(entry_path: Seq<char>, root: Seq<char>) -> Seq<char> {
    let parts = split_text(entry_path, '/');
    if parts.len() >= 3 {
        join_segments(root, parts, 1, parts.len() - 1)
    } else {
        root
    }
}

/// The full output path of an extracted entry: its directory, a slash, the
/// entry path's last segment.
pub open spec fn entry_output_spec(entry_path: Seq<char>, root: Seq<char>) -> Seq<char> {
    entry_directory_spec(entry_path, root) + seq!['/'] + split_text(entry_path, '/').last()
}

/// Where one extracted entry is written: the directory to create, and the
/// file path within it.
pub struct OutputLocation {
    pub directory: String,
    pub file_path: String,
}

pub fn entry_output_location(entry_path: &String, root: &String) -> (r: OutputLocation)
    ensures
        r.directory@ == entry_directory_spec(entry_path@, root@),
        r.file_path@ == entry_output_spec(entry_path@, root@),
{
    let parts = split_string(entry_path.as_str(), '/');
    proof {
        lemma_split_text_len(entry_path@, '/');
    }
    let ghost pdeep = parts.deep_view();
    let count = parts.len();
    let mut directory = root.clone();
    if count >= 3 {
        let mut k: usize = 1;
        proof {
            assert(directory@ == join_segments(root@, pdeep, 1, 1));
        }
        while k < count - 1
            invariant
                1 <= k <= count - 1,
                count == parts@.len(),
                count >= 3,
                pdeep == parts.deep_view(),
                pdeep.len() == count,
                directory@ == join_segments(root@, pdeep, 1, k as int),
            decreases count - 1 - k,
        {
            proof {
                assert(pdeep[k as int] == parts@[k as int]@);
            }
            let ghost before = directory@;
            push_char(&mut directory, '/');
            directory.append(parts[k].as_str());
            proof {
                assert(directory@ =~= before + seq!['/'] + pdeep[k as int]);
                lemma_join_extend(root@, pdeep, 1, k as int);
            }
            k = k + 1;
        }
        proof {
            assert(directory@ == join_segments(root@, pdeep, 1, count - 1));
        }
    }
    let mut file_path = directory.clone();
    push_char(&mut file_path, '/');
    proof {
        assert(pdeep[count - 1] == parts@[count - 1]@);
    }
    file_path.append(parts[count - 1].as_str());
    proof {
        assert(file_path@ =~= entry_output_spec(entry_path@, root@));
    }
    OutputLocation { directory, file_path }
}

} // verus!
