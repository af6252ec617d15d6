//! The hash-scheme migration from version 1 to version 2.
//!
//! Every object moves from its SHA-1 address to its SHA-256 address with its
//! content intact; a mapping file beside each old object records the new
//! hash, so every revision's entries can be rewritten to point at the
//! re-addressed objects.

use vstd::prelude::*;

use crate::commons::object_hash;
use crate::commons::object_hash_spec;
use crate::compress::inflate_of;
use crate::compress::zlib_decompress;
use crate::entry::Entry;
use crate::error::CODE_GENERAL;
use crate::error::CODE_LOADING_FILE_FAILED;
use crate::error::ZatsuError;
use crate::store::ObjectStore;
use crate::store::StoredObject;
use crate::strutil::push_char;

verus! {

pub struct UpgradeCommand {}

impl UpgradeCommand {
    pub fn new() -> UpgradeCommand {
        UpgradeCommand {}
    }
}

/// Admits the migration only for a repository still on scheme version 1:
/// the upgrade is forward-only and single-step.
pub fn check_upgradable(version: i32) -> (r: Result<(), ZatsuError>)
    ensures
        match r {
            Ok(()) => version == 1,
            Err(e) => version != 1 && e.code == CODE_GENERAL,
        },
{
    if version != 1 {
        Err(ZatsuError::new(CODE_GENERAL))
    } else {
        Ok(())
    }
}

/// One object re-addressed under scheme version 2: the decompressed content
/// and its SHA-256 hex address.
pub struct MigratedObject {
    pub new_hash: String,
    pub content: Vec<u8>,
}

/// Decodes one stored object and computes its address under scheme version
/// 2. The content is exactly what the old object decompresses to; only
/// invalid zlib data is rejected.
pub fn migrated_object(data: &Vec<u8>) -> (r: Result<MigratedObject, ZatsuError>)
    ensures
        match r {
            Ok(m) => {
                &&& inflate_of(data@) == Some(m.content@)
                &&& m.new_hash@ == object_hash_spec(m.content@, 2)
                &&& m.new_hash@.len() == 64
            },
            Err(e) => inflate_of(data@) is None && e.code == CODE_LOADING_FILE_FAILED,
        },
{
    let content = match zlib_decompress(data) {
        Ok(v) => v,
        Err(e) => {
            return Err(e);
        },
    };
    let new_hash = object_hash(&content, 2);
    Ok(MigratedObject { new_hash, content })
}

/// The sibling file that records an old object's new-scheme hash during the
/// migration: the old object's path under the set-aside tree, plus `.new`.
pub open spec fn mapping_path_spec(hash: Seq<char>) -> Seq<char> {
    ".zatsu/objects-v1/"@ + hash.take(2) + seq!['/'] + hash + ".new"@
}

pub fn mapping_file_path(hash: &String) -> (r: String)
    requires
        hash@.len() >= 2,
    ensures
        r@ == mapping_path_spec(hash@),
{
    let mut r = String::from_str(".zatsu/objects-v1/");
    let shard = hash.as_str().substring_char(0, 2);
    r.append(shard);
    push_char(&mut r, '/');
    r.append(hash.as_str());
    r.append(".new");
    assert(r@ =~= mapping_path_spec(hash@));
    r
}

/// An entry rewritten to its new-scheme hash; path and permission are kept.
pub fn upgraded_entry(entry: &Entry, new_hash: String) -> (r: Entry)
    ensures
        r.path == entry.path,
        r.hash == new_hash,
        r.permission == entry.permission,
{
    Entry { path: entry.path.clone(), hash: new_hash, permission: entry.permission }
}

/// The decompressed content of one stored object.
pub open spec fn stored_content(objects: Seq<StoredObject>, k: int) -> Seq<u8> {
    inflate_of(objects[k].data@)->Some_0
}

/// One migration record: an old-scheme hash and the new-scheme hash its
/// object moved to.
pub struct HashMapping {
    pub old_hash: String,
    pub new_hash: String,
}

/// The whole store re-addressed under scheme version 2. Every object of the
/// old store resolves in the new store under its recorded new hash, with
/// byte-identical content. The migration assumes what content addressing
/// rests on throughout: distinct contents in the store never share a SHA-256
/// address.
#[verifier::rlimit(60)]
pub fn migrate_store(old_store: &ObjectStore) -> (r: (ObjectStore, Vec<HashMapping>))
    requires
        old_store.wf(),
        forall|i: int, j: int|
            0 <= i < old_store.objects@.len() && 0 <= j < old_store.objects@.len()
                && object_hash_spec(#[trigger] stored_content(old_store.objects@, i), 2)
                == object_hash_spec(#[trigger] stored_content(old_store.objects@, j), 2)
                ==> stored_content(old_store.objects@, i) == stored_content(old_store.objects@, j),
    ensures
        r.0.wf(),
        r.0.version == 2,
        r.1@.len() == old_store.objects@.len(),
        forall|k: int|
            0 <= k < r.1@.len() ==> (#[trigger] r.1@[k].old_hash@) == old_store.objects@[k].hash@,
        forall|k: int|
            0 <= k < r.1@.len() ==> (#[trigger] r.1@[k].new_hash@) == object_hash_spec(
                stored_content(old_store.objects@, k),
                2,
            ),
        forall|k: int|
            0 <= k < r.1@.len() ==> r.0@.contains_key(#[trigger] r.1@[k].new_hash@)
                && r.0@[r.1@[k].new_hash@] == stored_content(old_store.objects@, k),
{
    let ghost objects = old_store.objects@;
    let mut new_store = ObjectStore::new(2);
    let mut mapping: Vec<HashMapping> = Vec::new();
    let mut i: usize = 0;
    while i < old_store.objects.len()
        invariant
            old_store.wf(),
            objects == old_store.objects@,
            forall|a: int, b: int|
                0 <= a < objects.len() && 0 <= b < objects.len() && object_hash_spec(
                    #[trigger] stored_content(objects, a),
                    2,
                ) == object_hash_spec(#[trigger] stored_content(objects, b), 2)
                    ==> stored_content(objects, a) == stored_content(objects, b),
            i <= objects.len(),
            new_store.wf(),
            new_store.version == 2,
            mapping@.len() == i,
            forall|k: int|
                0 <= k < i ==> (#[trigger] mapping@[k].old_hash@) == objects[k].hash@,
            forall|k: int|
                0 <= k < i ==> (#[trigger] mapping@[k].new_hash@) == object_hash_spec(
                    stored_content(objects, k),
                    2,
                ),
            forall|k: int|
                0 <= k < i ==> new_store@.contains_key(#[trigger] mapping@[k].new_hash@)
                    && new_store@[mapping@[k].new_hash@] == stored_content(objects, k),
            forall|h: Seq<char>| #[trigger]
                new_store@.contains_key(h) ==> exists|k: int|
                    0 <= k < i && h == object_hash_spec(#[trigger] stored_content(objects, k), 2)
                        && new_store@[h] == stored_content(objects, k),
        decreases objects.len() - i,
    {
        let migrated = match migrated_object(&old_store.objects[i].data) {
            Ok(m) => m,
            Err(_) => {
                // Unreachable: a well-formed store holds only decodable data.
                proof {
                    assert(inflate_of(objects[i as int].data@) is Some);
                    assert(false);
                }
                return (ObjectStore::new(2), Vec::new());
            },
        };
        proof {
            assert(migrated.content@ == stored_content(objects, i as int));
        }
        let old_hash = old_store.objects[i].hash.clone();
        let new_hash = migrated.new_hash.clone();
        let ghost before = new_store@;
        let added = new_store.put(&migrated.content, migrated.new_hash);
        proof {
            if !added {
                let k = choose|k: int|
                    0 <= k < i && new_hash@ == object_hash_spec(
                        #[trigger] stored_content(objects, k),
                        2,
                    ) && before[new_hash@] == stored_content(objects, k);
                assert(stored_content(objects, k) == stored_content(objects, i as int));
                assert(new_store@[new_hash@] == stored_content(objects, i as int));
            }
            assert forall|h: Seq<char>| #[trigger]
                new_store@.contains_key(h) implies exists|k: int|
                0 <= k < i + 1 && h == object_hash_spec(#[trigger] stored_content(objects, k), 2)
                    && new_store@[h] == stored_content(objects, k) by {
                if h == new_hash@ {
                    assert(new_hash@ == object_hash_spec(stored_content(objects, i as int), 2));
                    assert(new_store@[h] == stored_content(objects, i as int));
                } else {
                    assert(before.contains_key(h));
                    let k = choose|k: int|
                        0 <= k < i && h == object_hash_spec(
                            #[trigger] stored_content(objects, k),
                            2,
                        ) && before[h] == stored_content(objects, k);
                    assert(new_store@[h] == before[h]);
                }
            }
        }
        let ghost old_mapping = mapping@;
        mapping.push(HashMapping { old_hash, new_hash });
        proof {
            assert(forall|k: int| 0 <= k < old_mapping.len() ==> mapping@[k] == old_mapping[k]);
        }
        i = i + 1;
    }
    (new_store, mapping)
}

} // verus!
