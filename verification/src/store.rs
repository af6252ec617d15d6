//! The object store: a deduplicated, content-addressed collection of
//! zlib-compressed payloads.
//!
//! A store is viewed as the map from each object's hash to its decompressed
//! content. `put` stores a payload at most once (the dedup invariant), `get`
//! retrieves exactly what the map holds, and `remove_unreferenced` keeps
//! precisely the objects whose hashes a retained revision still references —
//! the guarantee the garbage collector rests on.

use vstd::prelude::*;

use crate::commons::object_hash;
use crate::commons::object_hash_spec;
use crate::compress::inflate_of;
use crate::compress::zlib_compress;
use crate::compress::zlib_decompress;
use crate::error::CODE_LOADING_FILE_FAILED;
use crate::error::ZatsuError;

verus! {

pub struct StoredObject {
    pub hash: String,
    pub data: Vec<u8>,
}

impl StoredObject {
    /// A field-for-field copy of this object.
    pub fn duplicate(&self) -> (r: StoredObject)
        ensures
            same_object(r, *self),
    {
        let data = self.data.clone();
        assert(data@ =~= self.data@);
        StoredObject { hash: self.hash.clone(), data }
    }
}

/// Two stored objects that carry the same hash and the same bytes.
pub open spec fn same_object(a: StoredObject, b: StoredObject) -> bool {
    a.hash@ == b.hash@ && a.data@ == b.data@
}

/// Whether an object occurs, field for field, in a list of objects.
pub open spec fn object_among(objects: Seq<StoredObject>, o: StoredObject) -> bool {
    exists|k: int| 0 <= k < objects.len() && same_object(#[trigger] objects[k], o)
}

/// No two objects share a hash.
pub open spec fn distinct_hashes(objects: Seq<StoredObject>) -> bool {
    forall|i: int, j: int|
        0 <= i < j < objects.len() ==> (#[trigger] objects[i].hash@) != (#[trigger] objects[j].hash@)
}

/// Every object's data is a valid zlib stream.
pub open spec fn all_decodable(objects: Seq<StoredObject>) -> bool {
    forall|i: int| 0 <= i < objects.len() ==> (#[trigger] inflate_of(objects[i].data@)) is Some
}

/// The map an object list denotes: each hash to its decompressed content.
pub open spec fn store_map(objects: Seq<StoredObject>) -> Map<Seq<char>, Seq<u8>>
    decreases objects.len(),
{
    if objects.len() == 0 {
        Map::empty()
    } else {
        store_map(objects.drop_last()).insert(
            objects.last().hash@,
            inflate_of(objects.last().data@)->Some_0,
        )
    }
}

pub proof fn lemma_store_map_contains(objects: Seq<StoredObject>, h: Seq<char>)
    ensures
        store_map(objects).contains_key(h) <==> exists|i: int|
            0 <= i < objects.len() && (#[trigger] objects[i].hash@) == h,
    decreases objects.len(),
{
    if objects.len() > 0 {
        lemma_store_map_contains(objects.drop_last(), h);
        if objects.last().hash@ == h {
            assert(objects[objects.len() - 1].hash@ == h);
        } else {
            if store_map(objects).contains_key(h) {
                let i = choose|i: int|
                    0 <= i < objects.drop_last().len() && (#[trigger] objects.drop_last()[i].hash@)
                        == h;
                assert(objects[i].hash@ == h);
            }
            if exists|i: int| 0 <= i < objects.len() && (#[trigger] objects[i].hash@) == h {
                let i = choose|i: int|
                    0 <= i < objects.len() && (#[trigger] objects[i].hash@) == h;
                assert(i < objects.len() - 1);
                assert(objects.drop_last()[i].hash@ == h);
            }
        }
    }
}

pub proof fn lemma_store_map_index(objects: Seq<StoredObject>, i: int)
    requires
        0 <= i < objects.len(),
        distinct_hashes(objects),
    ensures
        store_map(objects).contains_key(objects[i].hash@),
        store_map(objects)[objects[i].hash@] == inflate_of(objects[i].data@)->Some_0,
    decreases objects.len(),
{
    if i == objects.len() - 1 {
    } else {
        assert(distinct_hashes(objects.drop_last())) by {
            assert(forall|a: int, b: int|
                0 <= a < b < objects.drop_last().len() ==> objects.drop_last()[a] == objects[a]
                    && objects.drop_last()[b] == objects[b]);
        }
        lemma_store_map_index(objects.drop_last(), i);
        assert(objects.drop_last()[i] == objects[i]);
        assert(objects.last().hash@ != objects[i].hash@);
    }
}

/// What a dedup-placing put leaves of the store's map: unchanged when the
/// hash is present, extended by the payload otherwise.
pub open spec fn put_map(m: Map<Seq<char>, Seq<u8>>, hash: Seq<char>, content: Seq<u8>) -> Map<
    Seq<char>,
    Seq<u8>,
> {
    if m.contains_key(hash) {
        m
    } else {
        m.insert(hash, content)
    }
}

/// Dedup law: putting the same payload under the same hash twice leaves the
/// store exactly as putting it once, and the put adds at most that one key.
pub proof fn lemma_put_idempotent(m: Map<Seq<char>, Seq<u8>>, hash: Seq<char>, content: Seq<u8>)
    ensures
        put_map(put_map(m, hash, content), hash, content) == put_map(m, hash, content),
        put_map(m, hash, content).dom() =~= m.dom().insert(hash),
{
    if m.contains_key(hash) {
        assert(m.dom() =~= m.dom().insert(hash));
    }
}

/// Round-trip law: after a put of `content` under `hash`, the store maps
/// `hash` to `content` — unless a different payload already sat under that
/// very hash, which content addressing rules out for hashes computed from
/// the content.
pub proof fn lemma_put_round_trip(m: Map<Seq<char>, Seq<u8>>, hash: Seq<char>, content: Seq<u8>)
    requires
        m.contains_key(hash) ==> m[hash] == content,
    ensures
        put_map(m, hash, content).contains_key(hash),
        put_map(m, hash, content)[hash] == content,
{
}

pub struct ObjectStore {
    pub version: i32,
    pub objects: Vec<StoredObject>,
}

impl View for ObjectStore {
    type V = Map<Seq<char>, Seq<u8>>;

    open spec fn view(&self) -> Map<Seq<char>, Seq<u8>> {
        store_map(self.objects@)
    }
}

impl ObjectStore {
    pub open spec fn wf(&self) -> bool {
        distinct_hashes(self.objects@) && all_decodable(self.objects@)
    }

    pub fn new(version: i32) -> (r: ObjectStore)
        ensures
            r.wf(),
            r.version == version,
            r@ == Map::<Seq<char>, Seq<u8>>::empty(),
    {
        let r = ObjectStore { version, objects: Vec::new() };
        assert(r.objects@.len() == 0);
        r
    }

    fn find_index(&self, hash: &String) -> (r: Option<usize>)
        ensures
            match r {
                Some(i) => i < self.objects@.len() && self.objects@[i as int].hash@ == hash@,
                None => forall|i: int|
                    0 <= i < self.objects@.len() ==> (#[trigger] self.objects@[i].hash@) != hash@,
            },
    {
        let mut i: usize = 0;
        while i < self.objects.len()
            invariant
                i <= self.objects@.len(),
                forall|j: int| 0 <= j < i ==> (#[trigger] self.objects@[j].hash@) != hash@,
            decreases self.objects@.len() - i,
        {
            if self.objects[i].hash == *hash {
                return Some(i);
            }
            i = i + 1;
        }
        None
    }

    pub fn contains(&self, hash: &String) -> (r: bool)
        ensures
            r == self@.contains_key(hash@),
    {
        proof {
            lemma_store_map_contains(self.objects@, hash@);
        }
        match self.find_index(hash) {
            Some(_) => true,
            None => false,
        }
    }

    /// Places a payload under the given hash once: a put under an
    /// already-occupied hash, a second put of the same pair included, is a
    /// successful no-op.
    pub fn put(&mut self, values: &Vec<u8>, hash: String) -> (added: bool)
        requires
            old(self).wf(),
        ensures
            final(self).wf(),
            final(self).version == old(self).version,
            final(self)@ == put_map(old(self)@, hash@, values@),
            added == !old(self)@.contains_key(hash@),
    {
        proof {
            lemma_store_map_contains(self.objects@, hash@);
        }
        match self.find_index(&hash) {
            Some(_) => false,
            None => {
                let compressed = zlib_compress(values);
                let ghost old_objects = self.objects@;
                self.objects.push(StoredObject { hash, data: compressed });
                proof {
                    assert(self.objects@.drop_last() =~= old_objects);
                    assert(forall|i: int|
                        0 <= i < old_objects.len() ==> self.objects@[i] == old_objects[i]);
                }
                true
            },
        }
    }

    /// Hashes the payload under the store's scheme and places it, returning
    /// the hash. A payload whose hash was free maps to exactly that payload
    /// afterwards: the round trip `get(put_object(b)) == b`.
    pub fn put_object(&mut self, values: &Vec<u8>) -> (hash: String)
        requires
            old(self).wf(),
        ensures
            final(self).wf(),
            final(self).version == old(self).version,
            hash@ == object_hash_spec(values@, old(self).version as int),
            final(self)@ == put_map(old(self)@, hash@, values@),
            final(self)@.contains_key(hash@),
            !old(self)@.contains_key(hash@) ==> final(self)@[hash@] == values@,
    {
        let hash = object_hash(values, self.version);
        let key = hash.clone();
        self.put(values, key);
        hash
    }

    /// Retrieves and decompresses the object stored under a hash; fails
    /// exactly when the store holds no such object.
    pub fn get(&self, hash: &String) -> (r: Result<Vec<u8>, ZatsuError>)
        requires
            self.wf(),
        ensures
            match r {
                Ok(v) => self@.contains_key(hash@) && v@ == self@[hash@],
                Err(e) => !self@.contains_key(hash@) && e.code == CODE_LOADING_FILE_FAILED,
            },
    {
        proof {
            lemma_store_map_contains(self.objects@, hash@);
        }
        match self.find_index(hash) {
            Some(i) => {
                proof {
                    lemma_store_map_index(self.objects@, i as int);
                }
                match zlib_decompress(&self.objects[i].data) {
                    Ok(v) => Ok(v),
                    Err(e) => {
                        proof {
                            assert(false);
                        }
                        Err(e)
                    },
                }
            },
            None => Err(ZatsuError::new(CODE_LOADING_FILE_FAILED)),
        }
    }

    /// Mark-and-sweep on the store: keeps exactly the objects whose hash is
    /// in the referenced list, so every referenced object stays retrievable
    /// unchanged and no unreferenced object remains.
    #[verifier::rlimit(60)]
    pub fn remove_unreferenced(&mut self, referenced: &Vec<String>) -> (removed: usize)
        requires
            old(self).wf(),
        ensures
            final(self).wf(),
            final(self).version == old(self).version,
            forall|h: Seq<char>| #[trigger]
                final(self)@.contains_key(h) <==> (old(self)@.contains_key(h)
                    && referenced.deep_view().contains(h)),
            forall|h: Seq<char>| #[trigger]
                final(self)@.contains_key(h) ==> final(self)@[h] == old(self)@[h],
            final(self).objects@.len() + removed == old(self).objects@.len(),
    {
        let ghost orig = self.objects@;
        let ghost rdeep = referenced.deep_view();
        let mut kept: Vec<StoredObject> = Vec::new();
        let mut removed: usize = 0;
        let mut i: usize = 0;
        while i < self.objects.len()
            invariant
                self.version == old(self).version,
                rdeep == referenced.deep_view(),
                self.objects@ == orig,
                i <= orig.len(),
                distinct_hashes(orig),
                all_decodable(orig),
                forall|j: int| 0 <= j < kept@.len() ==> object_among(orig, #[trigger] kept@[j]),
                forall|j: int|
                    0 <= j < kept@.len() ==> rdeep.contains(#[trigger] kept@[j].hash@),
                forall|k: int|
                    0 <= k < i && rdeep.contains(#[trigger] orig[k].hash@) ==> exists|j: int|
                        0 <= j < kept@.len() && same_object(#[trigger] kept@[j], orig[k]),
                forall|k: int, j: int|
                    i <= k < orig.len() && 0 <= j < kept@.len() ==> (#[trigger] orig[k].hash@) != (
                    #[trigger] kept@[j].hash@),
                distinct_hashes(kept@),
                all_decodable(kept@),
                kept@.len() + removed == i,
            decreases orig.len() - i,
        {
            if hash_listed(referenced, &self.objects[i].hash) {
                let ghost old_kept = kept@;
                let o = self.objects[i].duplicate();
                proof {
                    assert(same_object(o, orig[i as int]));
                }
                kept.push(o);
                proof {
                    assert(kept@ == old_kept.push(o));
                    assert(same_object(kept@[kept@.len() - 1], orig[i as int]));
                    assert(same_object(orig[i as int], kept@[kept@.len() - 1]));
                    assert(object_among(orig, kept@[kept@.len() - 1]));
                    assert(forall|j: int| 0 <= j < old_kept.len() ==> kept@[j] == old_kept[j]);
                    assert forall|k: int|
                        0 <= k < i + 1 && rdeep.contains(#[trigger] orig[k].hash@) implies exists|
                        j: int,
                    |
                        0 <= j < kept@.len() && same_object(#[trigger] kept@[j], orig[k]) by {
                        if k == i {
                            assert(same_object(kept@[kept@.len() - 1], orig[k]));
                        } else {
                            let j = choose|j: int|
                                0 <= j < old_kept.len() && same_object(
                                    #[trigger] old_kept[j],
                                    orig[k],
                                );
                            assert(same_object(kept@[j], orig[k]));
                        }
                    }
                }
            } else {
                removed = removed + 1;
                proof {
                    assert(!rdeep.contains(orig[i as int].hash@));
                }
            }
            i = i + 1;
        }
        proof {
            lemma_gc_result(orig, kept@, rdeep);
        }
        self.objects = kept;
        removed
    }
}

/// The sweep's outcome at the map level: given that the kept objects are
/// exactly the referenced ones among the originals, the kept map holds
/// exactly the referenced keys, each with its original content.
#[verifier::rlimit(60)]
proof fn lemma_gc_result(orig: Seq<StoredObject>, fin: Seq<StoredObject>, rdeep: Seq<Seq<char>>)
    requires
        distinct_hashes(orig),
        distinct_hashes(fin),
        forall|j: int| 0 <= j < fin.len() ==> object_among(orig, #[trigger] fin[j]),
        forall|j: int| 0 <= j < fin.len() ==> rdeep.contains(#[trigger] fin[j].hash@),
        forall|i: int|
            0 <= i < orig.len() && rdeep.contains(#[trigger] orig[i].hash@) ==> exists|j: int|
                0 <= j < fin.len() && same_object(#[trigger] fin[j], orig[i]),
    ensures
        forall|h: Seq<char>| #[trigger]
            store_map(fin).contains_key(h) <==> (store_map(orig).contains_key(h) && rdeep.contains(
                h,
            )),
        forall|h: Seq<char>| #[trigger]
            store_map(fin).contains_key(h) ==> store_map(fin)[h] == store_map(orig)[h],
{
    assert forall|h: Seq<char>| #[trigger]
        store_map(fin).contains_key(h) <==> (store_map(orig).contains_key(h) && rdeep.contains(
            h,
        )) by {
        lemma_store_map_contains(fin, h);
        lemma_store_map_contains(orig, h);
        if store_map(fin).contains_key(h) {
            let j = choose|j: int| 0 <= j < fin.len() && (#[trigger] fin[j].hash@) == h;
            assert(object_among(orig, fin[j]));
            let i = choose|i: int| 0 <= i < orig.len() && same_object(#[trigger] orig[i], fin[j]);
            assert(orig[i].hash@ == h);
        } else if store_map(orig).contains_key(h) && rdeep.contains(h) {
            let i = choose|i: int| 0 <= i < orig.len() && (#[trigger] orig[i].hash@) == h;
            let j = choose|j: int| 0 <= j < fin.len() && same_object(#[trigger] fin[j], orig[i]);
            assert(fin[j].hash@ == h);
        }
    }
    assert forall|h: Seq<char>| #[trigger]
        store_map(fin).contains_key(h) implies store_map(fin)[h] == store_map(orig)[h] by {
        lemma_store_map_contains(fin, h);
        let j = choose|j: int| 0 <= j < fin.len() && (#[trigger] fin[j].hash@) == h;
        lemma_store_map_index(fin, j);
        assert(object_among(orig, fin[j]));
        let i = choose|i: int| 0 <= i < orig.len() && same_object(#[trigger] orig[i], fin[j]);
        lemma_store_map_index(orig, i);
    }
}

/// Whether a hash occurs in a list of hashes.
fn hash_listed(referenced: &Vec<String>, hash: &String) -> (r: bool)
    ensures
        r == referenced.deep_view().contains(hash@),
{
    let mut i: usize = 0;
    while i < referenced.len()
        invariant
            i <= referenced@.len(),
            forall|j: int| 0 <= j < i ==> referenced.deep_view()[j] != hash@,
        decreases referenced@.len() - i,
    {
        if referenced[i] == *hash {
            proof {
                assert(referenced.deep_view()[i as int] == hash@);
            }
            return true;
        }
        proof {
            assert(referenced.deep_view()[i as int] == referenced@[i as int]@);
        }
        i = i + 1;
    }
    proof {
        assert(referenced.deep_view().len() == referenced@.len());
    }
    false
}

} // verus!
