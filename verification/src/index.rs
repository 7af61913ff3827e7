//! The deduplication index: a persistent mapping from content hash to stored
//! file identity, with "look up, and insert only on a miss" semantics. The
//! content hash is unique across all records — that is the dedup guarantee —
//! and lookups use exact byte equality of the whole hash, never prefix
//! matching.

use vstd::prelude::*;
use crate::pathing::is_normal_seg;

verus! {

/// The spec-level content of one index record.
pub struct RecordView {
    pub id: int,
    pub name: Seq<char>,
}

/// One committed record: created exactly once per distinct content hash,
/// never mutated, never deleted.
struct StoredFile {
    id: i64,
    content_hash: Vec<u8>,
    storage_name: String,
}

/// A lookup result: the identity and on-disk filename of a stored image.
pub struct Image {
    id: i64,
    image_filename: String,
}

impl Image {
    /// The record's identity.
    pub closed spec fn id_spec(self) -> int {
        self.id as int
    }

    /// The record's on-disk filename.
    pub closed spec fn filename_spec(self) -> Seq<char> {
        self.image_filename@
    }

    pub fn get_id(&self) -> (r: i64)
        ensures
            r == self.id_spec(),
    {
        self.id
    }

    pub fn get_filename(&self) -> (r: &str)
        ensures
            r@ == self.filename_spec(),
    {
        self.image_filename.as_str()
    }
}

/// Byte-for-byte equality of two hashes.
fn bytes_eq(a: &Vec<u8>, b: &Vec<u8>) -> (r: bool)
    ensures
        r == (a@ == b@),
{
    if a.len() != b.len() {
        return false;
    }
    let mut i: usize = 0;
    while i < a.len()
        invariant
            i <= a@.len() == b@.len(),
            forall|j: int| 0 <= j < i ==> a@[j] == b@[j],
        decreases a@.len() - i,
    {
        if a[i] != b[i] {
            return false;
        }
        i += 1;
    }
    proof {
        assert(a@ =~= b@);
    }
    true
}

/// The deduplication index.
pub struct DedupIndex {
    records: Vec<StoredFile>,
    next_id: i64,
}

impl DedupIndex {
    /// The records as a map from content hash to identity and filename.
    pub closed spec fn as_map(self) -> Map<Seq<u8>, RecordView> {
        Map::new(
            |h: Seq<u8>|
                exists|i: int|
                    0 <= i < self.records@.len() && (#[trigger] self.records@[i]).content_hash@
                        == h,
            |h: Seq<u8>|
                {
                    let i = choose|i: int|
                        0 <= i < self.records@.len() && (#[trigger] self.records@[i]).content_hash@
                            == h;
                    RecordView {
                        id: self.records@[i].id as int,
                        name: self.records@[i].storage_name@,
                    }
                },
        )
    }

    /// The number of records.
    pub closed spec fn record_count(self) -> nat {
        self.records@.len()
    }

    /// The identity the next inserted record will get.
    pub closed spec fn fresh_id(self) -> int {
        self.next_id as int
    }

    /// Well-formedness: hashes are 32 bytes and pairwise distinct (the dedup
    /// guarantee), identities are positive, pairwise distinct and below the
    /// next fresh one, and filenames are normal path segments.
    pub closed spec fn wf(self) -> bool {
        &&& 1 <= self.next_id
        &&& forall|i: int|
            0 <= i < self.records@.len() ==> {
                let r = #[trigger] self.records@[i];
                &&& r.content_hash@.len() == 32
                &&& 1 <= r.id < self.next_id
                &&& is_normal_seg(r.storage_name@)
            }
        &&& forall|i: int, j: int|
            0 <= i < j < self.records@.len() ==> (#[trigger] self.records@[i]).content_hash@ != (
            #[trigger] self.records@[j]).content_hash@
        &&& forall|i: int, j: int|
            0 <= i < j < self.records@.len() ==> (#[trigger] self.records@[i]).id != (
            #[trigger] self.records@[j]).id
    }

    /// An empty index; identities are handed out from 1.
    pub fn new() -> (r: Self)
        ensures
            r.wf(),
            r.as_map() == Map::<Seq<u8>, RecordView>::empty(),
            r.record_count() == 0,
            r.fresh_id() == 1,
    {
        let r = DedupIndex { records: Vec::new(), next_id: 1 };
        proof {
            assert(r.as_map() =~= Map::<Seq<u8>, RecordView>::empty());
        }
        r
    }

    /// Point lookup by exact content hash.
    pub fn lookup(&self, hash: &Vec<u8>) -> (r: Option<Image>)
        requires
            self.wf(),
        ensures
            r is Some <==> self.as_map().contains_key(hash@),
            r matches Some(img) ==> {
                &&& img.id_spec() == self.as_map()[hash@].id
                &&& img.filename_spec() == self.as_map()[hash@].name
                &&& 1 <= img.id_spec()
                &&& is_normal_seg(img.filename_spec())
            },
    {
        let mut i: usize = 0;
        while i < self.records.len()
            invariant
                self.wf(),
                i <= self.records@.len(),
                forall|j: int| 0 <= j < i ==> (#[trigger] self.records@[j]).content_hash@ != hash@,
            decreases self.records@.len() - i,
        {
            if bytes_eq(&self.records[i].content_hash, hash) {
                proof {
                    let w = choose|w: int|
                        0 <= w < self.records@.len() && (
                        #[trigger] self.records@[w]).content_hash@ == hash@;
                    assert(w == i);
                }
                return Some(
                    Image {
                        id: self.records[i].id,
                        image_filename: self.records[i].storage_name.clone(),
                    },
                );
            }
            i += 1;
        }
        proof {
            assert(!self.as_map().contains_key(hash@));
        }
        None
    }

    /// Lookup by identity; identities are unique, so at most one record
    /// matches.
    pub fn get_by_id(&self, id: i64) -> (r: Option<Image>)
        requires
            self.wf(),
        ensures
            r is Some <==> exists|h: Seq<u8>|
                #[trigger] self.as_map().contains_key(h) && self.as_map()[h].id == id,
            r matches Some(img) ==> {
                &&& img.id_spec() == id
                &&& 1 <= img.id_spec()
                &&& is_normal_seg(img.filename_spec())
                &&& forall|h: Seq<u8>|
                    (#[trigger] self.as_map().contains_key(h) && self.as_map()[h].id == id)
                        ==> self.as_map()[h].name == img.filename_spec()
            },
    {
        let mut i: usize = 0;
        while i < self.records.len()
            invariant
                self.wf(),
                i <= self.records@.len(),
                forall|j: int| 0 <= j < i ==> (#[trigger] self.records@[j]).id != id,
            decreases self.records@.len() - i,
        {
            if self.records[i].id == id {
                proof {
                    let h = self.records@[i as int].content_hash@;
                    let w = choose|w: int|
                        0 <= w < self.records@.len() && (#[trigger] self.records@[w]).content_hash@
                            == h;
                    assert(w == i);
                    assert(self.as_map().contains_key(h) && self.as_map()[h].id == id);
                    assert forall|h2: Seq<u8>|
                        #[trigger] self.as_map().contains_key(h2) && self.as_map()[h2].id
                            == id implies self.as_map()[h2].name == self.records@[
                        i as int].storage_name@ by {
                        let w2 = choose|w2: int|
                            0 <= w2 < self.records@.len() && (
                            #[trigger] self.records@[w2]).content_hash@ == h2;
                        assert(self.records@[w2].id == id);
                        if w2 != i {
                            assert(self.records@[w2].id != self.records@[i as int].id);
                            assert(false);
                        }
                    }
                }
                return Some(
                    Image {
                        id: self.records[i].id,
                        image_filename: self.records[i].storage_name.clone(),
                    },
                );
            }
            i += 1;
        }
        proof {
            if exists|h: Seq<u8>|
                #[trigger] self.as_map().contains_key(h) && self.as_map()[h].id == id {
                let h = choose|h: Seq<u8>|
                    #[trigger] self.as_map().contains_key(h) && self.as_map()[h].id == id;
                let w = choose|w: int|
                    0 <= w < self.records@.len() && (#[trigger] self.records@[w]).content_hash@
                        == h;
                assert(self.records@[w].id != id);
                assert(false);
            }
        }
        None
    }

    /// The number of records, for observation by callers and tests.
    pub fn count(&self) -> (r: usize)
        ensures
            r == self.record_count(),
    {
        self.records.len()
    }

    /// Inserts a new record. The caller must already have performed a lookup
    /// miss for this hash; the record gets the next fresh identity and keeps
    /// the given storage name.
    pub fn insert_if_absent(&mut self, hash: &Vec<u8>, storage_name: &String) -> (r: i64)
        requires
            old(self).wf(),
            !old(self).as_map().contains_key(hash@),
            hash@.len() == 32,
            is_normal_seg(storage_name@),
            old(self).fresh_id() < i64::MAX,
        ensures
            final(self).wf(),
            r == old(self).fresh_id(),
            1 <= r,
            final(self).as_map() == old(self).as_map().insert(
                hash@,
                RecordView { id: r as int, name: storage_name@ },
            ),
            final(self).record_count() == old(self).record_count() + 1,
            final(self).fresh_id() == old(self).fresh_id() + 1,
    {
        let id = self.next_id;
        let mut hash_copy: Vec<u8> = Vec::new();
        let mut i: usize = 0;
        while i < hash.len()
            invariant
                i <= hash@.len(),
                hash_copy@ == hash@.take(i as int),
            decreases hash@.len() - i,
        {
            hash_copy.push(hash[i]);
            i += 1;
        }
        assert(hash_copy@ =~= hash@);
        self.records.push(
            StoredFile { id, content_hash: hash_copy, storage_name: storage_name.clone() },
        );
        self.next_id = self.next_id + 1;
        proof {
            let n = old(self).records@.len() as int;
            assert(self.records@[n] == self.records@.last());
            assert forall|w: int|
                0 <= w < n implies (#[trigger] self.records@[w]) == old(self).records@[w] by {}
            assert(self.as_map() =~= old(self).as_map().insert(
                hash@,
                RecordView { id: id as int, name: storage_name@ },
            )) by {
                let m0 = old(self).as_map();
                let m1 = self.as_map();
                assert forall|h: Seq<u8>| m1.contains_key(h) implies m0.insert(
                    hash@,
                    RecordView { id: id as int, name: storage_name@ },
                ).contains_key(h) && m1[h] == m0.insert(
                    hash@,
                    RecordView { id: id as int, name: storage_name@ },
                )[h] by {
                    let w = choose|w: int|
                        0 <= w < self.records@.len() && (#[trigger] self.records@[w]).content_hash@
                            == h;
                    if h == hash@ {
                        assert(w == n) by {
                            if w < n {
                                assert(old(self).records@[w].content_hash@ == h);
                                assert(m0.contains_key(h));
                            }
                        }
                    } else {
                        assert(w < n) by {
                            if w == n {
                                assert(self.records@[w].content_hash@ == hash@);
                            }
                        }
                        assert(old(self).records@[w].content_hash@ == h);
                        assert(m0.contains_key(h));
                        let v = choose|v: int|
                            0 <= v < old(self).records@.len() && (
                            #[trigger] old(self).records@[v]).content_hash@ == h;
                        assert(old(self).records@[v] == self.records@[v]);
                        assert(v == w);
                    }
                }
                assert forall|h: Seq<u8>| m0.insert(
                    hash@,
                    RecordView { id: id as int, name: storage_name@ },
                ).contains_key(h) implies m1.contains_key(h) by {
                    if h == hash@ {
                        assert(self.records@[n].content_hash@ == h);
                    } else {
                        let v = choose|v: int|
                            0 <= v < old(self).records@.len() && (
                            #[trigger] old(self).records@[v]).content_hash@ == h;
                        assert(self.records@[v].content_hash@ == h);
                    }
                }
            }
        }
        id
    }
}

} // verus!
