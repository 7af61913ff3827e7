//! File handles: a transient reference to bytes on disk with an explicit
//! commit/discard lifecycle.
//!
//! A handle is `Pending` right after ingest (bytes sit at a temporary path,
//! nothing is indexed, there is no identity yet) and becomes `Committed` when
//! the store finalizes it — either by inserting a fresh index record or by
//! adopting an existing one on a deduplication hit. A pending handle that is
//! given back to the store's `discard` instead ends its life with its
//! temporary file removed. Release is explicit and scoped: the owner either
//! commits the handle or hands it to `discard`; no code path may simply
//! forget a pending handle.

use vstd::prelude::*;
use crate::pathing::is_normal_seg;

verus! {

/// A reference to an in-flight or finalized stored file.
pub struct FileHandle {
    id: Option<i64>,
    storage_name: String,
    content_hash: Vec<u8>,
}

impl FileHandle {
    /// True once the handle has an identity: a committed handle corresponds
    /// one-to-one to an index record.
    pub closed spec fn committed(self) -> bool {
        self.id is Some
    }

    /// The identity, meaningful only once committed.
    pub closed spec fn id_of(self) -> int {
        match self.id {
            Some(v) => v as int,
            None => 0,
        }
    }

    /// The on-disk filename: the temporary name while pending, the stored
    /// record's name once committed.
    pub closed spec fn name_spec(self) -> Seq<char> {
        self.storage_name@
    }

    /// The content digest of the ingested bytes.
    pub closed spec fn hash_spec(self) -> Seq<u8> {
        self.content_hash@
    }

    /// The digest is a whole 32-byte hash, the filename a normal segment and
    /// the identity positive once present.
    pub open spec fn wf(self) -> bool {
        &&& self.hash_spec().len() == 32
        &&& is_normal_seg(self.name_spec())
        &&& (self.committed() ==> 1 <= self.id_of())
    }

    /// A pending handle over a freshly written temporary file.
    pub(crate) fn new_pending(storage_name: String, content_hash: Vec<u8>) -> (h: Self)
        requires
            is_normal_seg(storage_name@),
            content_hash@.len() == 32,
        ensures
            h.wf(),
            !h.committed(),
            h.name_spec() == storage_name@,
            h.hash_spec() == content_hash@,
    {
        FileHandle { id: None, storage_name, content_hash }
    }

    /// A handle already committed, pointing at an existing stored file.
    pub(crate) fn new_committed(id: i64, storage_name: String, content_hash: Vec<u8>) -> (h: Self)
        requires
            1 <= id,
            is_normal_seg(storage_name@),
            content_hash@.len() == 32,
        ensures
            h.wf(),
            h.committed(),
            h.id_of() == id,
            h.name_spec() == storage_name@,
            h.hash_spec() == content_hash@,
    {
        FileHandle { id: Some(id), storage_name, content_hash }
    }

    /// Finalizes the handle with an identity and the stored filename.
    pub(crate) fn mark_committed(&mut self, id: i64, storage_name: String)
        requires
            old(self).wf(),
            1 <= id,
            is_normal_seg(storage_name@),
        ensures
            final(self).wf(),
            final(self).committed(),
            final(self).id_of() == id,
            final(self).name_spec() == storage_name@,
            final(self).hash_spec() == old(self).hash_spec(),
    {
        self.id = Some(id);
        self.storage_name = storage_name;
    }

    /// The identity, present exactly once the handle is committed.
    pub fn get_id(&self) -> (r: Option<i64>)
        ensures
            r is Some <==> self.committed(),
            r matches Some(v) ==> v == self.id_of(),
    {
        self.id
    }

    /// The on-disk filename this handle refers to.
    pub fn get_name(&self) -> (r: &str)
        ensures
            r@ == self.name_spec(),
    {
        self.storage_name.as_str()
    }

    /// The content digest of the ingested bytes.
    pub fn get_hash(&self) -> (r: &Vec<u8>)
        ensures
            r@ == self.hash_spec(),
    {
        &self.content_hash
    }
}

} // verus!
