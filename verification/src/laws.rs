//! Laws relating the store's operations, stated over the same spec functions
//! its contracts use.

use vstd::prelude::*;
use crate::index::RecordView;
use crate::store::{id_after_commit, index_after_commit};

verus! {

/// Deduplication idempotence: once any handle with content hash `h` has been
/// committed, committing a second handle with the same hash — whatever its
/// temporary name and whatever fresh identity would be next — changes the
/// index no further and yields the same identity, the one the index holds
/// for `h`. So byte-identical content committed twice reports one identity,
/// and one record exists for it.
pub proof fn lemma_dedup_idempotence(
    m0: Map<Seq<u8>, RecordView>,
    h: Seq<u8>,
    n1: Seq<char>,
    f1: int,
    n2: Seq<char>,
    f2: int,
)
    ensures
        ({
            let m1 = index_after_commit(m0, h, n1, f1);
            let id1 = id_after_commit(m0, h, f1);
            &&& m1.contains_key(h)
            &&& m1[h].id == id1
            &&& index_after_commit(m1, h, n2, f2) == m1
            &&& id_after_commit(m1, h, f2) == id1
        }),
{
}

} // verus!
