//! A model filesystem: a flat map from canonical absolute paths to file
//! contents. It captures exactly the capabilities the store needs from a
//! filesystem — create/overwrite, read, existence and delete by path — in a
//! symlink-free world, so that the store's behaviour over it can be verified.

use vstd::prelude::*;
use crate::pathing::CanonPath;

verus! {

struct DiskFile {
    path: CanonPath,
    data: Vec<u8>,
}

/// The model filesystem.
pub struct DiskModel {
    files: Vec<DiskFile>,
}

impl DiskModel {
    /// The filesystem as a map from path to contents.
    pub closed spec fn as_map(self) -> Map<Seq<Seq<char>>, Seq<u8>> {
        Map::new(
            |p: Seq<Seq<char>>|
                exists|i: int|
                    0 <= i < self.files@.len() && (#[trigger] self.files@[i]).path@ == p,
            |p: Seq<Seq<char>>|
                {
                    let i = choose|i: int|
                        0 <= i < self.files@.len() && (#[trigger] self.files@[i]).path@ == p;
                    self.files@[i].data@
                },
        )
    }

    /// The number of files.
    pub closed spec fn file_count(self) -> nat {
        self.files@.len()
    }

    /// Well-formedness: paths are canonical and pairwise distinct.
    pub closed spec fn wf(self) -> bool {
        &&& forall|i: int| 0 <= i < self.files@.len() ==> (#[trigger] self.files@[i]).path.wf()
        &&& forall|i: int, j: int|
            0 <= i < j < self.files@.len() ==> (#[trigger] self.files@[i]).path@ != (
            #[trigger] self.files@[j]).path@
    }

    /// An empty filesystem.
    pub fn new() -> (r: Self)
        ensures
            r.wf(),
            r.as_map() == Map::<Seq<Seq<char>>, Seq<u8>>::empty(),
            r.file_count() == 0,
    {
        let r = DiskModel { files: Vec::new() };
        proof {
            assert(r.as_map() =~= Map::<Seq<Seq<char>>, Seq<u8>>::empty());
        }
        r
    }

    /// True when a file exists at exactly this path.
    pub fn contains(&self, path: &CanonPath) -> (r: bool)
        requires
            self.wf(),
        ensures
            r == self.as_map().contains_key(path@),
    {
        let mut i: usize = 0;
        while i < self.files.len()
            invariant
                i <= self.files@.len(),
                forall|j: int| 0 <= j < i ==> (#[trigger] self.files@[j]).path@ != path@,
            decreases self.files@.len() - i,
        {
            if self.files[i].path.same_as(path) {
                return true;
            }
            i += 1;
        }
        false
    }

    /// The contents of the file at this path, if one exists.
    pub fn read(&self, path: &CanonPath) -> (r: Option<&Vec<u8>>)
        requires
            self.wf(),
        ensures
            r is Some <==> self.as_map().contains_key(path@),
            r matches Some(d) ==> d@ == self.as_map()[path@],
    {
        let mut i: usize = 0;
        while i < self.files.len()
            invariant
                self.wf(),
                i <= self.files@.len(),
                forall|j: int| 0 <= j < i ==> (#[trigger] self.files@[j]).path@ != path@,
            decreases self.files@.len() - i,
        {
            if self.files[i].path.same_as(path) {
                proof {
                    let w = choose|w: int|
                        0 <= w < self.files@.len() && (#[trigger] self.files@[w]).path@ == path@;
                    assert(w == i);
                }
                return Some(&self.files[i].data);
            }
            i += 1;
        }
        None
    }

    /// Deletes the file at this path; deleting a missing file is a no-op.
    pub fn remove(&mut self, path: &CanonPath)
        requires
            old(self).wf(),
        ensures
            final(self).wf(),
            final(self).as_map() == old(self).as_map().remove(path@),
            old(self).as_map().contains_key(path@) ==> final(self).file_count() == old(
                self,
            ).file_count() - 1,
            !old(self).as_map().contains_key(path@) ==> final(self).file_count() == old(
                self,
            ).file_count(),
    {
        let mut i: usize = 0;
        while i < self.files.len()
            invariant
                self.wf(),
                self.files@ == old(self).files@,
                i <= self.files@.len(),
                forall|j: int| 0 <= j < i ==> (#[trigger] self.files@[j]).path@ != path@,
            decreases self.files@.len() - i,
        {
            if self.files[i].path.same_as(path) {
                let _removed = self.files.remove(i);
                proof {
                    let n = self.files@.len() as int;
                    assert forall|j: int| 0 <= j < n implies (#[trigger] self.files@[j]).path@
                        != path@ by {
                        if j < i {
                            assert(self.files@[j] == old(self).files@[j]);
                        } else {
                            assert(self.files@[j] == old(self).files@[j + 1]);
                        }
                    }
                    assert(self.wf()) by {
                        assert forall|a: int, b: int| 0 <= a < b < n implies (
                        #[trigger] self.files@[a]).path@ != (#[trigger] self.files@[b]).path@ by {
                            let oa: int = if a < i {
                                a
                            } else {
                                a + 1
                            };
                            let ob: int = if b < i {
                                b
                            } else {
                                b + 1
                            };
                            assert(self.files@[a] == old(self).files@[oa]);
                            assert(self.files@[b] == old(self).files@[ob]);
                        }
                        assert forall|a: int| 0 <= a < n implies (
                        #[trigger] self.files@[a]).path.wf() by {
                            let oa: int = if a < i {
                                a
                            } else {
                                a + 1
                            };
                            assert(self.files@[a] == old(self).files@[oa]);
                        }
                    }
                    assert(self.as_map() =~= old(self).as_map().remove(path@)) by {
                        assert forall|p: Seq<Seq<char>>| self.as_map().contains_key(p) implies old(
                            self,
                        ).as_map().remove(path@).contains_key(p) && self.as_map()[p] == old(
                            self,
                        ).as_map()[p] by {
                            let w = choose|w: int|
                                0 <= w < self.files@.len() && (#[trigger] self.files@[w]).path@
                                    == p;
                            let ow: int = if w < i {
                                w
                            } else {
                                w + 1
                            };
                            assert(self.files@[w] == old(self).files@[ow]);
                            assert(old(self).as_map().contains_key(p));
                            let ov = choose|ov: int|
                                0 <= ov < old(self).files@.len() && (
                                #[trigger] old(self).files@[ov]).path@ == p;
                            assert(ov == ow);
                        }
                        assert forall|p: Seq<Seq<char>>|
                            old(self).as_map().contains_key(p) && p != path@ implies self.as_map().contains_key(
                            p,
                        ) by {
                            let ov = choose|ov: int|
                                0 <= ov < old(self).files@.len() && (
                                #[trigger] old(self).files@[ov]).path@ == p;
                            assert(ov != i);
                            let w: int = if ov < i {
                                ov
                            } else {
                                ov - 1
                            };
                            assert(self.files@[w] == old(self).files@[ov]);
                        }
                    }
                }
                return ;
            }
            i += 1;
        }
        proof {
            assert(!self.as_map().contains_key(path@));
            assert(self.as_map() =~= self.as_map().remove(path@));
        }
    }

    /// Creates or truncates the file at this path with the given contents.
    pub fn write(&mut self, path: &CanonPath, data: Vec<u8>)
        requires
            old(self).wf(),
            path.wf(),
        ensures
            final(self).wf(),
            final(self).as_map() == old(self).as_map().insert(path@, data@),
            !old(self).as_map().contains_key(path@) ==> final(self).file_count() == old(
                self,
            ).file_count() + 1,
    {
        self.remove(path);
        let ghost mid = *self;
        let p = path.copy();
        self.files.push(DiskFile { path: p, data });
        proof {
            let n = mid.files@.len() as int;
            assert forall|j: int| 0 <= j < n implies (#[trigger] self.files@[j]) == mid.files@[j]
            by {}
            assert(self.files@[n].path@ == path@);
            assert(self.wf()) by {
                assert forall|a: int, b: int| 0 <= a < b < n + 1 implies (
                #[trigger] self.files@[a]).path@ != (#[trigger] self.files@[b]).path@ by {
                    if b < n {
                        assert(self.files@[a] == mid.files@[a]);
                        assert(self.files@[b] == mid.files@[b]);
                    } else {
                        assert(self.files@[a] == mid.files@[a]);
                        assert(!mid.as_map().contains_key(path@));
                        if mid.files@[a].path@ == path@ {
                            assert(mid.as_map().contains_key(path@));
                        }
                    }
                }
            }
            assert(mid.as_map() == old(self).as_map().remove(path@));
            assert forall|q: Seq<Seq<char>>| #[trigger] self.as_map().contains_key(q) implies old(
                self,
            ).as_map().insert(path@, data@).contains_key(q) && self.as_map()[q] == old(
                self,
            ).as_map().insert(path@, data@)[q] by {
                let w = choose|w: int|
                    0 <= w < self.files@.len() && (#[trigger] self.files@[w]).path@ == q;
                if q == path@ {
                    if w < n {
                        assert(self.files@[w] == mid.files@[w]);
                        assert(mid.files@[w].path@ == q);
                        assert(mid.as_map().contains_key(q));
                        assert(false);
                    }
                    assert(w == n);
                    assert(self.files@[w].data@ == data@);
                    assert(self.as_map()[q] == data@);
                    assert(old(self).as_map().insert(path@, data@)[q] == data@);
                } else {
                    if w == n {
                        assert(self.files@[n].path@ == path@);
                        assert(false);
                    }
                    assert(w < n);
                    assert(self.files@[w] == mid.files@[w]);
                    assert(mid.files@[w].path@ == q);
                    assert(mid.as_map().contains_key(q));
                    let v = choose|v: int|
                        0 <= v < mid.files@.len() && (#[trigger] mid.files@[v]).path@ == q;
                    if v != w {
                        assert(mid.files@[v].path@ == mid.files@[w].path@);
                        assert(false);
                    }
                    assert(self.as_map()[q] == self.files@[w].data@);
                    assert(mid.as_map()[q] == mid.files@[v].data@);
                    assert(self.as_map()[q] == mid.as_map()[q]);
                    assert(mid.as_map()[q] == old(self).as_map()[q]);
                    assert(old(self).as_map().insert(path@, data@)[q] == old(self).as_map()[q]);
                }
            }
            assert forall|q: Seq<Seq<char>>| #[trigger] old(self).as_map().insert(
                path@,
                data@,
            ).contains_key(q) implies self.as_map().contains_key(q) by {
                if q == path@ {
                    assert(self.files@[n].path@ == q);
                } else {
                    assert(old(self).as_map().contains_key(q));
                    assert(mid.as_map().contains_key(q));
                    let v = choose|v: int|
                        0 <= v < mid.files@.len() && (#[trigger] mid.files@[v]).path@ == q;
                    assert(self.files@[v] == mid.files@[v]);
                    assert(self.files@[v].path@ == q);
                }
            }
            assert(self.as_map() =~~= old(self).as_map().insert(path@, data@));
        }
    }

    /// The number of files, for observation by tests.
    pub fn count(&self) -> (r: usize)
        ensures
            r == self.file_count(),
    {
        self.files.len()
    }
}

} // verus!
