//! The content store facade.
//!
//! `ingest` consumes an inbound byte stream: the leading bytes must match a
//! required format signature, every consumed byte feeds a running SHA-256
//! digest, and the payload lands at a freshly named temporary path under the
//! store's confinement root. The caller then either commits the returned
//! handle — a deduplication lookup decides whether a fresh index record is
//! inserted or an existing one is adopted and the redundant temporary file
//! removed — or hands it back to `discard`, which removes the temporary file.
//! `fetch_by_name` and `fetch_by_id` serve stored bytes back through the
//! path-confined reader.
//!
//! Identical concurrent uploads are outside this sequential model; the
//! commit step here re-checks the index, so the "insert or adopt existing"
//! choice is made atomically with respect to this store value.

use vstd::prelude::*;
use vstd::slice::slice_to_vec;
use crate::disk::DiskModel;
use crate::errors::{FetchError, IngestError};
use crate::handle::FileHandle;
use crate::hashing::sha256_digest;
use crate::index::{DedupIndex, RecordView};
use crate::ingest::{starts_with, StreamIngestor};
use crate::pathing::{
    is_canonical_abs, is_normal_seg, is_prefix_of, resolve_under, split_slash, CanonPath,
};

verus! {

/// One observation made of an inbound byte stream: a chunk of bytes, the
/// explicit end-of-stream signal, or a read failure.
pub enum StreamEvent {
    Chunk(Vec<u8>),
    End,
    ReadError,
}

/// The spec-level shape of one stream event.
pub enum EventView {
    Chunk(Seq<u8>),
    End,
    ReadError,
}

impl View for StreamEvent {
    type V = EventView;

    open spec fn view(&self) -> EventView {
        match self {
            StreamEvent::Chunk(b) => EventView::Chunk(b@),
            StreamEvent::End => EventView::End,
            StreamEvent::ReadError => EventView::ReadError,
        }
    }
}

/// The views of a sequence of stream events.
pub open spec fn events_view(evs: Seq<StreamEvent>) -> Seq<EventView> {
    evs.map_values(|e: StreamEvent| e@)
}

/// An event that ends the stream.
pub open spec fn is_terminal(e: EventView) -> bool {
    !(e is Chunk)
}

/// A well-formed stream: some events, of which exactly the last is terminal.
pub open spec fn stream_wf(evs: Seq<EventView>) -> bool {
    &&& evs.len() > 0
    &&& is_terminal(evs.last())
    &&& forall|i: int| 0 <= i < evs.len() - 1 ==> !is_terminal(#[trigger] evs[i])
}

/// The stream ended with the explicit end-of-stream signal rather than a
/// read failure.
pub open spec fn stream_complete(evs: Seq<EventView>) -> bool {
    evs.last() is End
}

/// The bytes an event carries.
pub open spec fn chunk_bytes(e: EventView) -> Seq<u8> {
    match e {
        EventView::Chunk(b) => b,
        _ => Seq::<u8>::empty(),
    }
}

/// All bytes carried by the first `n` events, in stream order.
pub open spec fn bytes_up_to(evs: Seq<EventView>, n: int) -> Seq<u8>
    decreases n,
{
    if n <= 0 {
        Seq::<u8>::empty()
    } else {
        bytes_up_to(evs, n - 1) + chunk_bytes(evs[n - 1])
    }
}

/// All bytes the stream carries.
pub open spec fn stream_bytes(evs: Seq<EventView>) -> Seq<u8> {
    bytes_up_to(evs, evs.len() as int)
}

/// Bytes seen early in a stream are a prefix of the bytes seen later.
pub proof fn lemma_bytes_up_to_prefix(evs: Seq<EventView>, m: int, n: int)
    requires
        0 <= m <= n,
    ensures
        bytes_up_to(evs, m).is_prefix_of(bytes_up_to(evs, n)),
    decreases n - m,
{
    if m == n {
        assert(bytes_up_to(evs, m) =~= bytes_up_to(evs, n).subrange(
            0,
            bytes_up_to(evs, m).len() as int,
        ));
    } else {
        lemma_bytes_up_to_prefix(evs, m, n - 1);
        assert(bytes_up_to(evs, n) == bytes_up_to(evs, n - 1) + chunk_bytes(evs[n - 1]));
        assert(bytes_up_to(evs, m) =~= bytes_up_to(evs, n).subrange(
            0,
            bytes_up_to(evs, m).len() as int,
        ));
    }
}

/// Whether a byte sequence starts with the signature is decided by any
/// prefix long enough to contain the signature.
pub proof fn lemma_starts_with_prefix(a: Seq<u8>, b: Seq<u8>, sig: Seq<u8>)
    requires
        a.is_prefix_of(b),
        a.len() >= sig.len(),
    ensures
        starts_with(a, sig) == starts_with(b, sig),
{
    assert(a.subrange(0, sig.len() as int) =~= b.subrange(0, sig.len() as int)) by {
        assert(a =~= b.subrange(0, a.len() as int));
    }
}

/// A character that can occur in a hyphenated lowercase UUID.
pub open spec fn is_uuid_char(c: char) -> bool {
    c == '-' || ('0' <= c <= '9') || ('a' <= c <= 'f')
}

/// Relies on uuid::Uuid::new_v4 and its Display form: a fresh version-4 UUID
/// formats as 36 characters, each a lowercase hexadecimal digit or a hyphen.
/// Nothing more is assumed of the random value.
#[verifier::external_body]
fn fresh_temp_name() -> (r: String)
    ensures
        r@.len() == 36,
        forall|i: int| 0 <= i < 36 ==> is_uuid_char(#[trigger] r@[i]),
{
    uuid::Uuid::new_v4().to_string()
}

/// A UUID-shaped name is a normal path segment.
pub proof fn lemma_uuid_name_is_normal(s: Seq<char>)
    requires
        s.len() == 36,
        forall|i: int| 0 <= i < 36 ==> is_uuid_char(#[trigger] s[i]),
    ensures
        is_normal_seg(s),
{
    assert(s[0] != '/');
    if s.contains('/') {
        let j = choose|j: int| 0 <= j < s.len() && s[j] == '/';
        assert(is_uuid_char(s[j]));
        assert(false);
    }
}

/// The index after committing a handle with content hash `h`, temporary name
/// `name` and next fresh identity `fresh`: unchanged on a deduplication hit,
/// extended by one record on a miss.
pub open spec fn index_after_commit(
    m: Map<Seq<u8>, RecordView>,
    h: Seq<u8>,
    name: Seq<char>,
    fresh: int,
) -> Map<Seq<u8>, RecordView> {
    if m.contains_key(h) {
        m
    } else {
        m.insert(h, RecordView { id: fresh, name })
    }
}

/// The identity that committing yields: the existing record's on a hit, the
/// fresh one on a miss.
pub open spec fn id_after_commit(m: Map<Seq<u8>, RecordView>, h: Seq<u8>, fresh: int) -> int {
    if m.contains_key(h) {
        m[h].id
    } else {
        fresh
    }
}

/// The total of all read sizes of a plan.
pub open spec fn plan_total(p: Seq<usize>) -> int
    decreases p.len(),
{
    if p.len() == 0 {
        0
    } else {
        plan_total(p.drop_last()) + p.last()
    }
}

/// The content store: a confinement root, a deduplication index, and the
/// configured read-buffer size.
pub struct ContentStore {
    root: CanonPath,
    index: DedupIndex,
    buffer_size: usize,
}

impl ContentStore {
    /// The confinement root for uploaded content.
    pub closed spec fn root_view(self) -> Seq<Seq<char>> {
        self.root@
    }

    /// The deduplication index as a map from content hash to record.
    pub closed spec fn index_map(self) -> Map<Seq<u8>, RecordView> {
        self.index.as_map()
    }

    /// The number of index records.
    pub closed spec fn record_count(self) -> nat {
        self.index.record_count()
    }

    /// The identity the next inserted record will get.
    pub closed spec fn fresh_id(self) -> int {
        self.index.fresh_id()
    }

    /// The configured read-buffer size.
    pub closed spec fn buffer_size_spec(self) -> nat {
        self.buffer_size as nat
    }

    pub closed spec fn wf(self) -> bool {
        &&& self.root.wf()
        &&& self.root@.len() > 0
        &&& self.index.wf()
        &&& self.buffer_size >= 1
    }

    /// A store rooted at an absolute canonical directory path, with an empty
    /// index. A malformed root or a zero buffer size is rejected.
    pub fn new(folder_path: &str, buffer_size: usize) -> (r: Option<Self>)
        ensures
            r is Some <==> is_canonical_abs(folder_path@) && buffer_size >= 1,
            r matches Some(s) ==> {
                &&& s.wf()
                &&& s.root_view() == split_slash(folder_path@.skip(1))
                &&& s.index_map() == Map::<Seq<u8>, RecordView>::empty()
                &&& s.record_count() == 0
                &&& s.fresh_id() == 1
                &&& s.buffer_size_spec() == buffer_size
            },
    {
        if buffer_size == 0 {
            return None;
        }
        match CanonPath::parse_abs(folder_path) {
            Some(root) => {
                proof {
                    assert(split_slash(folder_path@.skip(1)).len() >= 1);
                }
                Some(ContentStore { root, index: DedupIndex::new(), buffer_size })
            },
            None => None,
        }
    }

    /// The sizes of the reads one ingest performs over a stream of
    /// `total_len` bytes: first the signature prefix, then full buffers,
    /// then one final short read if bytes remain.
    pub fn read_plan(&self, total_len: usize, sig_len: usize) -> (r: Vec<usize>)
        requires
            self.wf(),
            sig_len <= total_len,
        ensures
            r@.len() >= 1,
            r@[0] == sig_len,
            forall|i: int| 1 <= i < r@.len() - 1 ==> r@[i] == self.buffer_size_spec(),
            r@.len() >= 2 ==> 1 <= r@[r@.len() - 1] <= self.buffer_size_spec(),
            plan_total(r@) == total_len,
            total_len == sig_len ==> r@.len() == 1,
    {
        let bs = self.buffer_size;
        let mut plan: Vec<usize> = Vec::new();
        plan.push(sig_len);
        proof {
            assert(plan_total(Seq::<usize>::empty()) == 0);
            assert(plan@.drop_last() =~= Seq::<usize>::empty());
            assert(plan_total(plan@) == sig_len);
        }
        let mut remaining: usize = total_len - sig_len;
        while remaining >= bs
            invariant
                bs >= 1,
                bs == self.buffer_size_spec(),
                plan@.len() >= 1,
                plan@[0] == sig_len,
                forall|i: int| 1 <= i < plan@.len() ==> plan@[i] == bs,
                plan_total(plan@) == total_len - remaining,
                remaining <= total_len - sig_len,
                total_len == sig_len ==> plan@.len() == 1,
            decreases remaining,
        {
            let ghost before = plan@;
            plan.push(bs);
            proof {
                assert(plan@.drop_last() =~= before);
            }
            remaining = remaining - bs;
        }
        if remaining > 0 {
            let ghost before = plan@;
            plan.push(remaining);
            proof {
                assert(plan@.drop_last() =~= before);
            }
        }
        plan
    }

    /// Ingests an inbound stream into a given temporary name. A caller that
    /// has no name of its own calls [`ContentStore::ingest`], which draws a
    /// fresh random one.
    ///
    /// The stream is consumed event by event. Leading bytes must match the
    /// required `signature`; a mismatch — or the explicit end of the stream
    /// before the signature is complete — rejects the upload and leaves disk
    /// and index untouched, so no permanent file is ever created for a
    /// stream of the wrong format. A read failure aborts in the same clean
    /// way. On success the payload sits at the temporary path and the
    /// returned handle carries its digest: pending on a fresh digest,
    /// already committed when the digest is already indexed — in that case
    /// nothing new is stored at all.
    #[verifier::loop_isolation(false)]
    pub fn ingest_with_name(
        &self,
        disk: &mut DiskModel,
        events: &Vec<StreamEvent>,
        signature: &Vec<u8>,
        temp_name: String,
    ) -> (r: Result<FileHandle, IngestError>)
        requires
            self.wf(),
            old(disk).wf(),
            stream_wf(events_view(events@)),
            is_normal_seg(temp_name@),
        ensures
            final(disk).wf(),
            ({
                let evs = events_view(events@);
                let data = stream_bytes(evs);
                let ok = stream_complete(evs);
                let sig = signature@;
                let temp_path = self.root_view().push(temp_name@);
                let collide = old(disk).as_map().contains_key(temp_path);
                &&& ((r == Err::<FileHandle, IngestError>(IngestError::IoError)) <==> collide)
                &&& ((r == Err::<FileHandle, IngestError>(IngestError::NotValidFormat)) <==> (
                !collide && ((data.len() >= sig.len() && !starts_with(data, sig)) || (ok
                    && data.len() < sig.len()))))
                &&& ((r == Err::<FileHandle, IngestError>(IngestError::UpstreamReadError)) <==> (
                !collide && !ok && (data.len() < sig.len() || starts_with(data, sig))))
                &&& ((r is Ok) <==> (!collide && ok && starts_with(data, sig)))
                &&& (r is Err ==> final(disk).as_map() == old(disk).as_map())
                &&& (r matches Ok(h) ==> {
                    let digest = sha256_digest(data);
                    &&& h.wf()
                    &&& h.hash_spec() == digest
                    &&& (self.index_map().contains_key(digest) ==> {
                        &&& h.committed()
                        &&& h.id_of() == self.index_map()[digest].id
                        &&& h.name_spec() == self.index_map()[digest].name
                        &&& final(disk).as_map() == old(disk).as_map()
                    })
                    &&& (!self.index_map().contains_key(digest) ==> {
                        &&& !h.committed()
                        &&& h.name_spec() == temp_name@
                        &&& final(disk).as_map() == old(disk).as_map().insert(temp_path, data)
                    })
                })
            }),
    {
        let ghost evs = events_view(events@);
        let ghost data = stream_bytes(evs);
        let ghost sig = signature@;
        let temp_path = self.root.child(temp_name.clone());
        if disk.contains(&temp_path) {
            return Err(IngestError::IoError);
        }
        let mut ing = StreamIngestor::new(slice_to_vec(signature.as_slice()));
        let mut written: Vec<u8> = Vec::new();
        let n = events.len();
        let mut i: usize = 0;
        while i < n - 1
            invariant
                n == events@.len(),
                n >= 1,
                evs == events_view(events@),
                stream_wf(evs),
                data == stream_bytes(evs),
                sig == signature@,
                i <= n - 1,
                ing.wf(),
                !ing.rejected(),
                ing.checking() || ing.accepting(),
                ing.sig() == sig,
                ing.consumed() == bytes_up_to(evs, i as int),
                ing.checking() ==> ing.consumed().len() < sig.len(),
                ing.accepting() ==> starts_with(ing.consumed(), sig),
                written@ == ing.forwarded(),
                disk.wf(),
                disk.as_map() == old(disk).as_map(),
            decreases n - 1 - i,
        {
            assert(!is_terminal(evs[i as int]));
            match &events[i] {
                StreamEvent::Chunk(c) => {
                    let ghost pre = ing.consumed();
                    let res = ing.accept_chunk(c.as_slice());
                    proof {
                        assert(evs[i as int] == events@[i as int]@);
                        assert(chunk_bytes(evs[i as int]) == c@);
                        assert(pre + c@ == bytes_up_to(evs, i as int + 1));
                    }
                    match res {
                        Ok(mut more) => {
                            written.append(&mut more);
                            proof {
                                assert(written@ =~= ing.forwarded());
                            }
                        },
                        Err(_) => {
                            proof {
                                let combined = bytes_up_to(evs, i as int + 1);
                                lemma_bytes_up_to_prefix(evs, i as int + 1, evs.len() as int);
                                lemma_starts_with_prefix(combined, data, sig);
                                assert(data.len() >= combined.len()) by {
                                    assert(combined.is_prefix_of(data));
                                }
                            }
                            return Err(IngestError::NotValidFormat);
                        },
                    }
                },
                StreamEvent::End => {
                    // Unreachable: only the last event is terminal.
                    assert(false);
                    return Err(IngestError::UpstreamReadError);
                },
                StreamEvent::ReadError => {
                    assert(false);
                    return Err(IngestError::UpstreamReadError);
                },
            }
            i += 1;
        }
        proof {
            assert(i == n - 1);
            assert(evs[n - 1] == evs.last());
            assert(data =~= bytes_up_to(evs, n - 1 as int)) by {
                assert(data == bytes_up_to(evs, n - 1 as int) + chunk_bytes(evs[n - 1]));
                assert(chunk_bytes(evs.last()) =~= Seq::<u8>::empty());
            }
            assert(ing.consumed() == data);
        }
        match &events[n - 1] {
            StreamEvent::Chunk(_) => {
                // Unreachable: the last event is terminal.
                assert(false);
                Err(IngestError::UpstreamReadError)
            },
            StreamEvent::ReadError => {
                proof {
                    assert(!stream_complete(evs));
                }
                Err(IngestError::UpstreamReadError)
            },
            StreamEvent::End => {
                proof {
                    assert(stream_complete(evs));
                }
                let ghost ingv = ing;
                match ing.finish() {
                    Err(_) => Err(IngestError::NotValidFormat),
                    Ok(digest) => {
                        proof {
                            assert(!ingv.checking());
                            assert(ingv.accepting());
                            assert(digest@ == sha256_digest(data));
                            assert(digest@.len() == 32);
                            assert(starts_with(data, sig));
                        }
                        match self.index.lookup(&digest) {
                            Some(img) => {
                                proof {
                                    assert(self.index_map().contains_key(sha256_digest(data)));
                                }
                                let h = FileHandle::new_committed(
                                    img.get_id(),
                                    img.get_filename().to_owned(),
                                    digest,
                                );
                                Ok(h)
                            },
                            None => {
                                proof {
                                    assert(!self.index_map().contains_key(sha256_digest(data)));
                                }
                                disk.write(&temp_path, written);
                                let h = FileHandle::new_pending(temp_name, digest);
                                Ok(h)
                            },
                        }
                    },
                }
            },
        }
    }

    /// Ingests an inbound stream under a fresh random temporary name. The
    /// name is drawn from a version-4 UUID; should it collide with an
    /// existing file — which nothing rules out for a random name — the
    /// ingest reports an I/O failure rather than touch that file.
    pub fn ingest(
        &self,
        disk: &mut DiskModel,
        events: &Vec<StreamEvent>,
        signature: &Vec<u8>,
    ) -> (r: Result<FileHandle, IngestError>)
        requires
            self.wf(),
            old(disk).wf(),
            stream_wf(events_view(events@)),
        ensures
            final(disk).wf(),
            ({
                let evs = events_view(events@);
                let data = stream_bytes(evs);
                let ok = stream_complete(evs);
                let sig = signature@;
                &&& ((r == Err::<FileHandle, IngestError>(IngestError::NotValidFormat)) ==> ((
                data.len() >= sig.len() && !starts_with(data, sig)) || (ok && data.len()
                    < sig.len())))
                &&& ((r == Err::<FileHandle, IngestError>(IngestError::UpstreamReadError)) ==> (!ok
                    && (data.len() < sig.len() || starts_with(data, sig))))
                &&& (r is Ok ==> (ok && starts_with(data, sig)))
                &&& ((ok && starts_with(data, sig)) ==> (r is Ok || r == Err::<
                    FileHandle,
                    IngestError,
                >(IngestError::IoError)))
                &&& ((r == Err::<FileHandle, IngestError>(IngestError::IoError)) ==> exists|
                    n: Seq<char>,
                |
                    {
                        &&& n.len() == 36
                        &&& (forall|i: int| 0 <= i < 36 ==> is_uuid_char(#[trigger] n[i]))
                        &&& #[trigger] old(disk).as_map().contains_key(self.root_view().push(n))
                    })
                &&& (r is Err ==> final(disk).as_map() == old(disk).as_map())
                &&& (r matches Ok(h) ==> {
                    let digest = sha256_digest(data);
                    &&& h.wf()
                    &&& h.hash_spec() == digest
                    &&& (self.index_map().contains_key(digest) ==> {
                        &&& h.committed()
                        &&& h.id_of() == self.index_map()[digest].id
                        &&& h.name_spec() == self.index_map()[digest].name
                        &&& final(disk).as_map() == old(disk).as_map()
                    })
                    &&& (!self.index_map().contains_key(digest) ==> {
                        &&& !h.committed()
                        &&& h.name_spec().len() == 36
                        &&& (forall|i: int|
                            0 <= i < 36 ==> is_uuid_char(#[trigger] h.name_spec()[i]))
                        &&& !old(disk).as_map().contains_key(
                            self.root_view().push(h.name_spec()),
                        )
                        &&& final(disk).as_map() == old(disk).as_map().insert(
                            self.root_view().push(h.name_spec()),
                            data,
                        )
                    })
                })
            }),
    {
        let temp_name = fresh_temp_name();
        proof {
            lemma_uuid_name_is_normal(temp_name@);
        }
        let ghost name = temp_name@;
        let r = self.ingest_with_name(disk, events, signature, temp_name);
        proof {
            if r == Err::<FileHandle, IngestError>(IngestError::IoError) {
                assert(name.len() == 36 && (forall|i: int|
                    0 <= i < 36 ==> is_uuid_char(#[trigger] name[i]))
                    && old(disk).as_map().contains_key(self.root_view().push(name)));
            }
        }
        r
    }

    /// Finalizes a handle. Committing an already committed handle is a no-op
    /// that yields the same identity again. Committing a pending handle looks
    /// its digest up in the index: on a miss a fresh record is inserted and
    /// the temporary file is kept as the permanent file; on a hit the handle
    /// adopts the existing record's identity and filename and its own,
    /// redundant temporary file is removed — never the existing record's.
    pub fn commit(&mut self, disk: &mut DiskModel, handle: &mut FileHandle) -> (r: i64)
        requires
            old(self).wf(),
            old(disk).wf(),
            old(handle).wf(),
            old(self).fresh_id() < i64::MAX,
        ensures
            final(self).wf(),
            final(disk).wf(),
            final(handle).wf(),
            final(self).root_view() == old(self).root_view(),
            final(self).buffer_size_spec() == old(self).buffer_size_spec(),
            final(handle).hash_spec() == old(handle).hash_spec(),
            final(handle).committed(),
            final(handle).id_of() == r,
            1 <= r,
            old(handle).committed() ==> {
                &&& r == old(handle).id_of()
                &&& final(self).index_map() == old(self).index_map()
                &&& final(self).record_count() == old(self).record_count()
                &&& final(self).fresh_id() == old(self).fresh_id()
                &&& final(disk).as_map() == old(disk).as_map()
                &&& *final(handle) == *old(handle)
            },
            !old(handle).committed() ==> {
                let m = old(self).index_map();
                let hsh = old(handle).hash_spec();
                &&& r == id_after_commit(m, hsh, old(self).fresh_id())
                &&& final(self).index_map() == index_after_commit(
                    m,
                    hsh,
                    old(handle).name_spec(),
                    old(self).fresh_id(),
                )
                &&& (m.contains_key(hsh) ==> {
                    &&& final(handle).name_spec() == m[hsh].name
                    &&& final(disk).as_map() == old(disk).as_map().remove(
                        old(self).root_view().push(old(handle).name_spec()),
                    )
                    &&& final(self).record_count() == old(self).record_count()
                    &&& final(self).fresh_id() == old(self).fresh_id()
                })
                &&& (!m.contains_key(hsh) ==> {
                    &&& final(handle).name_spec() == old(handle).name_spec()
                    &&& final(disk).as_map() == old(disk).as_map()
                    &&& final(self).record_count() == old(self).record_count() + 1
                    &&& final(self).fresh_id() == old(self).fresh_id() + 1
                })
            },
    {
        match handle.get_id() {
            Some(id) => id,
            None => {
                match self.index.lookup(handle.get_hash()) {
                    Some(img) => {
                        let temp_path = self.root.child(handle.get_name().to_owned());
                        disk.remove(&temp_path);
                        let id = img.get_id();
                        handle.mark_committed(id, img.get_filename().to_owned());
                        id
                    },
                    None => {
                        let name_string = handle.get_name().to_owned();
                        let id = self.index.insert_if_absent(handle.get_hash(), &name_string);
                        handle.mark_committed(id, name_string);
                        id
                    },
                }
            },
        }
    }

    /// Releases a handle without further use. A pending handle's temporary
    /// file is removed from disk; the index is untouched, so no record ever
    /// references the removed file. Discarding a committed handle removes
    /// nothing.
    pub fn discard(&self, disk: &mut DiskModel, handle: FileHandle)
        requires
            self.wf(),
            old(disk).wf(),
            handle.wf(),
        ensures
            final(disk).wf(),
            !handle.committed() ==> final(disk).as_map() == old(disk).as_map().remove(
                self.root_view().push(handle.name_spec()),
            ),
            handle.committed() ==> final(disk).as_map() == old(disk).as_map(),
    {
        match handle.get_id() {
            Some(_) => {},
            None => {
                let temp_path = self.root.child(handle.get_name().to_owned());
                disk.remove(&temp_path);
            },
        }
    }

    /// The number of index records, for observation by callers and tests.
    pub fn count_records(&self) -> (r: usize)
        ensures
            r == self.record_count(),
    {
        self.index.count()
    }

    /// Serves back the bytes stored under a caller-supplied relative name.
    /// The name is resolved lexically against the confinement root; a
    /// resolution that does not name an existing file is "not found", and an
    /// existing file outside the root is the one unambiguous escape answer.
    pub fn fetch_by_name(&self, disk: &DiskModel, name: &str) -> (r: Result<Vec<u8>, FetchError>)
        requires
            self.wf(),
            disk.wf(),
        ensures
            ({
                let resolved = resolve_under(self.root_view(), name@);
                &&& (!disk.as_map().contains_key(resolved) ==> r == Err::<Vec<u8>, FetchError>(
                    FetchError::FileNotFound,
                ))
                &&& (disk.as_map().contains_key(resolved) && !is_prefix_of(
                    self.root_view(),
                    resolved,
                ) ==> r == Err::<Vec<u8>, FetchError>(FetchError::PathNotInAllowedDirectory))
                &&& (disk.as_map().contains_key(resolved) && is_prefix_of(
                    self.root_view(),
                    resolved,
                ) ==> (r matches Ok(d) && d@ == disk.as_map()[resolved]))
            }),
    {
        crate::reader::get_file_from_directory(&self.root, disk, name)
    }

    /// Serves back the bytes of the stored file with the given identity.
    pub fn fetch_by_id(&self, disk: &DiskModel, id: i64) -> (r: Result<Vec<u8>, FetchError>)
        requires
            self.wf(),
            disk.wf(),
        ensures
            (!exists|h: Seq<u8>|
                #[trigger] self.index_map().contains_key(h) && self.index_map()[h].id == id) ==> r
                == Err::<Vec<u8>, FetchError>(FetchError::FileNotFound),
            forall|h: Seq<u8>|
                (#[trigger] self.index_map().contains_key(h) && self.index_map()[h].id == id)
                    ==> {
                    let p = self.root_view().push(self.index_map()[h].name);
                    &&& (disk.as_map().contains_key(p) ==> (r matches Ok(d) && d@
                        == disk.as_map()[p]))
                    &&& (!disk.as_map().contains_key(p) ==> r == Err::<Vec<u8>, FetchError>(
                        FetchError::FileNotFound,
                    ))
                },
    {
        match self.index.get_by_id(id) {
            None => {
                proof {
                    if exists|h: Seq<u8>|
                        #[trigger] self.index_map().contains_key(h) && self.index_map()[h].id
                            == id {
                        let h0 = choose|h: Seq<u8>|
                            #[trigger] self.index_map().contains_key(h) && self.index_map()[h].id
                                == id;
                        assert(self.index.as_map().contains_key(h0) && self.index.as_map()[h0].id
                            == id);
                        assert(false);
                    }
                }
                Err(FetchError::FileNotFound)
            },
            Some(img) => {
                proof {
                    let h0 = choose|h: Seq<u8>|
                        #[trigger] self.index.as_map().contains_key(h) && self.index.as_map()[h].id
                            == id;
                    assert(self.index_map().contains_key(h0) && self.index_map()[h0].id == id);
                    assert forall|h: Seq<u8>|
                        #[trigger] self.index_map().contains_key(h) && self.index_map()[h].id
                            == id implies self.index_map()[h].name == img.filename_spec() by {
                        assert(self.index.as_map().contains_key(h) && self.index.as_map()[h].id
                            == id);
                    }
                }
                let path = self.root.child(img.get_filename().to_owned());
                match disk.read(&path) {
                    None => Err(FetchError::FileNotFound),
                    Some(d) => Ok(slice_to_vec(d.as_slice())),
                }
            },
        }
    }
}

} // verus!
