//! Streaming format validation and hashing.
//!
//! A [`StreamIngestor`] consumes a byte stream chunk by chunk. It first
//! buffers enough leading bytes to check a required format signature; until
//! the signature is decided, nothing is forwarded to the writer. Once the
//! signature matches, every consumed byte (the signature bytes included) is
//! fed into a running SHA-256 accumulator and handed back to the caller to be
//! written out. At end of stream the accumulator yields the digest of the
//! whole payload. The payload is never materialized here: memory use is
//! bounded by one chunk plus the signature prefix.

use vstd::prelude::*;
use vstd::slice::slice_to_vec;
use crate::errors::IngestError;
use crate::hashing::{hasher_input, sha256_digest, sha256_new, sha256_update, sha256_finalize};

verus! {

/// Returns true when `data` begins with the byte sequence `sig`.
pub open spec fn starts_with(data: Seq<u8>, sig: Seq<u8>) -> bool {
    data.len() >= sig.len() && data.subrange(0, sig.len() as int) == sig
}

enum IngestPhase {
    /// Still gathering the leading bytes of the signature.
    Checking,
    /// The signature matched; content is hashed and forwarded.
    Accepting,
    /// The signature did not match; no further input is accepted.
    Rejected,
}

/// The streaming hasher/validator. See the module documentation.
pub struct StreamIngestor {
    signature: Vec<u8>,
    buffered: Vec<u8>,
    hasher: sha2::Sha256,
    phase: IngestPhase,
}

impl StreamIngestor {
    /// The required format signature.
    pub closed spec fn sig(self) -> Seq<u8> {
        self.signature@
    }

    /// True while the signature has not yet been fully read.
    pub closed spec fn checking(self) -> bool {
        self.phase is Checking
    }

    /// True once the signature has matched.
    pub closed spec fn accepting(self) -> bool {
        self.phase is Accepting
    }

    /// True once the signature has failed to match.
    pub closed spec fn rejected(self) -> bool {
        self.phase is Rejected
    }

    /// All bytes consumed from the stream so far.
    pub closed spec fn consumed(self) -> Seq<u8> {
        if self.phase is Checking {
            self.buffered@
        } else {
            hasher_input(self.hasher)
        }
    }

    /// All bytes handed back to the writer so far: nothing while the
    /// signature is undecided, everything consumed once it matched.
    pub open spec fn forwarded(self) -> Seq<u8> {
        if self.accepting() {
            self.consumed()
        } else {
            Seq::<u8>::empty()
        }
    }

    /// Internal coherence of the three phases.
    pub closed spec fn wf(self) -> bool {
        &&& (self.checking() ==> self.buffered@.len() < self.signature@.len()
            && hasher_input(self.hasher) == Seq::<u8>::empty())
        &&& (self.accepting() ==> starts_with(hasher_input(self.hasher), self.signature@))
    }

    /// Starts a stream against the given required signature.
    pub fn new(signature: Vec<u8>) -> (s: Self)
        ensures
            s.wf(),
            s.sig() == signature@,
            s.consumed() == Seq::<u8>::empty(),
            s.accepting() == (signature@.len() == 0),
            s.checking() == (signature@.len() > 0),
            !s.rejected(),
            s.checking() ==> s.consumed().len() < s.sig().len(),
            s.accepting() ==> starts_with(s.consumed(), s.sig()),
    {
        proof {
            assert(Seq::<u8>::empty().subrange(0, 0) =~= Seq::<u8>::empty());
        }
        if signature.len() == 0 {
            assert(signature@ =~= Seq::<u8>::empty());
            StreamIngestor {
                signature,
                buffered: Vec::new(),
                hasher: sha256_new(),
                phase: IngestPhase::Accepting,
            }
        } else {
            StreamIngestor {
                signature,
                buffered: Vec::new(),
                hasher: sha256_new(),
                phase: IngestPhase::Checking,
            }
        }
    }

    /// Consumes one chunk of the stream. The result is the bytes the caller
    /// must now write out, or `NotValidFormat` the moment the leading bytes
    /// are known not to be the required signature; in that case nothing was
    /// or ever will be forwarded.
    pub fn accept_chunk(&mut self, chunk: &[u8]) -> (r: Result<Vec<u8>, IngestError>)
        requires
            old(self).wf(),
            !old(self).rejected(),
        ensures
            final(self).wf(),
            final(self).sig() == old(self).sig(),
            final(self).checking() ==> final(self).consumed().len() < final(self).sig().len(),
            final(self).accepting() ==> starts_with(final(self).consumed(), final(self).sig()),
            ({
                let combined = old(self).consumed() + chunk@;
                &&& (r is Err <==> old(self).checking() && combined.len() >= old(self).sig().len()
                    && !starts_with(combined, old(self).sig()))
                &&& (r is Err ==> r == Err::<Vec<u8>, IngestError>(IngestError::NotValidFormat)
                    && final(self).rejected())
                &&& (r is Ok ==> {
                    &&& !final(self).rejected()
                    &&& final(self).consumed() == combined
                    &&& final(self).accepting() == (combined.len() >= old(self).sig().len())
                    &&& final(self).checking() == (combined.len() < old(self).sig().len())
                    &&& r->Ok_0@ == final(self).forwarded().skip(old(self).forwarded().len() as int)
                })
            }),
    {
        let ghost combined = old(self).consumed() + chunk@;
        match self.phase {
            IngestPhase::Accepting => {
                sha256_update(&mut self.hasher, chunk);
                let out = slice_to_vec(chunk);
                proof {
                    let siglen = old(self).sig().len() as int;
                    assert(combined.subrange(0, siglen)
                        =~= old(self).consumed().subrange(0, siglen));
                    assert(out@ =~= self.forwarded().skip(old(self).forwarded().len() as int));
                }
                Ok(out)
            }
            IngestPhase::Checking => {
                let ghost orig = old(self).consumed();
                let mut i: usize = 0;
                while i < chunk.len()
                    invariant
                        i <= chunk.len(),
                        self.buffered@ == orig + chunk@.take(i as int),
                        self.signature == old(self).signature,
                        self.phase is Checking,
                        self.hasher == old(self).hasher,
                    decreases chunk.len() - i,
                {
                    self.buffered.push(chunk[i]);
                    i += 1;
                }
                assert(self.buffered@ =~= combined);
                if self.buffered.len() >= self.signature.len() {
                    if !prefix_matches(&self.buffered, &self.signature) {
                        self.phase = IngestPhase::Rejected;
                        return Err(IngestError::NotValidFormat);
                    }
                    sha256_update(&mut self.hasher, self.buffered.as_slice());
                    let out = slice_to_vec(self.buffered.as_slice());
                    self.buffered = Vec::new();
                    self.phase = IngestPhase::Accepting;
                    proof {
                        assert(hasher_input(self.hasher) =~= combined);
                        assert(out@ =~= self.forwarded().skip(old(self).forwarded().len() as int));
                    }
                    Ok(out)
                } else {
                    Ok(Vec::new())
                }
            }
            IngestPhase::Rejected => {
                assert(false);
                Err(IngestError::NotValidFormat)
            }
        }
    }

    /// Ends the stream. While the signature is still undecided the stream is
    /// too short to be well formed; otherwise the 32-byte digest of
    /// everything consumed is returned.
    pub fn finish(self) -> (r: Result<Vec<u8>, IngestError>)
        requires
            self.wf(),
            !self.rejected(),
        ensures
            self.checking() ==> r == Err::<Vec<u8>, IngestError>(IngestError::NotValidFormat),
            self.accepting() ==> {
                &&& r is Ok
                &&& r->Ok_0@ == sha256_digest(self.consumed())
                &&& r->Ok_0@.len() == 32
            },
    {
        match self.phase {
            IngestPhase::Checking => Err(IngestError::NotValidFormat),
            IngestPhase::Accepting => Ok(sha256_finalize(self.hasher)),
            IngestPhase::Rejected => {
                assert(false);
                Err(IngestError::NotValidFormat)
            }
        }
    }
}

/// Returns true when `data` begins with `sig`, byte for byte.
fn prefix_matches(data: &Vec<u8>, sig: &Vec<u8>) -> (r: bool)
    requires
        data@.len() >= sig@.len(),
    ensures
        r == starts_with(data@, sig@),
{
    let mut i: usize = 0;
    while i < sig.len()
        invariant
            i <= sig@.len() <= data@.len(),
            forall|j: int| 0 <= j < i ==> data@[j] == sig@[j],
        decreases sig@.len() - i,
    {
        if data[i] != sig[i] {
            assert(data@.subrange(0, sig@.len() as int)[i as int] != sig@[i as int]);
            return false;
        }
        i += 1;
    }
    assert(data@.subrange(0, sig@.len() as int) =~= sig@);
    true
}

} // verus!
