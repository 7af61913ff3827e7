//! A streaming cryptographic digest accumulator.
//!
//! The accumulator wraps SHA-256 from the `sha2` crate. The digest itself is
//! not written out here: it is named by the uninterpreted function
//! [`sha256_digest`], and the trusted wrappers below relate the accumulator's
//! calls to the bytes fed into it.

use vstd::prelude::*;

verus! {

/// SHA-256 state from the `sha2` crate, kept opaque; its contents are
/// described by [`hasher_input`].
#[verifier::external_type_specification]
#[verifier::external_body]
pub struct ExSha256(sha2::Sha256);

/// The bytes fed so far into a SHA-256 accumulator.
pub uninterp spec fn hasher_input(h: sha2::Sha256) -> Seq<u8>;

/// The SHA-256 digest of a byte sequence. The algorithm is not restated here;
/// the name only records that the digest is a function of the input bytes
/// alone.
pub uninterp spec fn sha256_digest(bytes: Seq<u8>) -> Seq<u8>;

/// Relies on sha2::digest::Digest::new: a fresh accumulator has been fed
/// nothing.
#[verifier::external_body]
pub(crate) fn sha256_new() -> (h: sha2::Sha256)
    ensures
        hasher_input(h) == Seq::<u8>::empty(),
{
    sha2::Digest::new()
}

/// Relies on sha2::digest::Digest::update: feeding a chunk appends it to the
/// accumulated input.
#[verifier::external_body]
pub(crate) fn sha256_update(h: &mut sha2::Sha256, chunk: &[u8])
    ensures
        hasher_input(*final(h)) == hasher_input(*old(h)) + chunk@,
{
    sha2::Digest::update(h, chunk)
}

/// Relies on sha2::digest::Digest::finalize: the result is the 32-byte
/// SHA-256 digest of exactly the bytes fed in.
#[verifier::external_body]
pub(crate) fn sha256_finalize(h: sha2::Sha256) -> (d: Vec<u8>)
    ensures
        d@ == sha256_digest(hasher_input(h)),
        d@.len() == 32,
{
    sha2::Digest::finalize(h).to_vec()
}

} // verus!
