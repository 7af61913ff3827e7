//! Error taxonomy of the content store.
//!
//! Every failure is local to one ingest or fetch operation; nothing here is
//! fatal to a whole process.

use vstd::prelude::*;

verus! {

/// Failures of the ingest path (streaming validation, hashing and writing).
#[derive(Clone, Copy, Debug, PartialEq, Eq, Structural)]
pub enum IngestError {
    /// The stream does not begin with the required format signature, or it
    /// ends before the signature is fully read.
    NotValidFormat,
    /// The inbound byte stream itself reported a read failure.
    UpstreamReadError,
    /// A disk write or create failed.
    IoError,
}

/// Failures of the confined fetch path.
#[derive(Clone, Copy, Debug, PartialEq, Eq, Structural)]
pub enum FetchError {
    /// The requested name does not resolve to a stored regular file. Several
    /// internal causes collapse into this one client-facing answer, so that a
    /// probe cannot distinguish them.
    FileNotFound,
    /// The requested name resolves to an existing file outside the
    /// confinement root. Always reported as a client error.
    PathNotInAllowedDirectory,
}

impl IngestError {
    /// A short human-readable description.
    pub fn message(&self) -> (r: &'static str)
        ensures
            self is NotValidFormat ==> r@ == "file does not begin with the required signature"@,
            self is UpstreamReadError ==> r@ == "failed to read the inbound stream"@,
            self is IoError ==> r@ == "failed to write the file"@,
    {
        match self {
            IngestError::NotValidFormat => "file does not begin with the required signature",
            IngestError::UpstreamReadError => "failed to read the inbound stream",
            IngestError::IoError => "failed to write the file",
        }
    }
}

impl FetchError {
    /// A short human-readable description.
    pub fn message(&self) -> (r: &'static str)
        ensures
            self is FileNotFound ==> r@ == "file not found"@,
            self is PathNotInAllowedDirectory ==> r@ == "path is not in allowed directory"@,
    {
        match self {
            FetchError::FileNotFound => "file not found",
            FetchError::PathNotInAllowedDirectory => "path is not in allowed directory",
        }
    }
}

} // verus!
