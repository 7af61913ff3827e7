//! The path-confined file reader.
//!
//! A caller-supplied relative name is resolved against a confinement root
//! that was canonicalized once at construction time; only a resolution that
//! names an existing regular file *inside* the root is served. The check
//! order matters: a name that does not resolve to an existing file is "not
//! found" whether or not it would have escaped, so a probe learns nothing
//! about what exists outside the root; only an existing file outside the
//! root earns the unambiguous escape answer.

use vstd::prelude::*;
use vstd::slice::slice_to_vec;
use crate::disk::DiskModel;
use crate::errors::FetchError;
use crate::pathing::{is_prefix_of, resolve_under, CanonPath};

verus! {

/// Resolves `filename` against the canonical `folder` root and serves the
/// file's bytes back, confined to that root.
pub fn get_file_from_directory(folder: &CanonPath, disk: &DiskModel, filename: &str) -> (r: Result<
    Vec<u8>,
    FetchError,
>)
    requires
        folder.wf(),
        disk.wf(),
    ensures
        ({
            let resolved = resolve_under(folder@, filename@);
            &&& (!disk.as_map().contains_key(resolved) ==> r == Err::<Vec<u8>, FetchError>(
                FetchError::FileNotFound,
            ))
            &&& (disk.as_map().contains_key(resolved) && !is_prefix_of(folder@, resolved) ==> r
                == Err::<Vec<u8>, FetchError>(FetchError::PathNotInAllowedDirectory))
            &&& (disk.as_map().contains_key(resolved) && is_prefix_of(folder@, resolved) ==> (
            r matches Ok(d) && d@ == disk.as_map()[resolved]))
        }),
{
    let resolved = folder.resolve(filename);
    match disk.read(&resolved) {
        None => Err(FetchError::FileNotFound),
        Some(d) => {
            if !resolved.starts_with_path(folder) {
                Err(FetchError::PathNotInAllowedDirectory)
            } else {
                Ok(slice_to_vec(d.as_slice()))
            }
        },
    }
}

} // verus!
