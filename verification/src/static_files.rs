//! Plain static assets, served from their own confinement root. This path is
//! independent of the deduplicated upload store: no hashing, no index — just
//! the path-confined reader over a second directory.

use vstd::prelude::*;
use crate::disk::DiskModel;
use crate::errors::FetchError;
use crate::pathing::{is_canonical_abs, is_prefix_of, resolve_under, split_slash, CanonPath};
use crate::reader::get_file_from_directory;

verus! {

/// Serves static files from one canonical root directory.
pub struct StaticFilesService {
    static_files_directory: CanonPath,
}

impl StaticFilesService {
    /// The confinement root for static assets.
    pub closed spec fn root_view(self) -> Seq<Seq<char>> {
        self.static_files_directory@
    }

    pub closed spec fn wf(self) -> bool {
        self.static_files_directory.wf() && self.static_files_directory@.len() > 0
    }

    /// A service rooted at an absolute canonical directory path; anything
    /// else is rejected.
    pub fn new(static_files_directory: &str) -> (r: Option<Self>)
        ensures
            r is Some <==> is_canonical_abs(static_files_directory@),
            r matches Some(s) ==> {
                &&& s.wf()
                &&& s.root_view() == split_slash(static_files_directory@.skip(1))
            },
    {
        match CanonPath::parse_abs(static_files_directory) {
            Some(root) => {
                proof {
                    assert(split_slash(static_files_directory@.skip(1)).len() >= 1);
                }
                Some(StaticFilesService { static_files_directory: root })
            },
            None => None,
        }
    }

    /// Serves the named static file, confined to this service's root.
    pub fn get_static_file(&self, disk: &DiskModel, file_name: &str) -> (r: Result<
        Vec<u8>,
        FetchError,
    >)
        requires
            self.wf(),
            disk.wf(),
        ensures
            ({
                let resolved = resolve_under(self.root_view(), file_name@);
                &&& (!disk.as_map().contains_key(resolved) ==> r == Err::<Vec<u8>, FetchError>(
                    FetchError::FileNotFound,
                ))
                &&& (disk.as_map().contains_key(resolved) && !is_prefix_of(
                    self.root_view(),
                    resolved,
                ) ==> r == Err::<Vec<u8>, FetchError>(FetchError::PathNotInAllowedDirectory))
                &&& (disk.as_map().contains_key(resolved) && is_prefix_of(
                    self.root_view(),
                    resolved,
                ) ==> (r matches Ok(d) && d@ == disk.as_map()[resolved]))
            }),
    {
        get_file_from_directory(&self.static_files_directory, disk, file_name)
    }
}

} // verus!
