//! The options of a snapshot, and the decisions of the snapshot run that
//! do not depend on the network: which channels it mirrors and which
//! failures end it.

use vstd::prelude::*;

use crate::download::{DownloadError, SyncError};
use crate::text::{owned, texts};

verus! {

/// What to pack into a snapshot archive.
#[derive(Debug, Clone, PartialEq, Eq)]
pub struct PackArgs {
    /// Where the archive is written.
    pub pack_file: String,
    /// The channels to mirror (`1.67.1`, `1.54`, `nightly-2024-01-15`, ...);
    /// when empty, the latest stable and nightly releases.
    pub rust_versions: Vec<String>,
    /// The platforms to mirror; when empty, every upstream platform.
    pub platforms: Vec<String>,
    /// How many downloads may run at once.
    pub threads: usize,
    /// Where rustup files are downloaded from.
    pub source: String,
    /// How many times a failed download is retried.
    pub retries: usize,
}

/// Which archive to unpack, and where.
#[derive(Debug, Clone, PartialEq, Eq)]
pub struct UnpackArgs {
    /// The archive.
    pub packed_file: String,
    /// The registry root that it is unpacked into.
    pub root_registry: String,
}

/// The channels that a snapshot mirrors: the requested ones, or `stable` and
/// `nightly` when none is requested.
pub open spec fn channels_of(requested: Seq<Seq<char>>) -> Seq<Seq<char>> {
    if requested.len() == 0 {
        seq!["stable"@, "nightly"@]
    } else {
        requested
    }
}

impl PackArgs {
    /// The snapshot mirrors requested channels only (none are the latest).
    pub open spec fn pinned(&self) -> bool {
        self.rust_versions@.len() > 0
    }

    /// The channels that the snapshot mirrors, in order.
    pub fn channels(&self) -> (r: Vec<String>)
        ensures
            texts(r@) == channels_of(texts(self.rust_versions@)),
    {
        let mut r: Vec<String> = Vec::new();
        if self.rust_versions.len() == 0 {
            r.push(owned("stable"));
            r.push(owned("nightly"));
            assert(texts(r@) =~= channels_of(texts(self.rust_versions@)));
            return r;
        }
        let mut i: usize = 0;
        while i < self.rust_versions.len()
            invariant
                i <= self.rust_versions.len(),
                texts(r@) == texts(self.rust_versions@).take(i as int),
            decreases self.rust_versions.len() - i,
        {
            let ghost before = r@;
            r.push(self.rust_versions[i].clone());
            assert(texts(r@) =~= texts(before).push(self.rust_versions@[i as int]@));
            assert(texts(self.rust_versions@).take(i + 1) =~= texts(self.rust_versions@).take(i as int).push(
                self.rust_versions@[i as int]@,
            ));
            i = i + 1;
        }
        assert(texts(self.rust_versions@).take(i as int) =~= texts(self.rust_versions@));
        r
    }
}

/// Whether a failed channel ends the snapshot: only a requested channel
/// whose manifest does not exist upstream does; any other failure is
/// reported and the snapshot goes on.
pub fn channel_failure_ends_pack(pinned: bool, err: &SyncError) -> (r: bool)
    ensures
        r == (pinned && err matches SyncError::Download(DownloadError::NotFound)),
{
    match err {
        SyncError::Download(DownloadError::NotFound) => pinned,
        _ => false,
    }
}

} // verus!
