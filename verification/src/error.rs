//! The failure signal and the cleanup report shared by every blob store backend.

use vstd::prelude::*;

verus! {

/// The one failure a blob store operation can report: the backend could not
/// carry the operation out. A key or hash that is not stored is never an
/// error; it shows in the shape of the result.
#[derive(Debug, Clone, Copy, PartialEq, Eq, Structural)]
pub struct BlobStoreError;

/// What a cleanup pass did: how many stale entries it removed, and how many
/// it could not remove.
#[derive(Debug, Clone, Copy, PartialEq, Eq, Structural)]
pub struct BlobStoreCleanupStat {
    /// Entries deleted by the pass.
    pub delete_succeed: usize,
    /// Entries the pass failed to delete.
    pub delete_failed: usize,
}

impl BlobStoreCleanupStat {
    /// The report of a pass that had nothing to do.
    pub open spec fn empty() -> Self {
        BlobStoreCleanupStat { delete_succeed: 0, delete_failed: 0 }
    }
}

impl Default for BlobStoreCleanupStat {
    fn default() -> (stat: Self)
        ensures
            stat == BlobStoreCleanupStat::empty(),
    {
        BlobStoreCleanupStat { delete_succeed: 0, delete_failed: 0 }
    }
}

} // verus!
