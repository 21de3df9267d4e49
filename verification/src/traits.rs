//! What every blob store backend offers.

use crate::error::{BlobStoreCleanupStat, BlobStoreError};
use crate::sidecar::{Hash32, SidecarVariant};
use alloy_eips::eip4844::{BlobAndProofV1, BlobAndProofV2};
use std::sync::Arc;
use vstd::prelude::*;

verus! {

/// A store of blob sidecars, keyed by the hash of the transaction that
/// carries them. Every operation may report that the backend failed; a key
/// or hash that is not stored shows in the result instead.
pub trait BlobStore {
    /// Stores a sidecar under a transaction hash. The caller sees to it that
    /// the hash has none yet.
    fn insert(&self, tx: Hash32, data: SidecarVariant) -> Result<(), BlobStoreError>;

    /// Stores several sidecars, each under its transaction hash.
    fn insert_all(&self, txs: Vec<(Hash32, SidecarVariant)>) -> Result<(), BlobStoreError>;

    /// Removes the sidecar of a transaction hash, if it has one.
    fn delete(&self, tx: Hash32) -> Result<(), BlobStoreError>;

    /// Removes the sidecars of several transaction hashes.
    fn delete_all(&self, txs: Vec<Hash32>) -> Result<(), BlobStoreError>;

    /// Lets the backend drop what it no longer needs, and reports what it
    /// dropped.
    fn cleanup(&self) -> BlobStoreCleanupStat;

    /// The sidecar of a transaction hash, if it has one.
    fn get(&self, tx: Hash32) -> Result<Option<Arc<SidecarVariant>>, BlobStoreError>;

    /// Whether a transaction hash has a sidecar.
    fn contains(&self, tx: Hash32) -> Result<bool, BlobStoreError>;

    /// The hashes among `txs` that have a sidecar, each with its sidecar, in
    /// the order of `txs`.
    fn get_all(&self, txs: Vec<Hash32>) -> (found: Result<
        Vec<(Hash32, Arc<SidecarVariant>)>,
        BlobStoreError,
    >)
        ensures
            found matches Ok(pairs) ==> pairs.len() <= txs.len(),
    ;

    /// The sidecars of the hashes among `txs` that have one, in the order of
    /// `txs`.
    fn get_exact(&self, txs: Vec<Hash32>) -> (found: Result<
        Vec<Arc<SidecarVariant>>,
        BlobStoreError,
    >)
        ensures
            found matches Ok(sidecars) ==> sidecars.len() <= txs.len(),
    ;

    /// One slot for each requested versioned hash, in the order of the
    /// request: the blob and its proof where a stored sidecar resolves the
    /// hash, and nothing where none does.
    fn get_by_versioned_hashes_v1(&self, versioned_hashes: &[Hash32]) -> (result: Result<
        Vec<Option<BlobAndProofV1>>,
        BlobStoreError,
    >)
        ensures
            result matches Ok(slots) ==> slots.len() == versioned_hashes.len(),
    ;

    /// The blob and its cell proofs for each requested versioned hash, in
    /// the order of the request; nothing at all where one of the hashes is
    /// not resolved.
    fn get_by_versioned_hashes_v2(&self, versioned_hashes: &[Hash32]) -> (result: Result<
        Option<Vec<BlobAndProofV2>>,
        BlobStoreError,
    >)
        ensures
            result matches Ok(Some(values)) ==> values.len() == versioned_hashes.len(),
    ;

    /// An estimate of the bytes that the stored sidecars take, where the
    /// backend has one.
    fn data_size_hint(&self) -> Option<u64>;

    /// An estimate of the number of stored sidecars.
    fn blobs_len(&self) -> u64;
}

} // verus!
