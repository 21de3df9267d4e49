//! The in-memory blob store, shared between its users.

use crate::blob_map::{share, StoredSidecar};
use crate::error::{BlobStoreCleanupStat, BlobStoreError};
use crate::sidecar::{Hash32, SidecarVariant};
use crate::store::{dense_answer, found_all, found_exact, stored_in, InMemoryBlobStoreInner};
use crate::traits::BlobStore;
use alloy_eips::eip4844::{BlobAndProofV1, BlobAndProofV2};
use std::sync::Arc;
use vstd::prelude::*;
use vstd::rwlock::{RwLock, RwLockPredicate};

verus! {

/// What the lock asks of the state it guards: nothing beyond what every
/// state of the store holds by its type.
pub struct AnyState;

impl RwLockPredicate<InMemoryBlobStoreInner> for AnyState {
    open spec fn inv(self, state: InMemoryBlobStoreInner) -> bool {
        true
    }
}

/// An in-memory blob store. Its state sits behind a reader/writer lock:
/// reads share it, and each write holds it alone, for the mapping and the
/// size tracker together. A clone is another handle to the same state.
///
/// Each operation is the operation of the same name of the state, on what
/// the lock holds when the operation takes it. Other handles may have
/// changed that since this handle last saw it, so an operation promises here
/// only what holds of every content: that it does not fail, and, of a read
/// of several keys or hashes, that its answer is the answer of some
/// content.
pub struct InMemoryBlobStore {
    inner: Arc<RwLock<InMemoryBlobStoreInner, AnyState>>,
}

impl InMemoryBlobStore {
    /// Whether two handles lead to the same state.
    pub closed spec fn same_store(&self, other: &Self) -> bool {
        self.inner == other.inner
    }

    /// A handle to a new, empty store.
    pub fn new() -> (store: Self) {
        let state = InMemoryBlobStoreInner::new();
        InMemoryBlobStore { inner: Arc::new(RwLock::new(state, Ghost(AnyState))) }
    }
}

impl Default for InMemoryBlobStore {
    fn default() -> (store: Self) {
        InMemoryBlobStore::new()
    }
}

impl Clone for InMemoryBlobStore {
    fn clone(&self) -> (copy: Self)
        ensures
            copy.same_store(self),
    {
        InMemoryBlobStore { inner: share(&self.inner) }
    }
}

impl BlobStore for InMemoryBlobStore {
    fn insert(&self, tx: Hash32, data: SidecarVariant) -> (done: Result<(), BlobStoreError>)
        ensures
            done is Ok,
    {
        let (mut state, lock) = self.inner.acquire_write();
        state.insert(tx, data);
        lock.release_write(state);
        Ok(())
    }

    fn insert_all(&self, txs: Vec<(Hash32, SidecarVariant)>) -> (done: Result<(), BlobStoreError>)
        ensures
            done is Ok,
    {
        if txs.is_empty() {
            return Ok(());
        }
        let (mut state, lock) = self.inner.acquire_write();
        state.insert_all(txs);
        lock.release_write(state);
        Ok(())
    }

    fn delete(&self, tx: Hash32) -> (done: Result<(), BlobStoreError>)
        ensures
            done is Ok,
    {
        let (mut state, lock) = self.inner.acquire_write();
        state.delete(tx);
        lock.release_write(state);
        Ok(())
    }

    fn delete_all(&self, txs: Vec<Hash32>) -> (done: Result<(), BlobStoreError>)
        ensures
            done is Ok,
    {
        if txs.is_empty() {
            return Ok(());
        }
        let (mut state, lock) = self.inner.acquire_write();
        state.delete_all(txs);
        lock.release_write(state);
        Ok(())
    }

    fn cleanup(&self) -> (stat: BlobStoreCleanupStat)
        ensures
            stat == BlobStoreCleanupStat::empty(),
    {
        BlobStoreCleanupStat::default()
    }

    fn get(&self, tx: Hash32) -> (found: Result<Option<Arc<SidecarVariant>>, BlobStoreError>)
        ensures
            found is Ok,
    {
        let lock = self.inner.acquire_read();
        let found = lock.borrow().get(tx);
        lock.release_read();
        Ok(found)
    }

    fn contains(&self, tx: Hash32) -> (present: Result<bool, BlobStoreError>)
        ensures
            present is Ok,
    {
        let lock = self.inner.acquire_read();
        let present = lock.borrow().contains(tx);
        lock.release_read();
        Ok(present)
    }

    fn get_all(&self, txs: Vec<Hash32>) -> (found: Result<
        Vec<(Hash32, Arc<SidecarVariant>)>,
        BlobStoreError,
    >)
        ensures
            found is Ok,
            exists|blobs: Map<Seq<u8>, StoredSidecar>| #[trigger]
                found_all(blobs, txs@, found->Ok_0@),
    {
        let ghost asked = txs@;
        let lock = self.inner.acquire_read();
        let ghost held = lock@@;
        let found = lock.borrow().get_all(txs);
        lock.release_read();
        proof {
            asked.lemma_filter_len(stored_in(held));
        }
        let answer: Result<Vec<(Hash32, Arc<SidecarVariant>)>, BlobStoreError> = Ok(found);
        assert(found_all(held, asked, answer->Ok_0@));
        answer
    }

    fn get_exact(&self, txs: Vec<Hash32>) -> (found: Result<
        Vec<Arc<SidecarVariant>>,
        BlobStoreError,
    >)
        ensures
            found is Ok,
            exists|blobs: Map<Seq<u8>, StoredSidecar>| #[trigger]
                found_exact(blobs, txs@, found->Ok_0@),
    {
        let ghost asked = txs@;
        let lock = self.inner.acquire_read();
        let ghost held = lock@@;
        let found = lock.borrow().get_exact(txs);
        lock.release_read();
        proof {
            asked.lemma_filter_len(stored_in(held));
        }
        let answer: Result<Vec<Arc<SidecarVariant>>, BlobStoreError> = Ok(found);
        assert(found_exact(held, asked, answer->Ok_0@));
        answer
    }

    fn get_by_versioned_hashes_v1(&self, versioned_hashes: &[Hash32]) -> (result: Result<
        Vec<Option<BlobAndProofV1>>,
        BlobStoreError,
    >)
        ensures
            result is Ok,
    {
        let lock = self.inner.acquire_read();
        let result = lock.borrow().get_by_versioned_hashes_v1(versioned_hashes);
        lock.release_read();
        Ok(result)
    }

    fn get_by_versioned_hashes_v2(&self, versioned_hashes: &[Hash32]) -> (result: Result<
        Option<Vec<BlobAndProofV2>>,
        BlobStoreError,
    >)
        ensures
            result matches Ok(answer) && exists|blobs: Map<Seq<u8>, StoredSidecar>| #[trigger]
                dense_answer(blobs, versioned_hashes@, answer),
    {
        let lock = self.inner.acquire_read();
        let ghost held = lock@@;
        let result = lock.borrow().get_by_versioned_hashes_v2(versioned_hashes);
        lock.release_read();
        assert(dense_answer(held, versioned_hashes@, result));
        Ok(result)
    }

    fn data_size_hint(&self) -> (hint: Option<u64>)
        ensures
            hint is Some,
    {
        let lock = self.inner.acquire_read();
        let hint = lock.borrow().data_size_hint();
        lock.release_read();
        hint
    }

    fn blobs_len(&self) -> u64 {
        let lock = self.inner.acquire_read();
        let count = lock.borrow().blobs_len();
        lock.release_read();
        count
    }
}

} // verus!
