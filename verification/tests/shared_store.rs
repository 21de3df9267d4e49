use alloy_eips::eip4844::{
    kzg_to_versioned_hash, Blob, BlobAndProofV1, BlobTransactionSidecar, Bytes48,
};
use alloy_eips::eip7594::BlobTransactionSidecarEip7594;
use blob_store::error::BlobStoreCleanupStat;
use blob_store::mem::InMemoryBlobStore;
use blob_store::sidecar::SidecarVariant;
use blob_store::traits::BlobStore;

const V1_BLOB_BYTES: u64 = 131_072 + 48 + 48;

fn key(n: u8) -> [u8; 32] {
    [n; 32]
}

fn versioned_hash(tag: u8) -> [u8; 32] {
    kzg_to_versioned_hash(Bytes48::repeat_byte(tag).as_slice()).0
}

fn sidecar_v1(tags: &[u8]) -> SidecarVariant {
    SidecarVariant::Eip4844(BlobTransactionSidecar::new(
        tags.iter().map(|t| Blob::repeat_byte(*t)).collect(),
        tags.iter().map(|t| Bytes48::repeat_byte(*t)).collect(),
        tags.iter().map(|t| Bytes48::repeat_byte(t.wrapping_add(100))).collect(),
    ))
}

fn sidecar_v2(tags: &[u8]) -> SidecarVariant {
    SidecarVariant::Eip7594(BlobTransactionSidecarEip7594::new(
        tags.iter().map(|t| Blob::repeat_byte(*t)).collect(),
        tags.iter().map(|t| Bytes48::repeat_byte(*t)).collect(),
        tags.iter().flat_map(|t| vec![Bytes48::repeat_byte(*t); 128]).collect(),
    ))
}

#[test]
fn shared_store_round_trip() {
    let store = InMemoryBlobStore::new();
    assert_eq!(store.insert(key(1), sidecar_v1(&[1])), Ok(()));
    assert_eq!(store.contains(key(1)), Ok(true));
    assert_eq!(store.contains(key(2)), Ok(false));
    let found = store.get(key(1)).expect("no failure").expect("stored");
    assert_eq!(*found, sidecar_v1(&[1]));
    assert_eq!(store.get(key(2)).expect("no failure"), None);
    assert_eq!(store.blobs_len(), 1);
    assert_eq!(store.data_size_hint(), Some(V1_BLOB_BYTES));
    assert_eq!(store.delete(key(1)), Ok(()));
    assert_eq!(store.delete(key(1)), Ok(()));
    assert_eq!(store.blobs_len(), 0);
    assert_eq!(store.data_size_hint(), Some(0));
}

#[test]
fn shared_store_batches() {
    let store = InMemoryBlobStore::default();
    assert_eq!(store.insert_all(vec![]), Ok(()));
    assert_eq!(store.delete_all(vec![]), Ok(()));
    assert_eq!(store.blobs_len(), 0);
    assert_eq!(
        store.insert_all(vec![(key(1), sidecar_v1(&[1])), (key(2), sidecar_v1(&[2, 3]))]),
        Ok(())
    );
    assert_eq!(store.blobs_len(), 2);
    assert_eq!(store.data_size_hint(), Some(3 * V1_BLOB_BYTES));
    let pairs = store.get_all(vec![key(3), key(2), key(1)]).expect("no failure");
    assert_eq!(pairs.len(), 2);
    assert_eq!(pairs[0].0, key(2));
    assert_eq!(pairs[1].0, key(1));
    let sidecars = store.get_exact(vec![key(1), key(3)]).expect("no failure");
    assert_eq!(sidecars.len(), 1);
    assert_eq!(*sidecars[0], sidecar_v1(&[1]));
    assert_eq!(store.delete_all(vec![key(1), key(2), key(3)]), Ok(()));
    assert_eq!(store.blobs_len(), 0);
    assert_eq!(store.data_size_hint(), Some(0));
}

#[test]
fn shared_store_lookups_by_versioned_hash() {
    let store = InMemoryBlobStore::new();
    store.insert(key(1), sidecar_v1(&[10])).expect("no failure");
    store.insert(key(2), sidecar_v2(&[20])).expect("no failure");
    let request = [versioned_hash(10), versioned_hash(20)];
    let first = store.get_by_versioned_hashes_v1(&request).expect("no failure");
    assert_eq!(
        first,
        vec![
            Some(BlobAndProofV1 {
                blob: Box::new(Blob::repeat_byte(10)),
                proof: Bytes48::repeat_byte(110)
            }),
            None
        ]
    );
    assert_eq!(store.get_by_versioned_hashes_v2(&request), Ok(None));
    let second = store
        .get_by_versioned_hashes_v2(&[versioned_hash(20)])
        .expect("no failure")
        .expect("resolved");
    assert_eq!(second.len(), 1);
    assert_eq!(*second[0].blob, Blob::repeat_byte(20));
    assert_eq!(second[0].proofs, vec![Bytes48::repeat_byte(20); 128]);
}

#[test]
fn clones_share_one_store() {
    let store = InMemoryBlobStore::new();
    let other = store.clone();
    store.insert(key(1), sidecar_v1(&[1])).expect("no failure");
    assert_eq!(other.contains(key(1)), Ok(true));
    assert_eq!(other.blobs_len(), 1);
    other.delete(key(1)).expect("no failure");
    assert_eq!(store.contains(key(1)), Ok(false));
    assert_eq!(store.data_size_hint(), Some(0));
}

#[test]
fn shared_cleanup_reports_nothing() {
    let store = InMemoryBlobStore::new();
    store.insert(key(1), sidecar_v1(&[1])).expect("no failure");
    assert_eq!(store.cleanup(), BlobStoreCleanupStat { delete_succeed: 0, delete_failed: 0 });
    assert_eq!(store.blobs_len(), 1);
    assert_eq!(store.contains(key(1)), Ok(true));
}

#[test]
fn inserts_of_disjoint_keys_from_independent_callers_all_count() {
    let store = InMemoryBlobStore::new();
    let callers: Vec<InMemoryBlobStore> = (0..8).map(|_| store.clone()).collect();
    for (n, caller) in callers.iter().enumerate() {
        assert_eq!(caller.insert(key(n as u8), sidecar_v1(&[n as u8])), Ok(()));
    }
    for (n, caller) in callers.iter().enumerate().rev() {
        assert_eq!(caller.contains(key(n as u8)), Ok(true));
        assert_eq!(caller.blobs_len(), 8);
    }
    assert_eq!(store.blobs_len(), 8);
    assert_eq!(store.data_size_hint(), Some(8 * V1_BLOB_BYTES));
}

fn shareable_between_threads<T: Send + Sync + Clone>(_: &T) {}

#[test]
fn a_handle_can_be_given_to_another_thread() {
    let store = InMemoryBlobStore::new();
    shareable_between_threads(&store);
    let moved = store.clone();
    moved.insert(key(5), sidecar_v1(&[5])).expect("no failure");
    assert_eq!(store.blobs_len(), 1);
}
