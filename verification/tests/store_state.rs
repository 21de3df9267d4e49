use alloy_eips::eip4844::{
    kzg_to_versioned_hash, Blob, BlobAndProofV1, BlobAndProofV2, BlobTransactionSidecar, Bytes48,
};
use alloy_eips::eip7594::BlobTransactionSidecarEip7594;
use blob_store::error::BlobStoreCleanupStat;
use blob_store::sidecar::SidecarVariant;
use blob_store::store::InMemoryBlobStoreInner;
use std::sync::Arc;

const V1_BLOB_BYTES: u64 = 131_072 + 48 + 48;

fn key(n: u8) -> [u8; 32] {
    [n; 32]
}

fn commitment(tag: u8) -> Bytes48 {
    Bytes48::repeat_byte(tag)
}

fn blob_proof(tag: u8) -> Bytes48 {
    Bytes48::repeat_byte(tag.wrapping_add(100))
}

fn blob(tag: u8) -> Blob {
    Blob::repeat_byte(tag)
}

fn versioned_hash(tag: u8) -> [u8; 32] {
    kzg_to_versioned_hash(commitment(tag).as_slice()).0
}

fn plain_v1(tags: &[u8]) -> BlobTransactionSidecar {
    BlobTransactionSidecar::new(
        tags.iter().map(|t| blob(*t)).collect(),
        tags.iter().map(|t| commitment(*t)).collect(),
        tags.iter().map(|t| blob_proof(*t)).collect(),
    )
}

fn sidecar_v1(tags: &[u8]) -> SidecarVariant {
    SidecarVariant::Eip4844(plain_v1(tags))
}

fn cell_proofs(tag: u8) -> Vec<Bytes48> {
    (0..128u8).map(|cell| Bytes48::repeat_byte(tag ^ cell)).collect()
}

fn sidecar_v2(tags: &[u8]) -> SidecarVariant {
    SidecarVariant::Eip7594(BlobTransactionSidecarEip7594::new(
        tags.iter().map(|t| blob(*t)).collect(),
        tags.iter().map(|t| commitment(*t)).collect(),
        tags.iter().flat_map(|t| cell_proofs(*t)).collect(),
    ))
}

fn answer_v1(tag: u8) -> BlobAndProofV1 {
    BlobAndProofV1 { blob: Box::new(blob(tag)), proof: blob_proof(tag) }
}

fn answer_v2(tag: u8) -> BlobAndProofV2 {
    BlobAndProofV2 { blob: Box::new(blob(tag)), proofs: cell_proofs(tag) }
}

#[test]
fn new_state_is_empty() {
    let state = InMemoryBlobStoreInner::new();
    assert_eq!(state.blobs_len(), 0);
    assert_eq!(state.data_size_hint(), Some(0));
    assert!(!state.contains(key(1)));
    assert!(state.get(key(1)).is_none());
}

#[test]
fn insert_then_get_returns_the_sidecar() {
    let mut state = InMemoryBlobStoreInner::new();
    state.insert(key(1), sidecar_v1(&[7]));
    let found = state.get(key(1)).expect("stored");
    assert_eq!(*found, sidecar_v1(&[7]));
    assert!(state.contains(key(1)));
    assert!(!state.contains(key(2)));
}

#[test]
fn get_shares_the_stored_sidecar() {
    let mut state = InMemoryBlobStoreInner::new();
    state.insert(key(1), sidecar_v1(&[7]));
    let first = state.get(key(1)).expect("stored");
    let second = state.get(key(1)).expect("stored");
    assert!(Arc::ptr_eq(&first, &second));
    state.delete(key(1));
    assert_eq!(*first, sidecar_v1(&[7]));
}

#[test]
fn count_and_bytes_follow_inserts_and_deletes() {
    let mut state = InMemoryBlobStoreInner::new();
    state.insert(key(1), sidecar_v1(&[1]));
    state.insert(key(2), sidecar_v1(&[2, 3]));
    state.insert(key(3), sidecar_v1(&[]));
    assert_eq!(state.blobs_len(), 3);
    assert_eq!(state.data_size_hint(), Some(3 * V1_BLOB_BYTES));
    state.delete(key(2));
    assert_eq!(state.blobs_len(), 2);
    assert_eq!(state.data_size_hint(), Some(V1_BLOB_BYTES));
    state.delete(key(1));
    state.delete(key(3));
    assert_eq!(state.blobs_len(), 0);
    assert_eq!(state.data_size_hint(), Some(0));
}

#[test]
fn delete_of_a_missing_key_changes_nothing() {
    let mut state = InMemoryBlobStoreInner::new();
    state.insert(key(1), sidecar_v1(&[1]));
    state.delete(key(9));
    assert_eq!(state.blobs_len(), 1);
    assert_eq!(state.data_size_hint(), Some(V1_BLOB_BYTES));
    assert!(state.contains(key(1)));
}

#[test]
fn insert_under_a_stored_key_replaces_and_keeps_the_old_size() {
    let mut state = InMemoryBlobStoreInner::new();
    state.insert(key(1), sidecar_v1(&[1]));
    state.insert(key(1), sidecar_v1(&[2, 3]));
    assert_eq!(state.blobs_len(), 1);
    assert_eq!(*state.get(key(1)).expect("stored"), sidecar_v1(&[2, 3]));
    assert_eq!(state.data_size_hint(), Some(3 * V1_BLOB_BYTES));
    state.delete(key(1));
    assert_eq!(state.data_size_hint(), Some(V1_BLOB_BYTES));
}

#[test]
fn get_all_returns_only_the_present_key() {
    let mut state = InMemoryBlobStoreInner::new();
    state.insert(key(2), sidecar_v1(&[5]));
    let found = state.get_all(vec![key(1), key(2), key(3)]);
    assert_eq!(found.len(), 1);
    assert_eq!(found[0].0, key(2));
    assert_eq!(*found[0].1, sidecar_v1(&[5]));
}

#[test]
fn get_all_keeps_the_order_of_the_request() {
    let mut state = InMemoryBlobStoreInner::new();
    state.insert(key(1), sidecar_v1(&[1]));
    state.insert(key(2), sidecar_v1(&[2]));
    state.insert(key(3), sidecar_v1(&[3]));
    let found = state.get_all(vec![key(3), key(9), key(1), key(3)]);
    let keys: Vec<[u8; 32]> = found.iter().map(|pair| pair.0).collect();
    assert_eq!(keys, vec![key(3), key(1), key(3)]);
    assert_eq!(*found[1].1, sidecar_v1(&[1]));
}

#[test]
fn get_exact_leaves_misses_out_and_keeps_order() {
    let mut state = InMemoryBlobStoreInner::new();
    state.insert(key(1), sidecar_v1(&[1]));
    state.insert(key(2), sidecar_v2(&[2]));
    let found = state.get_exact(vec![key(2), key(7), key(1)]);
    assert_eq!(found.len(), 2);
    assert_eq!(*found[0], sidecar_v2(&[2]));
    assert_eq!(*found[1], sidecar_v1(&[1]));
    assert!(state.get_exact(vec![]).is_empty());
}

#[test]
fn v1_lookup_leaves_the_unresolved_slot_empty() {
    let mut state = InMemoryBlobStoreInner::new();
    state.insert(key(1), sidecar_v1(&[10]));
    state.insert(key(2), sidecar_v1(&[30]));
    let request = [versioned_hash(10), versioned_hash(20), versioned_hash(30)];
    let result = state.get_by_versioned_hashes_v1(&request);
    assert_eq!(result, vec![Some(answer_v1(10)), None, Some(answer_v1(30))]);
}

#[test]
fn v2_lookup_gives_nothing_when_one_slot_is_unresolved() {
    let mut state = InMemoryBlobStoreInner::new();
    state.insert(key(1), sidecar_v2(&[10]));
    state.insert(key(2), sidecar_v2(&[30]));
    let request = [versioned_hash(10), versioned_hash(20), versioned_hash(30)];
    assert_eq!(state.get_by_versioned_hashes_v2(&request), None);
}

#[test]
fn v2_lookup_gives_every_slot_when_all_resolve() {
    let mut state = InMemoryBlobStoreInner::new();
    state.insert(key(1), sidecar_v2(&[10]));
    state.insert(key(2), sidecar_v2(&[30, 20]));
    let request = [versioned_hash(10), versioned_hash(20), versioned_hash(30)];
    let result = state.get_by_versioned_hashes_v2(&request);
    assert_eq!(result, Some(vec![answer_v2(10), answer_v2(20), answer_v2(30)]));
}

#[test]
fn one_sidecar_resolves_several_slots() {
    let mut state = InMemoryBlobStoreInner::new();
    state.insert(key(1), sidecar_v1(&[1, 2, 3]));
    let request = [versioned_hash(3), versioned_hash(1), versioned_hash(3)];
    let result = state.get_by_versioned_hashes_v1(&request);
    assert_eq!(result, vec![Some(answer_v1(3)), Some(answer_v1(1)), Some(answer_v1(3))]);
}

#[test]
fn each_format_is_blind_to_the_other() {
    let mut state = InMemoryBlobStoreInner::new();
    state.insert(key(1), sidecar_v1(&[10]));
    state.insert(key(2), sidecar_v2(&[20]));
    let request = [versioned_hash(10), versioned_hash(20)];
    assert_eq!(state.get_by_versioned_hashes_v1(&request), vec![Some(answer_v1(10)), None]);
    assert_eq!(state.get_by_versioned_hashes_v2(&request), None);
    assert_eq!(
        state.get_by_versioned_hashes_v2(&[versioned_hash(20)]),
        Some(vec![answer_v2(20)])
    );
}

#[test]
fn lookups_of_nothing() {
    let mut state = InMemoryBlobStoreInner::new();
    assert_eq!(state.get_by_versioned_hashes_v1(&[]), vec![]);
    assert_eq!(state.get_by_versioned_hashes_v2(&[]), Some(vec![]));
    assert_eq!(state.get_by_versioned_hashes_v1(&[versioned_hash(1)]), vec![None]);
    assert_eq!(state.get_by_versioned_hashes_v2(&[versioned_hash(1)]), None);
    state.insert(key(1), sidecar_v2(&[1]));
    assert_eq!(state.get_by_versioned_hashes_v2(&[]), Some(vec![]));
}

#[test]
fn deleted_sidecar_is_no_longer_found_by_hash() {
    let mut state = InMemoryBlobStoreInner::new();
    state.insert(key(1), sidecar_v1(&[10]));
    state.delete(key(1));
    assert_eq!(state.get_by_versioned_hashes_v1(&[versioned_hash(10)]), vec![None]);
}

#[test]
fn empty_batches_change_nothing() {
    let mut state = InMemoryBlobStoreInner::new();
    state.insert(key(1), sidecar_v1(&[1]));
    state.insert_all(vec![]);
    state.delete_all(vec![]);
    assert_eq!(state.blobs_len(), 1);
    assert_eq!(state.data_size_hint(), Some(V1_BLOB_BYTES));
    assert!(state.contains(key(1)));
}

#[test]
fn insert_all_adds_each_sidecar_and_the_sum_of_sizes() {
    let mut state = InMemoryBlobStoreInner::new();
    state.insert(key(1), sidecar_v1(&[1]));
    state.insert_all(vec![(key(2), sidecar_v1(&[2, 3])), (key(3), sidecar_v1(&[4]))]);
    assert_eq!(state.blobs_len(), 3);
    assert_eq!(state.data_size_hint(), Some(4 * V1_BLOB_BYTES));
    assert_eq!(*state.get(key(2)).expect("stored"), sidecar_v1(&[2, 3]));
    assert_eq!(*state.get(key(3)).expect("stored"), sidecar_v1(&[4]));
}

#[test]
fn insert_all_with_a_repeated_key_keeps_the_later_sidecar() {
    let mut state = InMemoryBlobStoreInner::new();
    state.insert_all(vec![(key(1), sidecar_v1(&[1])), (key(1), sidecar_v1(&[2]))]);
    assert_eq!(state.blobs_len(), 1);
    assert_eq!(*state.get(key(1)).expect("stored"), sidecar_v1(&[2]));
    assert_eq!(state.data_size_hint(), Some(2 * V1_BLOB_BYTES));
}

#[test]
fn delete_all_removes_each_key_once() {
    let mut state = InMemoryBlobStoreInner::new();
    state.insert_all(vec![
        (key(1), sidecar_v1(&[1])),
        (key(2), sidecar_v1(&[2, 3])),
        (key(3), sidecar_v1(&[4])),
    ]);
    state.delete_all(vec![key(2), key(9), key(2), key(1)]);
    assert_eq!(state.blobs_len(), 1);
    assert_eq!(state.data_size_hint(), Some(V1_BLOB_BYTES));
    assert!(state.contains(key(3)));
    assert!(!state.contains(key(1)));
    assert!(!state.contains(key(2)));
}

#[test]
fn cleanup_reports_nothing_and_keeps_the_content() {
    let mut state = InMemoryBlobStoreInner::new();
    state.insert(key(1), sidecar_v1(&[1]));
    let stat = state.cleanup();
    assert_eq!(stat, BlobStoreCleanupStat { delete_succeed: 0, delete_failed: 0 });
    assert_eq!(stat, BlobStoreCleanupStat::default());
    assert_eq!(state.blobs_len(), 1);
    assert_eq!(state.data_size_hint(), Some(V1_BLOB_BYTES));
    assert_eq!(*state.get(key(1)).expect("stored"), sidecar_v1(&[1]));
}

#[test]
fn keys_that_differ_in_one_byte_are_different_keys() {
    let mut state = InMemoryBlobStoreInner::new();
    let mut other = key(1);
    other[31] = 2;
    state.insert(key(1), sidecar_v1(&[1]));
    state.insert(other, sidecar_v1(&[2]));
    assert_eq!(state.blobs_len(), 2);
    assert_eq!(*state.get(other).expect("stored"), sidecar_v1(&[2]));
    assert_eq!(*state.get(key(1)).expect("stored"), sidecar_v1(&[1]));
}
