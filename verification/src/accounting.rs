//! The store as a value, and what holds of it after any run of inserts and
//! deletes.

use crate::blob_map::StoredSidecar;
use crate::sidecar::SidecarVariant;
use crate::tracker::wrapped_total;
use vstd::prelude::*;

verus! {

/// The bytes accounted for all sidecars of a mapping together.
pub open spec fn stored_bytes(m: Map<Seq<u8>, StoredSidecar>) -> nat
    decreases m.dom().len(),
{
    if m.dom().finite() && m.dom().len() > 0 {
        let k = m.dom().choose();
        m[k].size as nat + stored_bytes(m.remove(k))
    } else {
        0
    }
}

/// Taking one entry out of a finite mapping takes exactly its size off the
/// total.
pub proof fn lemma_stored_bytes_remove(m: Map<Seq<u8>, StoredSidecar>, key: Seq<u8>)
    requires
        m.dom().finite(),
        m.contains_key(key),
    ensures
        stored_bytes(m) == m[key].size + stored_bytes(m.remove(key)),
    decreases m.dom().len(),
{
    let k = m.dom().choose();
    if k != key {
        lemma_stored_bytes_remove(m.remove(k), key);
        lemma_stored_bytes_remove(m.remove(key), k);
        assert(m.remove(k).remove(key) =~= m.remove(key).remove(k));
    }
}

/// Adding an entry under a new key adds exactly its size to the total.
pub proof fn lemma_stored_bytes_insert(
    m: Map<Seq<u8>, StoredSidecar>,
    key: Seq<u8>,
    stored: StoredSidecar,
)
    requires
        m.dom().finite(),
        !m.contains_key(key),
    ensures
        stored_bytes(m.insert(key, stored)) == stored_bytes(m) + stored.size,
{
    lemma_stored_bytes_remove(m.insert(key, stored), key);
    assert(m.insert(key, stored).remove(key) =~= m);
}

/// What is left of `total` after `n` is taken off, stopping at zero.
pub open spec fn reduced_total(total: nat, n: nat) -> nat {
    if total >= n {
        (total - n) as nat
    } else {
        0
    }
}

/// The content of a store and the byte total that its tracker holds.
pub struct Accounts {
    /// What is stored under each transaction hash.
    pub blobs: Map<Seq<u8>, StoredSidecar>,
    /// The tracked byte total.
    pub bytes: nat,
}

/// One change to a store.
pub enum StoreOp {
    /// A sidecar is stored under a hash, with the size measured for it.
    Insert { tx: Seq<u8>, stored: StoredSidecar },
    /// The sidecar under a hash is removed, if there is one.
    Delete { tx: Seq<u8> },
}

/// The sidecar under a hash, if there is one.
pub open spec fn stored_sidecar(blobs: Map<Seq<u8>, StoredSidecar>, tx: Seq<u8>) -> Option<
    SidecarVariant,
> {
    if blobs.contains_key(tx) {
        Some(blobs[tx].sidecar)
    } else {
        None
    }
}

/// The size recorded under a hash: zero where it has no sidecar.
pub open spec fn stored_size(blobs: Map<Seq<u8>, StoredSidecar>, tx: Seq<u8>) -> nat {
    if blobs.contains_key(tx) {
        blobs[tx].size as nat
    } else {
        0
    }
}

/// A store with nothing in it.
pub open spec fn no_accounts() -> Accounts {
    Accounts { blobs: Map::empty(), bytes: 0 }
}

/// The store after one change. An insert puts the sidecar under its hash and
/// adds its size to the total, whatever stood under the hash. A delete takes
/// the sidecar out and its size off the total.
pub open spec fn after_op(state: Accounts, op: StoreOp) -> Accounts {
    match op {
        StoreOp::Insert { tx, stored } => Accounts {
            blobs: state.blobs.insert(tx, stored),
            bytes: wrapped_total(state.bytes, stored.size as nat),
        },
        StoreOp::Delete { tx } => Accounts {
            blobs: state.blobs.remove(tx),
            bytes: reduced_total(state.bytes, stored_size(state.blobs, tx)),
        },
    }
}

/// The store after a run of changes to an empty store.
pub open spec fn after_ops(ops: Seq<StoreOp>) -> Accounts
    decreases ops.len(),
{
    if ops.len() == 0 {
        no_accounts()
    } else {
        after_op(after_ops(ops.drop_last()), ops.last())
    }
}

/// Whether a run of changes keeps to what the store asks of its callers:
/// each insert is under a hash that has no sidecar at that time, and the
/// sizes of the stored sidecars together never leave the range of the
/// counter.
pub open spec fn orderly(ops: Seq<StoreOp>) -> bool
    decreases ops.len(),
{
    if ops.len() == 0 {
        true
    } else {
        let before = after_ops(ops.drop_last());
        orderly(ops.drop_last()) && match ops.last() {
            StoreOp::Insert { tx, stored } => !before.blobs.contains_key(tx) && stored_bytes(
                before.blobs,
            ) + stored.size <= u64::MAX,
            StoreOp::Delete { tx } => true,
        }
    }
}

/// After any orderly run of inserts and deletes, the tracked byte total is
/// the sum of the sizes of the sidecars that are stored.
pub proof fn law_tracked_bytes_are_exact(ops: Seq<StoreOp>)
    requires
        orderly(ops),
    ensures
        after_ops(ops).blobs.dom().finite(),
        after_ops(ops).bytes == stored_bytes(after_ops(ops).blobs),
    decreases ops.len(),
{
    if ops.len() > 0 {
        let before = after_ops(ops.drop_last());
        law_tracked_bytes_are_exact(ops.drop_last());
        match ops.last() {
            StoreOp::Insert { tx, stored } => {
                lemma_stored_bytes_insert(before.blobs, tx, stored);
            },
            StoreOp::Delete { tx } => {
                if before.blobs.contains_key(tx) {
                    lemma_stored_bytes_remove(before.blobs, tx);
                } else {
                    assert(before.blobs.remove(tx) =~= before.blobs);
                }
            },
        }
    }
}

/// A sidecar that was inserted under a hash is what a lookup of that hash
/// finds.
pub proof fn law_insert_then_get(state: Accounts, tx: Seq<u8>, stored: StoredSidecar)
    ensures
        stored_sidecar(after_op(state, StoreOp::Insert { tx, stored }).blobs, tx) == Some(
            stored.sidecar,
        ),
{
}

/// Deleting under a hash that has no sidecar leaves the store as it was.
pub proof fn law_delete_of_missing_key(state: Accounts, tx: Seq<u8>)
    requires
        !state.blobs.contains_key(tx),
    ensures
        after_op(state, StoreOp::Delete { tx }) == state,
{
    assert(state.blobs.remove(tx) =~= state.blobs);
}

/// A lookup after a delete under the same hash finds nothing, and a change
/// under one hash leaves every other hash as it was.
pub proof fn law_changes_are_local(state: Accounts, op: StoreOp, other: Seq<u8>)
    requires
        other != match op {
            StoreOp::Insert { tx, stored } => tx,
            StoreOp::Delete { tx } => tx,
        },
    ensures
        stored_sidecar(after_op(state, op).blobs, other) == stored_sidecar(state.blobs, other),
        stored_size(after_op(state, op).blobs, other) == stored_size(state.blobs, other),
{
}

} // verus!
