//! The state of the in-memory blob store: the mapping and its size tracker,
//! and every operation of the store on them.

use crate::accounting::{
    after_op, lemma_stored_bytes_insert, lemma_stored_bytes_remove, reduced_total, stored_bytes,
    stored_sidecar, stored_size, Accounts, StoreOp,
};
use crate::blob_map::{share, BlobMap, StoredSidecar};
use crate::error::BlobStoreCleanupStat;
use crate::lookup::{
    all_resolved, complete, empty_slots, lemma_scan_step, names, record_matches, scanned, yields,
};
use crate::sidecar::{
    answers_v1, answers_v2, match_versioned_hashes_v1, match_versioned_hashes_v2, Hash32,
    SidecarVariant,
};
use crate::tracker::{
    lemma_wrapped_total_of, total_of, wrapped_total, wrapped_total_of, SizeTracker,
};
use alloy_eips::eip4844::{BlobAndProofV1, BlobAndProofV2};
use std::sync::Arc;
use vstd::prelude::*;

verus! {

/// Puts a sidecar into the mapping and returns the size that was measured
/// and recorded for it. What stood under the key before is replaced.
pub fn insert_size(store: &mut BlobMap, tx: Hash32, blob: SidecarVariant) -> (add: u64)
    ensures
        final(store)@ == old(store)@.insert(tx@, StoredSidecar { sidecar: blob, size: add }),
        final(store)@.dom().finite(),
{
    let add: u64 = blob.size() as u64;
    store.insert(tx, Arc::new(blob), add);
    add
}

/// Takes the sidecar under a key out of the mapping and returns the size
/// that was recorded for it: zero where the key had none.
pub fn remove_size(store: &mut BlobMap, tx: &Hash32) -> (sub: u64)
    ensures
        final(store)@ == old(store)@.remove(tx@),
        final(store)@.dom().finite(),
        sub == if old(store)@.contains_key(tx@) {
            old(store)@[tx@].size
        } else {
            0
        },
{
    match store.remove(tx) {
        Some((_, size)) => size,
        None => 0,
    }
}

/// Whether a stored sidecar resolves `slot` of a request in the first format
/// with `value`.
pub open spec fn resolved_v1(
    store: Map<Seq<u8>, StoredSidecar>,
    hashes: Seq<Hash32>,
    slot: int,
    value: BlobAndProofV1,
) -> bool {
    exists|key: Seq<u8>|
        store.contains_key(key) && yields(
            answers_v1((#[trigger] store[key]).sidecar, hashes),
            slot,
            value,
        )
}

/// Whether a stored sidecar resolves `slot` of a request in the first format.
pub open spec fn resolvable_v1(
    store: Map<Seq<u8>, StoredSidecar>,
    hashes: Seq<Hash32>,
    slot: int,
) -> bool {
    exists|key: Seq<u8>|
        store.contains_key(key) && names(answers_v1((#[trigger] store[key]).sidecar, hashes), slot)
}

/// Whether a stored sidecar resolves `slot` of a request in the second
/// format with `value`.
pub open spec fn resolved_v2(
    store: Map<Seq<u8>, StoredSidecar>,
    hashes: Seq<Hash32>,
    slot: int,
    value: BlobAndProofV2,
) -> bool {
    exists|key: Seq<u8>|
        store.contains_key(key) && yields(
            answers_v2((#[trigger] store[key]).sidecar, hashes),
            slot,
            value,
        )
}

/// Whether a stored sidecar resolves `slot` of a request in the second
/// format.
pub open spec fn resolvable_v2(
    store: Map<Seq<u8>, StoredSidecar>,
    hashes: Seq<Hash32>,
    slot: int,
) -> bool {
    exists|key: Seq<u8>|
        store.contains_key(key) && names(answers_v2((#[trigger] store[key]).sidecar, hashes), slot)
}

/// The mapping after the sidecars of `txs` were put into `m` one after the
/// other, each with its size from `sizes`.
pub open spec fn inserted_all(
    m: Map<Seq<u8>, StoredSidecar>,
    txs: Seq<(Hash32, SidecarVariant)>,
    sizes: Seq<u64>,
) -> Map<Seq<u8>, StoredSidecar>
    decreases txs.len(),
{
    if txs.len() == 0 {
        m
    } else {
        inserted_all(m, txs.drop_last(), sizes.drop_last()).insert(
            txs.last().0@,
            StoredSidecar { sidecar: txs.last().1, size: sizes.last() },
        )
    }
}

/// Whether the keys of `txs` are new to `m` and differ from each other.
pub open spec fn fresh_keys(
    m: Map<Seq<u8>, StoredSidecar>,
    txs: Seq<(Hash32, SidecarVariant)>,
) -> bool {
    &&& forall|i: int| 0 <= i < txs.len() ==> !m.contains_key((#[trigger] txs[i]).0@)
    &&& forall|i: int, j: int|
        0 <= i < j < txs.len() ==> (#[trigger] txs[i]).0@ != (#[trigger] txs[j]).0@
}

/// A batch insert leaves under a key what was there or what the batch
/// brought: its keys are those of the mapping and those of the batch.
pub proof fn lemma_inserted_keys(
    m: Map<Seq<u8>, StoredSidecar>,
    txs: Seq<(Hash32, SidecarVariant)>,
    sizes: Seq<u64>,
    key: Seq<u8>,
)
    ensures
        inserted_all(m, txs, sizes).contains_key(key) <==> m.contains_key(key) || exists|i: int|
            0 <= i < txs.len() && (#[trigger] txs[i]).0@ == key,
    decreases txs.len(),
{
    if txs.len() > 0 {
        let rest = txs.drop_last();
        lemma_inserted_keys(m, rest, sizes.drop_last(), key);
        if exists|i: int| 0 <= i < rest.len() && (#[trigger] rest[i]).0@ == key {
            let i = choose|i: int| 0 <= i < rest.len() && (#[trigger] rest[i]).0@ == key;
            assert(txs[i].0@ == key);
        }
        if txs.last().0@ == key {
            assert(txs[txs.len() - 1].0@ == key);
        }
        if exists|i: int| 0 <= i < txs.len() && (#[trigger] txs[i]).0@ == key {
            let i = choose|i: int| 0 <= i < txs.len() && (#[trigger] txs[i]).0@ == key;
            if i < rest.len() {
                assert(rest[i].0@ == key);
            }
        }
    }
}

/// The keys that a list of transaction hashes names.
pub open spec fn named_keys(txs: Seq<Hash32>) -> Set<Seq<u8>> {
    Set::new(|key: Seq<u8>| exists|i: int| 0 <= i < txs.len() && (#[trigger] txs[i])@ == key)
}

/// The bytes that deleting `txs` from `m` one after the other takes off the
/// total, as a 64-bit counter adds them up: for each hash the size recorded
/// under it, if it still has a sidecar when its turn comes.
pub open spec fn released(m: Map<Seq<u8>, StoredSidecar>, txs: Seq<Hash32>) -> nat
    decreases txs.len(),
{
    if txs.len() == 0 {
        0
    } else {
        let left = m.remove_keys(named_keys(txs.drop_last()));
        wrapped_total(released(m, txs.drop_last()), stored_size(left, txs.last()@))
    }
}

/// Whether a hash has a sidecar in `m`.
pub open spec fn stored_in(m: Map<Seq<u8>, StoredSidecar>) -> spec_fn(Hash32) -> bool {
    |tx: Hash32| m.contains_key(tx@)
}

/// Whether `found` is what a store that holds `blobs` finds for `txs`: the
/// hashes of `txs` that have a sidecar, in the order of `txs`, each with its
/// sidecar.
pub open spec fn found_all(
    blobs: Map<Seq<u8>, StoredSidecar>,
    txs: Seq<Hash32>,
    found: Seq<(Hash32, Arc<SidecarVariant>)>,
) -> bool {
    &&& found.len() == txs.filter(stored_in(blobs)).len()
    &&& forall|i: int|
        0 <= i < found.len() ==> (#[trigger] found[i]).0 == txs.filter(stored_in(blobs))[i]
            && blobs.contains_key(found[i].0@) && *found[i].1 == blobs[found[i].0@].sidecar
}

/// Whether `found` is what a store that holds `blobs` finds for `txs`, without
/// the hashes: the sidecars of the hashes of `txs` that have one, in the
/// order of `txs`.
pub open spec fn found_exact(
    blobs: Map<Seq<u8>, StoredSidecar>,
    txs: Seq<Hash32>,
    found: Seq<Arc<SidecarVariant>>,
) -> bool {
    &&& found.len() == txs.filter(stored_in(blobs)).len()
    &&& forall|i: int|
        0 <= i < found.len() ==> *(#[trigger] found[i]) == blobs[txs.filter(
            stored_in(blobs),
        )[i]@].sidecar
}

/// Whether `result` is what a store that holds `blobs` answers to a request
/// in the second format: a value for every requested hash, each resolved by
/// a stored sidecar, or nothing, where one of the hashes is resolved by none.
pub open spec fn dense_answer(
    blobs: Map<Seq<u8>, StoredSidecar>,
    hashes: Seq<Hash32>,
    result: Option<Vec<BlobAndProofV2>>,
) -> bool {
    match result {
        Some(values) => values.len() == hashes.len() && forall|slot: int|
            0 <= slot < values.len() ==> resolved_v2(blobs, hashes, slot, #[trigger] values[slot]),
        None => exists|slot: int|
            0 <= slot < hashes.len() && !resolvable_v2(blobs, hashes, slot),
    }
}

/// The mapping and the size tracker of an in-memory blob store.
pub struct InMemoryBlobStoreInner {
    store: BlobMap,
    size_tracker: SizeTracker,
}

impl View for InMemoryBlobStoreInner {
    type V = Map<Seq<u8>, StoredSidecar>;

    closed spec fn view(&self) -> Map<Seq<u8>, StoredSidecar> {
        self.store@
    }
}

impl InMemoryBlobStoreInner {
    #[verifier::type_invariant]
    spec fn counted(&self) -> bool {
        self.store@.dom().finite() && self.size_tracker.count() == self.store@.dom().len()
    }

    /// The byte total that the size tracker holds.
    pub closed spec fn tracked_bytes(&self) -> u64 {
        self.size_tracker.bytes()
    }

    /// The item count that the size tracker holds.
    pub closed spec fn tracked_count(&self) -> u64 {
        self.size_tracker.count()
    }

    /// The content of the store and its tracked byte total.
    pub open spec fn accounts(&self) -> Accounts {
        Accounts { blobs: self@, bytes: self.tracked_bytes() as nat }
    }

    /// Whether the tracked byte total is the sum of the sizes of the stored
    /// sidecars.
    pub open spec fn accounting_exact(&self) -> bool {
        self.tracked_bytes() == stored_bytes(self@)
    }

    /// An empty store.
    pub fn new() -> (state: Self)
        ensures
            state@ == Map::<Seq<u8>, StoredSidecar>::empty(),
            state.tracked_bytes() == 0,
            state.tracked_count() == 0,
            state.accounting_exact(),
    {
        let store = BlobMap::new();
        let size_tracker = SizeTracker::new();
        assert(store@.dom() =~= Set::<Seq<u8>>::empty());
        InMemoryBlobStoreInner { store, size_tracker }
    }

    fn take(&mut self) -> (parts: (BlobMap, SizeTracker))
        ensures
            parts.0@ == old(self)@,
            parts.1.bytes() == old(self).tracked_bytes(),
            parts.1.count() == old(self).tracked_count(),
            parts.1.count() == parts.0@.dom().len(),
            parts.0@.dom().finite(),
    {
        let mut taken = InMemoryBlobStoreInner::new();
        std::mem::swap(self, &mut taken);
        proof {
            use_type_invariant(&taken);
        }
        let InMemoryBlobStoreInner { store, size_tracker } = taken;
        (store, size_tracker)
    }

    /// Stores a sidecar under a transaction hash. The sidecar's size is
    /// measured, recorded with it and added to the tracked total. A sidecar
    /// that stood under the hash is replaced, and its size stays in the
    /// total.
    pub fn insert(&mut self, tx: Hash32, data: SidecarVariant)
        ensures
            final(self)@[tx@].sidecar == data,
            final(self).accounts() == after_op(
                old(self).accounts(),
                StoreOp::Insert { tx: tx@, stored: final(self)@[tx@] },
            ),
            final(self)@.dom().finite(),
            final(self).tracked_count() == final(self)@.dom().len(),
            old(self).accounting_exact() && !old(self)@.contains_key(tx@) && stored_bytes(
                final(self)@,
            ) <= u64::MAX ==> final(self).accounting_exact(),
    {
        let (mut store, mut size_tracker) = self.take();
        let ghost before = store@;
        let add = insert_size(&mut store, tx, data);
        size_tracker.add_size(add);
        size_tracker.set_count(store.len() as u64);
        proof {
            if !before.contains_key(tx@) {
                lemma_stored_bytes_insert(before, tx@, StoredSidecar { sidecar: data, size: add });
            }
        }
        *self = InMemoryBlobStoreInner { store, size_tracker };
    }

    /// Stores each sidecar of `txs` under its transaction hash, in order, as
    /// `insert` does, and adds the sum of their sizes to the tracked total in
    /// one step. An empty list changes nothing.
    pub fn insert_all(&mut self, txs: Vec<(Hash32, SidecarVariant)>)
        ensures
            txs.len() == 0 ==> *final(self) == *old(self),
            exists|sizes: Seq<u64>|
                sizes.len() == txs.len() && final(self)@ == #[trigger] inserted_all(
                    old(self)@,
                    txs@,
                    sizes,
                ) && final(self).tracked_bytes() == wrapped_total(
                    old(self).tracked_bytes() as nat,
                    wrapped_total_of(sizes),
                ),
            final(self)@.dom().finite(),
            final(self).tracked_count() == final(self)@.dom().len(),
            old(self).accounting_exact() && fresh_keys(old(self)@, txs@) && stored_bytes(
                final(self)@,
            ) <= u64::MAX ==> final(self).accounting_exact(),
    {
        proof {
            use_type_invariant(&*self);
        }
        if txs.is_empty() {
            proof {
                let none = Seq::<u64>::empty();
                assert(none.len() == txs.len() && self@ == inserted_all(self@, txs@, none)
                    && self.tracked_bytes() == wrapped_total(
                    self.tracked_bytes() as nat,
                    wrapped_total_of(none),
                ));
            }
            return ;
        }
        let (mut store, mut size_tracker) = self.take();
        let ghost before = store@;
        let ghost all = txs@;
        let ghost mut sizes: Seq<u64> = Seq::empty();
        let mut total_add: u64 = 0;
        for pair in it: txs
            invariant
                it.seq() == all,
                sizes.len() == it.index(),
                before.dom().finite(),
                store@.dom().finite(),
                store@ == inserted_all(before, all.take(it.index()), sizes),
                total_add == wrapped_total_of(sizes),
                fresh_keys(before, all) ==> stored_bytes(store@) == stored_bytes(before) + total_of(
                    sizes,
                ),
        {
            let ghost done = all.take(it.index());
            let ghost earlier = sizes;
            let ghost held = store@;
            let (tx, data) = pair;
            let add = insert_size(&mut store, tx, data);
            total_add = total_add.wrapping_add(add);
            proof {
                sizes = sizes.push(add);
                let next = all.take(it.index() + 1);
                assert(next.drop_last() =~= done);
                assert(sizes.drop_last() =~= earlier);
                assert(next.last() == all[it.index()]);
                if fresh_keys(before, all) {
                    lemma_inserted_keys(before, done, earlier, tx@);
                    if exists|i: int| 0 <= i < done.len() && (#[trigger] done[i]).0@ == tx@ {
                        let i = choose|i: int| 0 <= i < done.len() && (#[trigger] done[i]).0@ == tx@;
                        assert(all[i].0@ != all[it.index()].0@);
                    }
                    assert(!before.contains_key(all[it.index()].0@));
                    lemma_stored_bytes_insert(
                        held,
                        tx@,
                        StoredSidecar { sidecar: data, size: add },
                    );
                }
            }
        }
        proof {
            assert(all.take(all.len() as int) =~= all);
            lemma_wrapped_total_of(sizes);
        }
        size_tracker.add_size(total_add);
        size_tracker.set_count(store.len() as u64);
        *self = InMemoryBlobStoreInner { store, size_tracker };
        proof {
            assert(self@ == inserted_all(before, all, sizes));
        }
    }

    /// Removes the sidecar under a transaction hash, and takes the size
    /// recorded for it off the tracked total. Where the hash has no sidecar,
    /// nothing changes.
    pub fn delete(&mut self, tx: Hash32)
        ensures
            final(self).accounts() == after_op(old(self).accounts(), StoreOp::Delete { tx: tx@ }),
            final(self)@.dom().finite(),
            final(self).tracked_count() == final(self)@.dom().len(),
            !old(self)@.contains_key(tx@) ==> final(self)@ == old(self)@ && final(self).tracked_bytes()
                == old(self).tracked_bytes() && final(self).tracked_count() == old(
                self,
            ).tracked_count(),
            old(self).accounting_exact() ==> final(self).accounting_exact(),
    {
        let (mut store, mut size_tracker) = self.take();
        let ghost before = store@;
        let sub = remove_size(&mut store, &tx);
        size_tracker.sub_size(sub);
        size_tracker.set_count(store.len() as u64);
        proof {
            if before.contains_key(tx@) {
                lemma_stored_bytes_remove(before, tx@);
            } else {
                assert(before.remove(tx@) =~= before);
            }
        }
        *self = InMemoryBlobStoreInner { store, size_tracker };
    }

    /// Removes the sidecar under each transaction hash of `txs`, in order, as
    /// `delete` does, and takes the sum of their sizes off the tracked total
    /// in one step. An empty list changes nothing.
    pub fn delete_all(&mut self, txs: Vec<Hash32>)
        ensures
            txs.len() == 0 ==> *final(self) == *old(self),
            final(self)@ == old(self)@.remove_keys(named_keys(txs@)),
            final(self).tracked_bytes() == reduced_total(
                old(self).tracked_bytes() as nat,
                released(old(self)@, txs@),
            ),
            final(self)@.dom().finite(),
            final(self).tracked_count() == final(self)@.dom().len(),
            old(self).accounting_exact() ==> final(self).accounting_exact(),
    {
        proof {
            use_type_invariant(&*self);
        }
        if txs.is_empty() {
            assert(self@ =~= self@.remove_keys(named_keys(txs@)));
            return ;
        }
        let (mut store, mut size_tracker) = self.take();
        let ghost before = store@;
        let ghost all = txs@;
        let mut total_sub: u64 = 0;
        assert(store@ =~= before.remove_keys(named_keys(all.take(0))));
        for tx in it: txs
            invariant
                it.seq() == all,
                before.dom().finite(),
                store@.dom().finite(),
                store@ == before.remove_keys(named_keys(all.take(it.index()))),
                total_sub == released(before, all.take(it.index())),
                stored_bytes(store@) <= stored_bytes(before),
                stored_bytes(before) <= u64::MAX ==> total_sub == stored_bytes(before)
                    - stored_bytes(store@),
        {
            let ghost done = all.take(it.index());
            let ghost next = all.take(it.index() + 1);
            let ghost held = store@;
            let sub = remove_size(&mut store, &tx);
            total_sub = total_sub.wrapping_add(sub);
            proof {
                assert(next.drop_last() =~= done);
                assert(next.last() == all[it.index()]);
                assert(store@ =~= before.remove_keys(named_keys(next))) by {
                    assert forall|key: Seq<u8>| named_keys(next).contains(key) <==> named_keys(
                        done,
                    ).contains(key) || key == tx@ by {
                        if named_keys(done).contains(key) {
                            let i = choose|i: int| 0 <= i < done.len() && (#[trigger] done[i])@ == key;
                            assert(next[i]@ == key);
                        }
                        if key == tx@ {
                            assert(next[it.index()]@ == key);
                        }
                        if named_keys(next).contains(key) {
                            let i = choose|i: int| 0 <= i < next.len() && (#[trigger] next[i])@ == key;
                            if i < done.len() {
                                assert(done[i]@ == key);
                            }
                        }
                    }
                }
                if held.contains_key(tx@) {
                    lemma_stored_bytes_remove(held, tx@);
                } else {
                    assert(held.remove(tx@) =~= held);
                }
            }
        }
        proof {
            assert(all.take(all.len() as int) =~= all);
        }
        size_tracker.sub_size(total_sub);
        size_tracker.set_count(store.len() as u64);
        *self = InMemoryBlobStoreInner { store, size_tracker };
    }

    /// The sidecar under a transaction hash, if there is one.
    pub fn get(&self, tx: Hash32) -> (found: Option<Arc<SidecarVariant>>)
        ensures
            match found {
                Some(sidecar) => stored_sidecar(self@, tx@) == Some(*sidecar),
                None => stored_sidecar(self@, tx@) is None,
            },
    {
        match self.store.get(&tx) {
            Some(sidecar) => Some(share(sidecar)),
            None => None,
        }
    }

    /// Whether a transaction hash has a sidecar.
    pub fn contains(&self, tx: Hash32) -> (present: bool)
        ensures
            present == self@.contains_key(tx@),
    {
        self.store.contains_key(&tx)
    }

    /// The hashes of `txs` that have a sidecar, in the order of `txs`, each
    /// with its sidecar. A hash without one is left out.
    pub fn get_all(&self, txs: Vec<Hash32>) -> (found: Vec<(Hash32, Arc<SidecarVariant>)>)
        ensures
            found_all(self@, txs@, found@),
    {
        let ghost all = txs@;
        let mut found: Vec<(Hash32, Arc<SidecarVariant>)> = Vec::new();
        assert(all.take(0).filter(stored_in(self@)).len() == 0) by {
            reveal(Seq::filter);
        }
        for tx in it: txs
            invariant
                it.seq() == all,
                found.len() == all.take(it.index()).filter(stored_in(self@)).len(),
                forall|i: int|
                    0 <= i < found.len() ==> (#[trigger] found[i]).0 == all.take(
                        it.index(),
                    ).filter(stored_in(self@))[i] && self@.contains_key(found[i].0@) && *found[i].1
                        == self@[found[i].0@].sidecar,
        {
            let ghost done = all.take(it.index());
            proof {
                assert(all.take(it.index() + 1) =~= done.push(tx));
                done.lemma_filter_push(tx, stored_in(self@));
            }
            match self.store.get(&tx) {
                Some(sidecar) => {
                    found.push((tx, share(sidecar)));
                },
                None => {},
            }
        }
        proof {
            assert(all.take(all.len() as int) =~= all);
        }
        found
    }

    /// The sidecars of the hashes of `txs` that have one, in the order of
    /// `txs`. A hash without one is left out.
    pub fn get_exact(&self, txs: Vec<Hash32>) -> (found: Vec<Arc<SidecarVariant>>)
        ensures
            found_exact(self@, txs@, found@),
    {
        let ghost all = txs@;
        let mut found: Vec<Arc<SidecarVariant>> = Vec::new();
        assert(all.take(0).filter(stored_in(self@)).len() == 0) by {
            reveal(Seq::filter);
        }
        for tx in it: txs
            invariant
                it.seq() == all,
                found.len() == all.take(it.index()).filter(stored_in(self@)).len(),
                forall|i: int|
                    0 <= i < found.len() ==> *(#[trigger] found[i]) == self@[all.take(
                        it.index(),
                    ).filter(stored_in(self@))[i]@].sidecar,
        {
            let ghost done = all.take(it.index());
            proof {
                assert(all.take(it.index() + 1) =~= done.push(tx));
                done.lemma_filter_push(tx, stored_in(self@));
            }
            match self.store.get(&tx) {
                Some(sidecar) => {
                    found.push(share(sidecar));
                },
                None => {},
            }
        }
        proof {
            assert(all.take(all.len() as int) =~= all);
        }
        found
    }

    /// Resolves each requested versioned hash to a blob with its proof, from
    /// the stored sidecars that carry one proof for each blob. The result has
    /// one slot for each requested hash, in the order of the request. A slot
    /// is empty exactly where no stored sidecar resolves it; the scan ends as
    /// soon as every slot is filled.
    pub fn get_by_versioned_hashes_v1(&self, versioned_hashes: &[Hash32]) -> (result: Vec<
        Option<BlobAndProofV1>,
    >)
        ensures
            result.len() == versioned_hashes.len(),
            forall|slot: int|
                0 <= slot < result.len() ==> match #[trigger] result[slot] {
                    Some(value) => resolved_v1(self@, versioned_hashes@, slot, value),
                    None => !resolvable_v1(self@, versioned_hashes@, slot),
                },
    {
        let mut result: Vec<Option<BlobAndProofV1>> = empty_slots(versioned_hashes.len());
        let count = self.store.len();
        let ghost positions = self.store.positions();
        let ghost mut answers: Seq<Seq<(usize, BlobAndProofV1)>> = Seq::empty();
        let mut position: usize = 0;
        while position < count
            invariant
                position <= count,
                count == positions.len(),
                positions == self.store.positions(),
                result.len() == versioned_hashes.len(),
                answers.len() == position,
                positions.to_set() == self@.dom(),
                forall|p: int|
                    0 <= p < position ==> (#[trigger] answers[p]) == answers_v1(
                        self@[positions[p]].sidecar,
                        versioned_hashes@,
                    ),
                scanned(result@, answers),
            ensures
                position == count || forall|slot: int|
                    0 <= slot < result.len() ==> (#[trigger] result[slot]) is Some,
            decreases count - position,
        {
            let sidecar = self.store.sidecar_at(position);
            let ghost before = result@;
            let ghost found_here = answers_v1(
                self@[positions[position as int]].sidecar,
                versioned_hashes@,
            );
            if let Some(inner) = sidecar.as_eip4844() {
                let found = match_versioned_hashes_v1(inner, versioned_hashes);
                record_matches(&mut result, found);
            } else {
                assert(result@ =~= crate::lookup::recorded(before, found_here));
            }
            proof {
                lemma_scan_step(before, answers, found_here);
                let earlier = answers;
                answers = answers.push(found_here);
                assert forall|p: int| 0 <= p <= position implies (#[trigger] answers[p])
                    == answers_v1(self@[positions[p]].sidecar, versioned_hashes@) by {
                    if p < position {
                        assert(answers[p] == earlier[p]);
                    }
                }
            }
            position += 1;
            if all_resolved(&result) {
                break ;
            }
        }
        proof {
            assert forall|slot: int| 0 <= slot < result.len() implies match #[trigger] result[slot] {
                Some(value) => resolved_v1(self@, versioned_hashes@, slot, value),
                None => !resolvable_v1(self@, versioned_hashes@, slot),
            } by {
                match result[slot] {
                    Some(value) => {
                        let p = choose|p: int|
                            0 <= p < answers.len() && yields(#[trigger] answers[p], slot, value);
                        assert(positions.to_set().contains(positions[p]));
                        assert(yields(
                            answers_v1(self@[positions[p]].sidecar, versioned_hashes@),
                            slot,
                            value,
                        ));
                    },
                    None => {
                        assert(position == count);
                        assert forall|key: Seq<u8>| self@.contains_key(key) implies !names(
                            answers_v1((#[trigger] self@[key]).sidecar, versioned_hashes@),
                            slot,
                        ) by {
                            assert(positions.to_set().contains(key));
                            let p = choose|p: int| 0 <= p < positions.len() && positions[p] == key;
                            assert(!names(answers[p], slot));
                        }
                    },
                }
            }
        }
        result
    }

    /// Resolves every requested versioned hash to a blob with its cell
    /// proofs, from the stored sidecars that carry a proof for each cell:
    /// one value for each requested hash, in the order of the request. Where
    /// no stored sidecar resolves one of the hashes, there is no result at
    /// all.
    pub fn get_by_versioned_hashes_v2(&self, versioned_hashes: &[Hash32]) -> (result: Option<
        Vec<BlobAndProofV2>,
    >)
        ensures
            dense_answer(self@, versioned_hashes@, result),
    {
        let mut result: Vec<Option<BlobAndProofV2>> = empty_slots(versioned_hashes.len());
        let count = self.store.len();
        let ghost positions = self.store.positions();
        let ghost mut answers: Seq<Seq<(usize, BlobAndProofV2)>> = Seq::empty();
        let mut position: usize = 0;
        while position < count
            invariant
                position <= count,
                count == positions.len(),
                positions == self.store.positions(),
                result.len() == versioned_hashes.len(),
                answers.len() == position,
                positions.to_set() == self@.dom(),
                forall|p: int|
                    0 <= p < position ==> (#[trigger] answers[p]) == answers_v2(
                        self@[positions[p]].sidecar,
                        versioned_hashes@,
                    ),
                scanned(result@, answers),
            ensures
                position == count || forall|slot: int|
                    0 <= slot < result.len() ==> (#[trigger] result[slot]) is Some,
            decreases count - position,
        {
            let sidecar = self.store.sidecar_at(position);
            let ghost before = result@;
            let ghost found_here = answers_v2(
                self@[positions[position as int]].sidecar,
                versioned_hashes@,
            );
            if let Some(inner) = sidecar.as_eip7594() {
                let found = match_versioned_hashes_v2(inner, versioned_hashes);
                record_matches(&mut result, found);
            } else {
                assert(result@ =~= crate::lookup::recorded(before, found_here));
            }
            proof {
                lemma_scan_step(before, answers, found_here);
                let earlier = answers;
                answers = answers.push(found_here);
                assert forall|p: int| 0 <= p <= position implies (#[trigger] answers[p])
                    == answers_v2(self@[positions[p]].sidecar, versioned_hashes@) by {
                    if p < position {
                        assert(answers[p] == earlier[p]);
                    }
                }
            }
            position += 1;
            if all_resolved(&result) {
                break ;
            }
        }
        let ghost slots = result@;
        proof {
            assert forall|slot: int| 0 <= slot < slots.len() implies match #[trigger] slots[slot] {
                Some(value) => resolved_v2(self@, versioned_hashes@, slot, value),
                None => !resolvable_v2(self@, versioned_hashes@, slot),
            } by {
                match slots[slot] {
                    Some(value) => {
                        let p = choose|p: int|
                            0 <= p < answers.len() && yields(#[trigger] answers[p], slot, value);
                        assert(positions.to_set().contains(positions[p]));
                        assert(yields(
                            answers_v2(self@[positions[p]].sidecar, versioned_hashes@),
                            slot,
                            value,
                        ));
                    },
                    None => {
                        assert(position == count);
                        assert forall|key: Seq<u8>| self@.contains_key(key) implies !names(
                            answers_v2((#[trigger] self@[key]).sidecar, versioned_hashes@),
                            slot,
                        ) by {
                            assert(positions.to_set().contains(key));
                            let p = choose|p: int| 0 <= p < positions.len() && positions[p] == key;
                            assert(!names(answers[p], slot));
                        }
                    },
                }
            }
        }
        let dense = complete(result);
        proof {
            if dense is Some {
                let values = dense->0;
                assert forall|slot: int| 0 <= slot < values.len() implies resolved_v2(
                    self@,
                    versioned_hashes@,
                    slot,
                    #[trigger] values[slot],
                ) by {
                    assert(slots[slot] == Some(values[slot]));
                }
            } else {
                let slot = choose|slot: int|
                    0 <= slot < slots.len() && (#[trigger] slots[slot]) is None;
                assert(!resolvable_v2(self@, versioned_hashes@, slot));
            }
        }
        dense
    }

    /// Nothing to clean up in memory: the report is empty, and the store is
    /// as it was.
    pub fn cleanup(&self) -> (stat: BlobStoreCleanupStat)
        ensures
            stat == BlobStoreCleanupStat::empty(),
    {
        BlobStoreCleanupStat::default()
    }

    /// The tracked byte total.
    pub fn data_size_hint(&self) -> (hint: Option<u64>)
        ensures
            hint == Some(self.tracked_bytes()),
            self.accounting_exact() ==> hint == Some(stored_bytes(self@) as u64),
    {
        self.size_tracker.total_bytes()
    }

    /// The number of stored sidecars: one for each transaction hash that has
    /// one.
    pub fn blobs_len(&self) -> (count: u64)
        ensures
            self@.dom().finite(),
            count == self@.dom().len(),
            count == self.tracked_count(),
    {
        proof {
            use_type_invariant(&*self);
        }
        self.size_tracker.item_count()
    }
}

} // verus!
