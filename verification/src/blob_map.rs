//! The mapping from transaction hash to stored sidecar.

use crate::sidecar::{Hash32, SidecarVariant};
use std::sync::Arc;
use vstd::prelude::*;

verus! {

/// What the store holds under a key: a sidecar, and the size that was
/// measured when it was admitted.
pub struct StoredSidecar {
    /// The sidecar.
    pub sidecar: SidecarVariant,
    /// The bytes accounted for the sidecar.
    pub size: u64,
}

/// `Arc::clone`: one more pointer to the same allocation, so to the same
/// value.
#[verifier::external_body]
pub(crate) fn share<T>(shared: &Arc<T>) -> (copy: Arc<T>)
    ensures
        copy == *shared,
{
    Arc::clone(shared)
}

/// Whether two hashes hold the same bytes.
pub fn same_hash(a: &Hash32, b: &Hash32) -> (same: bool)
    ensures
        same == (a@ == b@),
{
    let mut i: usize = 0;
    while i < 32
        invariant
            0 <= i <= 32,
            forall|j: int| 0 <= j < i ==> a@[j] == b@[j],
        decreases 32 - i,
    {
        if a[i] != b[i] {
            return false;
        }
        i += 1;
    }
    assert(a@ =~= b@);
    true
}

struct Slot {
    key: Hash32,
    sidecar: Arc<SidecarVariant>,
    size: u64,
}

impl Slot {
    spec fn stored(self) -> StoredSidecar {
        StoredSidecar { sidecar: *self.sidecar, size: self.size }
    }
}

spec fn keys_of(slots: Seq<Slot>) -> Seq<Seq<u8>> {
    Seq::new(slots.len(), |i: int| slots[i].key@)
}

spec fn has_key(slots: Seq<Slot>, key: Seq<u8>) -> bool {
    exists|i: int| 0 <= i < slots.len() && #[trigger] slots[i].key@ == key
}

spec fn slot_of(slots: Seq<Slot>, key: Seq<u8>) -> int {
    choose|i: int| 0 <= i < slots.len() && #[trigger] slots[i].key@ == key
}

spec fn map_of(slots: Seq<Slot>) -> Map<Seq<u8>, StoredSidecar> {
    Map::new(|key: Seq<u8>| has_key(slots, key), |key: Seq<u8>| slots[slot_of(slots, key)].stored())
}

spec fn distinct(slots: Seq<Slot>) -> bool {
    forall|i: int, j: int|
        0 <= i < j < slots.len() ==> (#[trigger] slots[i]).key@ != (#[trigger] slots[j]).key@
}

proof fn lemma_slot(slots: Seq<Slot>, i: int)
    requires
        distinct(slots),
        0 <= i < slots.len(),
    ensures
        has_key(slots, slots[i].key@),
        slot_of(slots, slots[i].key@) == i,
        map_of(slots).contains_key(slots[i].key@),
        map_of(slots)[slots[i].key@] == slots[i].stored(),
{
    let key = slots[i].key@;
    assert(slots[i].key@ == key);
    let j = slot_of(slots, key);
    assert(0 <= j < slots.len() && slots[j].key@ == key);
    if j < i {
        assert(slots[j].key@ != slots[i].key@);
    } else if i < j {
        assert(slots[i].key@ != slots[j].key@);
    }
}

proof fn lemma_map_size(slots: Seq<Slot>)
    requires
        distinct(slots),
    ensures
        map_of(slots).dom().finite(),
        map_of(slots).dom().len() == slots.len(),
        keys_of(slots).no_duplicates(),
        keys_of(slots).to_set() == map_of(slots).dom(),
    decreases slots.len(),
{
    let keys = keys_of(slots);
    assert forall|i: int, j: int| 0 <= i < keys.len() && 0 <= j < keys.len() && i != j implies keys[i]
        != keys[j] by {
        if i < j {
            assert(slots[i].key@ != slots[j].key@);
        } else {
            assert(slots[j].key@ != slots[i].key@);
        }
    }
    assert forall|key: Seq<u8>| keys.to_set().contains(key) <==> map_of(slots).dom().contains(
        key,
    ) by {
        if keys.contains(key) {
            let i = choose|i: int| 0 <= i < keys.len() && keys[i] == key;
            assert(slots[i].key@ == key);
        }
        if has_key(slots, key) {
            let i = slot_of(slots, key);
            assert(keys[i] == key);
        }
    }
    assert(keys.to_set() =~= map_of(slots).dom());
    keys.unique_seq_to_set();
    vstd::seq_lib::seq_to_set_is_finite(keys);
}

proof fn lemma_replace(slots: Seq<Slot>, i: int, slot: Slot)
    requires
        distinct(slots),
        0 <= i < slots.len(),
        slots[i].key@ == slot.key@,
    ensures
        distinct(slots.update(i, slot)),
        map_of(slots.update(i, slot)) == map_of(slots).insert(slot.key@, slot.stored()),
{
    let after = slots.update(i, slot);
    assert forall|a: int, b: int| 0 <= a < b < after.len() implies (#[trigger] after[a]).key@ != (
    #[trigger] after[b]).key@ by {
        assert(slots[a].key@ != slots[b].key@);
    }
    let m1 = map_of(after);
    let m2 = map_of(slots).insert(slot.key@, slot.stored());
    assert forall|k: Seq<u8>| m1.dom().contains(k) <==> m2.dom().contains(k) by {
        if has_key(after, k) {
            let a = slot_of(after, k);
            assert(slots[a].key@ == k);
        }
        if k == slot.key@ {
            assert(after[i].key@ == k);
        } else if has_key(slots, k) {
            let a = slot_of(slots, k);
            assert(after[a].key@ == k);
        }
    }
    assert forall|k: Seq<u8>| m1.dom().contains(k) implies m1[k] == m2[k] by {
        let a = slot_of(after, k);
        lemma_slot(after, a);
        if a != i {
            lemma_slot(slots, a);
        }
    }
    assert(m1 =~= m2);
}

proof fn lemma_append(slots: Seq<Slot>, slot: Slot)
    requires
        distinct(slots),
        !has_key(slots, slot.key@),
    ensures
        distinct(slots.push(slot)),
        map_of(slots.push(slot)) == map_of(slots).insert(slot.key@, slot.stored()),
{
    let after = slots.push(slot);
    let last = slots.len() as int;
    assert forall|a: int, b: int| 0 <= a < b < after.len() implies (#[trigger] after[a]).key@ != (
    #[trigger] after[b]).key@ by {
        if b < last {
            assert(slots[a].key@ != slots[b].key@);
        } else {
            assert(slots[a].key@ == after[a].key@);
        }
    }
    let m1 = map_of(after);
    let m2 = map_of(slots).insert(slot.key@, slot.stored());
    assert forall|k: Seq<u8>| m1.dom().contains(k) <==> m2.dom().contains(k) by {
        if has_key(after, k) {
            let a = slot_of(after, k);
            if a < last {
                assert(slots[a].key@ == k);
            }
        }
        if k == slot.key@ {
            assert(after[last].key@ == k);
        } else if has_key(slots, k) {
            let a = slot_of(slots, k);
            assert(after[a].key@ == k);
        }
    }
    assert forall|k: Seq<u8>| m1.dom().contains(k) implies m1[k] == m2[k] by {
        let a = slot_of(after, k);
        lemma_slot(after, a);
        if a < last {
            lemma_slot(slots, a);
        }
    }
    assert(m1 =~= m2);
}

proof fn lemma_take(slots: Seq<Slot>, i: int)
    requires
        distinct(slots),
        0 <= i < slots.len(),
    ensures
        distinct(slots.update(i, slots.last()).drop_last()),
        map_of(slots.update(i, slots.last()).drop_last()) == map_of(slots).remove(slots[i].key@),
{
    let after = slots.update(i, slots.last()).drop_last();
    let last = slots.len() - 1;
    // where the slot at a position of `after` stood before
    let origin = |a: int| if a == i { last } else { a };
    assert forall|a: int, b: int| 0 <= a < b < after.len() implies (#[trigger] after[a]).key@ != (
    #[trigger] after[b]).key@ by {
        assert(after[a] == slots[origin(a)]);
        assert(after[b] == slots[origin(b)]);
        if origin(a) < origin(b) {
            assert(slots[origin(a)].key@ != slots[origin(b)].key@);
        } else {
            assert(slots[origin(b)].key@ != slots[origin(a)].key@);
        }
    }
    let m1 = map_of(after);
    let m2 = map_of(slots).remove(slots[i].key@);
    assert forall|k: Seq<u8>| m1.dom().contains(k) <==> m2.dom().contains(k) by {
        if has_key(after, k) {
            let a = slot_of(after, k);
            assert(after[a] == slots[origin(a)]);
            assert(slots[origin(a)].key@ == k);
            if origin(a) < i {
                assert(slots[origin(a)].key@ != slots[i].key@);
            } else {
                assert(slots[i].key@ != slots[origin(a)].key@);
            }
        }
        if k != slots[i].key@ && has_key(slots, k) {
            let b = slot_of(slots, k);
            let a = if b == last { i } else { b };
            assert(after[a] == slots[b]);
            assert(after[a].key@ == k);
        }
    }
    assert forall|k: Seq<u8>| m1.dom().contains(k) implies m1[k] == m2[k] by {
        let a = slot_of(after, k);
        lemma_slot(after, a);
        assert(after[a] == slots[origin(a)]);
        lemma_slot(slots, origin(a));
    }
    assert(m1 =~= m2);
}

/// A mapping from transaction hash to stored sidecar. No hash has two
/// entries.
pub struct BlobMap {
    slots: Vec<Slot>,
}

impl View for BlobMap {
    type V = Map<Seq<u8>, StoredSidecar>;

    closed spec fn view(&self) -> Map<Seq<u8>, StoredSidecar> {
        map_of(self.slots@)
    }
}

impl BlobMap {
    #[verifier::type_invariant]
    spec fn well_formed(&self) -> bool {
        distinct(self.slots@)
    }

    /// The keys of the mapping, each at the position at which `sidecar_at`
    /// finds its sidecar.
    pub closed spec fn positions(&self) -> Seq<Seq<u8>> {
        keys_of(self.slots@)
    }

    /// An empty mapping.
    pub fn new() -> (map: Self)
        ensures
            map@ == Map::<Seq<u8>, StoredSidecar>::empty(),
            map@.dom().finite(),
    {
        let map = BlobMap { slots: Vec::new() };
        assert(map@ =~= Map::<Seq<u8>, StoredSidecar>::empty());
        map
    }

    /// The number of entries. Each entry has one position, and each position
    /// holds another key.
    pub fn len(&self) -> (n: usize)
        ensures
            self@.dom().finite(),
            n == self@.dom().len(),
            n == self.positions().len(),
            self.positions().no_duplicates(),
            self.positions().to_set() == self@.dom(),
    {
        proof {
            use_type_invariant(&*self);
            lemma_map_size(self.slots@);
        }
        self.slots.len()
    }

    /// The sidecar at a position.
    pub fn sidecar_at(&self, position: usize) -> (sidecar: &Arc<SidecarVariant>)
        requires
            position < self.positions().len(),
        ensures
            self@.contains_key(self.positions()[position as int]),
            **sidecar == self@[self.positions()[position as int]].sidecar,
    {
        proof {
            use_type_invariant(&*self);
            lemma_slot(self.slots@, position as int);
        }
        &self.slots[position].sidecar
    }

    fn position(&self, key: &Hash32) -> (found: Option<usize>)
        ensures
            match found {
                Some(i) => i < self.slots.len() && self.slots[i as int].key@ == key@,
                None => !has_key(self.slots@, key@),
            },
    {
        let mut i: usize = 0;
        while i < self.slots.len()
            invariant
                0 <= i <= self.slots.len(),
                forall|j: int| 0 <= j < i ==> self.slots[j].key@ != key@,
            decreases self.slots.len() - i,
        {
            if same_hash(&self.slots[i].key, key) {
                return Some(i);
            }
            i += 1;
        }
        None
    }

    /// The sidecar under a key, if there is one.
    pub fn get(&self, key: &Hash32) -> (sidecar: Option<&Arc<SidecarVariant>>)
        ensures
            match sidecar {
                Some(shared) => self@.contains_key(key@) && **shared == self@[key@].sidecar,
                None => !self@.contains_key(key@),
            },
    {
        proof {
            use_type_invariant(&*self);
        }
        match self.position(key) {
            Some(i) => {
                proof {
                    lemma_slot(self.slots@, i as int);
                }
                Some(&self.slots[i].sidecar)
            },
            None => None,
        }
    }

    /// Whether there is an entry under a key.
    pub fn contains_key(&self, key: &Hash32) -> (present: bool)
        ensures
            present == self@.contains_key(key@),
    {
        proof {
            use_type_invariant(&*self);
        }
        match self.position(key) {
            Some(i) => {
                proof {
                    lemma_slot(self.slots@, i as int);
                }
                true
            },
            None => false,
        }
    }

    /// Puts a sidecar and its size under a key, in place of what was there.
    pub fn insert(&mut self, key: Hash32, sidecar: Arc<SidecarVariant>, size: u64)
        ensures
            final(self)@ == old(self)@.insert(key@, StoredSidecar { sidecar: *sidecar, size }),
            final(self)@.dom().finite(),
    {
        proof {
            use_type_invariant(&*self);
        }
        let found = self.position(&key);
        let mut slots: Vec<Slot> = Vec::new();
        std::mem::swap(&mut slots, &mut self.slots);
        let ghost before = slots@;
        let slot = Slot { key, sidecar, size };
        slots.push(slot);
        match found {
            Some(i) => {
                let _ = slots.swap_remove(i);
                proof {
                    assert(slots@ =~= before.update(i as int, slot));
                    lemma_replace(before, i as int, slot);
                    lemma_map_size(slots@);
                }
            },
            None => {
                proof {
                    lemma_append(before, slot);
                    lemma_map_size(slots@);
                }
            },
        }
        self.slots = slots;
    }

    /// Takes the entry under a key out, if there is one, and returns its
    /// sidecar and size.
    pub fn remove(&mut self, key: &Hash32) -> (removed: Option<(Arc<SidecarVariant>, u64)>)
        ensures
            final(self)@ == old(self)@.remove(key@),
            final(self)@.dom().finite(),
            match removed {
                Some((sidecar, size)) => old(self)@.contains_key(key@) && old(self)@[key@]
                    == (StoredSidecar { sidecar: *sidecar, size }),
                None => !old(self)@.contains_key(key@),
            },
    {
        proof {
            use_type_invariant(&*self);
        }
        match self.position(key) {
            Some(i) => {
                let mut slots: Vec<Slot> = Vec::new();
                std::mem::swap(&mut slots, &mut self.slots);
                let ghost before = slots@;
                let taken = slots.swap_remove(i);
                proof {
                    lemma_slot(before, i as int);
                    lemma_take(before, i as int);
                    lemma_map_size(slots@);
                }
                self.slots = slots;
                Some((taken.sidecar, taken.size))
            },
            None => {
                proof {
                    assert(self@.remove(key@) =~= self@);
                    lemma_map_size(self.slots@);
                }
                None
            },
        }
    }
}

} // verus!
