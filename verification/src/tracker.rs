//! Byte and item counters of a blob store.

use vstd::prelude::*;

verus! {

/// The sum of `total` and `n` as a 64-bit counter holds it: the sum itself
/// while it fits, and else what is left of it past the counter's range.
pub open spec fn wrapped_total(total: nat, n: nat) -> nat {
    if total + n <= u64::MAX {
        total + n
    } else {
        (total + n - u64::MAX - 1) as nat
    }
}

/// The sum of `sizes`.
pub open spec fn total_of(sizes: Seq<u64>) -> nat
    decreases sizes.len(),
{
    if sizes.len() == 0 {
        0
    } else {
        total_of(sizes.drop_last()) + sizes.last() as nat
    }
}

/// The sum of `sizes` as a 64-bit counter holds it when they are added one
/// after the other.
pub open spec fn wrapped_total_of(sizes: Seq<u64>) -> nat
    decreases sizes.len(),
{
    if sizes.len() == 0 {
        0
    } else {
        wrapped_total(wrapped_total_of(sizes.drop_last()), sizes.last() as nat)
    }
}

/// A sum that fits the counter is held as it is.
pub proof fn lemma_wrapped_total_of(sizes: Seq<u64>)
    ensures
        wrapped_total_of(sizes) <= u64::MAX,
        total_of(sizes) <= u64::MAX ==> wrapped_total_of(sizes) == total_of(sizes),
    decreases sizes.len(),
{
    if sizes.len() > 0 {
        lemma_wrapped_total_of(sizes.drop_last());
    }
}

/// The aggregate size of a blob store: the bytes its sidecars take and how
/// many there are. The tracker knows nothing of keys or content; its owner
/// tells it what was added and removed.
#[derive(Debug)]
pub struct SizeTracker {
    total_bytes: u64,
    item_count: u64,
}

impl SizeTracker {
    /// The byte total the tracker holds.
    pub closed spec fn bytes(&self) -> u64 {
        self.total_bytes
    }

    /// The item count the tracker holds.
    pub closed spec fn count(&self) -> u64 {
        self.item_count
    }

    /// A tracker of an empty store.
    pub fn new() -> (tracker: Self)
        ensures
            tracker.bytes() == 0,
            tracker.count() == 0,
    {
        SizeTracker { total_bytes: 0, item_count: 0 }
    }

    /// Adds `n` bytes to the total. The counter wraps around past its range.
    pub fn add_size(&mut self, n: u64)
        ensures
            final(self).count() == old(self).count(),
            final(self).bytes() == wrapped_total(old(self).bytes() as nat, n as nat),
    {
        self.total_bytes = self.total_bytes.wrapping_add(n);
    }

    /// Takes `n` bytes off the total, stopping at zero.
    pub fn sub_size(&mut self, n: u64)
        ensures
            final(self).count() == old(self).count(),
            final(self).bytes() == if old(self).bytes() >= n {
                old(self).bytes() - n
            } else {
                0
            },
    {
        self.total_bytes = self.total_bytes.saturating_sub(n);
    }

    /// Sets the item count to `n`.
    pub fn set_count(&mut self, n: u64)
        ensures
            final(self).count() == n,
            final(self).bytes() == old(self).bytes(),
    {
        self.item_count = n;
    }

    /// The byte total. This tracker always has one to report.
    pub fn total_bytes(&self) -> (total: Option<u64>)
        ensures
            total == Some(self.bytes()),
    {
        Some(self.total_bytes)
    }

    /// The item count.
    pub fn item_count(&self) -> (count: u64)
        ensures
            count == self.count(),
    {
        self.item_count
    }
}

impl Default for SizeTracker {
    fn default() -> (tracker: Self)
        ensures
            tracker.bytes() == 0,
            tracker.count() == 0,
    {
        SizeTracker::new()
    }
}

} // verus!
