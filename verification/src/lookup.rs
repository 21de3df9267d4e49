//! The result buffer of a lookup by versioned hash: one slot for each
//! requested hash, filled from what the stored sidecars answer.

use vstd::prelude::*;

verus! {

/// Whether `found` holds a pair for `slot` that carries `value`.
pub open spec fn yields<T>(found: Seq<(usize, T)>, slot: int, value: T) -> bool {
    exists|k: int|
        0 <= k < found.len() && (#[trigger] found[k]).0 == slot && found[k].1 == value
}

/// Whether `found` holds a pair for `slot`.
pub open spec fn names<T>(found: Seq<(usize, T)>, slot: int) -> bool {
    exists|k: int| 0 <= k < found.len() && (#[trigger] found[k]).0 == slot
}

/// What the last pair for `slot` in `found` carries, if there is such a pair.
pub open spec fn last_for<T>(found: Seq<(usize, T)>, slot: int) -> Option<T>
    decreases found.len(),
{
    if found.len() == 0 {
        None
    } else if found.last().0 == slot {
        Some(found.last().1)
    } else {
        last_for(found.drop_last(), slot)
    }
}

/// A result buffer after the pairs of `found` were recorded in it: a slot
/// that `found` has a pair for holds what the last such pair carries, and
/// every other slot holds what it held.
pub open spec fn recorded<T>(result: Seq<Option<T>>, found: Seq<(usize, T)>) -> Seq<Option<T>> {
    Seq::new(
        result.len(),
        |slot: int|
            match last_for(found, slot) {
                Some(value) => Some(value),
                None => result[slot],
            },
    )
}

/// What `last_for` picks is carried by a pair for the slot, and it picks
/// nothing only where no pair is for the slot.
pub proof fn lemma_last_for<T>(found: Seq<(usize, T)>, slot: int)
    ensures
        match last_for(found, slot) {
            Some(value) => yields(found, slot, value),
            None => !names(found, slot),
        },
    decreases found.len(),
{
    if found.len() > 0 {
        let last = found.len() - 1;
        if found.last().0 == slot {
            assert(found[last].0 == slot && found[last].1 == found.last().1);
        } else {
            let rest = found.drop_last();
            lemma_last_for(rest, slot);
            match last_for(rest, slot) {
                Some(value) => {
                    let k = choose|k: int|
                        0 <= k < rest.len() && (#[trigger] rest[k]).0 == slot && rest[k].1
                            == value;
                    assert(found[k].0 == slot && found[k].1 == value);
                },
                None => {
                    assert forall|k: int| 0 <= k < found.len() implies (#[trigger] found[k]).0
                        != slot by {
                        if k < last {
                            assert(rest[k].0 != slot);
                        }
                    }
                },
            }
        }
    }
}

/// Whether a result buffer agrees with the answers of the sidecars scanned
/// so far: a filled slot holds what one of them carries for it, and an empty
/// slot is one that none of them has a pair for.
pub open spec fn scanned<T>(result: Seq<Option<T>>, answers: Seq<Seq<(usize, T)>>) -> bool {
    forall|slot: int|
        0 <= slot < result.len() ==> match #[trigger] result[slot] {
            Some(value) => exists|p: int|
                0 <= p < answers.len() && yields(#[trigger] answers[p], slot, value),
            None => forall|p: int| 0 <= p < answers.len() ==> !names(#[trigger] answers[p], slot),
        }
}

/// Recording the answer of one more sidecar keeps the buffer in agreement
/// with what was scanned.
pub proof fn lemma_scan_step<T>(
    result: Seq<Option<T>>,
    answers: Seq<Seq<(usize, T)>>,
    found: Seq<(usize, T)>,
)
    requires
        scanned(result, answers),
    ensures
        scanned(recorded(result, found), answers.push(found)),
{
    let next = recorded(result, found);
    let more = answers.push(found);
    assert forall|slot: int| 0 <= slot < next.len() implies match #[trigger] next[slot] {
        Some(value) => exists|p: int|
            0 <= p < more.len() && yields(#[trigger] more[p], slot, value),
        None => forall|p: int| 0 <= p < more.len() ==> !names(#[trigger] more[p], slot),
    } by {
        lemma_last_for(found, slot);
        let last = answers.len() as int;
        assert(more[last] == found);
        match last_for(found, slot) {
            Some(value) => {
                assert(yields(more[last], slot, value));
            },
            None => {
                match result[slot] {
                    Some(value) => {
                        let p = choose|p: int|
                            0 <= p < answers.len() && yields(#[trigger] answers[p], slot, value);
                        assert(more[p] == answers[p]);
                        assert(yields(more[p], slot, value));
                    },
                    None => {
                        assert forall|p: int| 0 <= p < more.len() implies !names(
                            #[trigger] more[p],
                            slot,
                        ) by {
                            if p < last {
                                assert(more[p] == answers[p]);
                            }
                        }
                    },
                }
            },
        }
    }
}

/// A result buffer of `n` empty slots.
pub fn empty_slots<T>(n: usize) -> (result: Vec<Option<T>>)
    ensures
        result.len() == n,
        forall|slot: int| 0 <= slot < n ==> (#[trigger] result[slot]) is None,
{
    let mut result: Vec<Option<T>> = Vec::new();
    while result.len() < n
        invariant
            result.len() <= n,
            forall|slot: int| 0 <= slot < result.len() ==> (#[trigger] result[slot]) is None,
        decreases n - result.len(),
    {
        result.push(None);
    }
    result
}

/// Records each pair of `found` at its slot, in order, so that a later pair
/// for a slot replaces an earlier one.
pub fn record_matches<T>(result: &mut Vec<Option<T>>, found: Vec<(usize, T)>)
    requires
        forall|k: int| 0 <= k < found.len() ==> (#[trigger] found[k]).0 < old(result).len(),
    ensures
        final(result)@ == recorded(old(result)@, found@),
{
    let ghost all = found@;
    let ghost before = result@;
    assert(result@ =~= recorded(before, all.take(0)));
    for pair in it: found
        invariant
            it.seq() == all,
            result.len() == before.len(),
            forall|k: int| 0 <= k < all.len() ==> (#[trigger] all[k]).0 < before.len(),
            result@ == recorded(before, all.take(it.index())),
    {
        let ghost done = all.take(it.index());
        let ghost next = all.take(it.index() + 1);
        let (slot, value) = pair;
        assert(all[it.index()].0 < before.len());
        result[slot] = Some(value);
        proof {
            assert(next.drop_last() =~= done);
            assert(next.last() == all[it.index()]);
            assert(result@ =~= recorded(before, next));
        }
    }
    assert(all.take(all.len() as int) =~= all);
}

/// Whether every slot is filled.
pub fn all_resolved<T>(result: &Vec<Option<T>>) -> (all: bool)
    ensures
        all <==> forall|slot: int| 0 <= slot < result.len() ==> (#[trigger] result[slot]) is Some,
{
    let mut slot: usize = 0;
    while slot < result.len()
        invariant
            0 <= slot <= result.len(),
            forall|s: int| 0 <= s < slot ==> (#[trigger] result[s]) is Some,
        decreases result.len() - slot,
    {
        if result[slot].is_none() {
            return false;
        }
        slot += 1;
    }
    true
}

/// The values of a result buffer whose slots are all filled, in slot order;
/// nothing where a slot is empty.
pub fn complete<T>(result: Vec<Option<T>>) -> (dense: Option<Vec<T>>)
    ensures
        match dense {
            Some(values) => values.len() == result.len() && forall|slot: int|
                0 <= slot < result.len() ==> (#[trigger] result[slot]) == Some(values[slot]),
            None => exists|slot: int| 0 <= slot < result.len() && (#[trigger] result[slot]) is None,
        },
{
    let ghost all = result@;
    let mut values: Vec<T> = Vec::new();
    for entry in it: result
        invariant
            it.seq() == all,
            values.len() == it.index(),
            forall|slot: int| 0 <= slot < it.index() ==> (#[trigger] all[slot]) == Some(values[slot]),
    {
        match entry {
            Some(value) => {
                values.push(value);
            },
            None => {
                assert(all[it.index()] is None);
                return None;
            },
        }
    }
    Some(values)
}

} // verus!
