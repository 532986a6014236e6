//! Tables of numbered slots, each free or taken.

use vstd::prelude::*;

verus! {

/// The least free slot from `from` on; the length of the table if none is
/// free.
pub open spec fn first_free<T>(entries: Seq<Option<T>>, from: int) -> int
    decreases entries.len() - from,
{
    if from < 0 || from >= entries.len() {
        entries.len() as int
    } else if entries[from] is None {
        from
    } else {
        first_free(entries, from + 1)
    }
}

/// Finds the least free slot of a table; the length of the table if none
/// is free.
pub fn find_free<T>(entries: &Vec<Option<T>>) -> (slot: usize)
    ensures
        slot == first_free(entries@, 0),
        slot <= entries@.len(),
        slot < entries@.len() ==> entries@[slot as int] is None,
        forall|k: int| 0 <= k < slot ==> entries@[k] is Some,
{
    let mut slot: usize = 0;
    while slot < entries.len()
        invariant
            slot <= entries@.len(),
            first_free(entries@, 0) == first_free(entries@, slot as int),
            forall|k: int| 0 <= k < slot ==> entries@[k] is Some,
        decreases entries@.len() - slot,
    {
        if entries[slot].is_none() {
            return slot;
        }
        slot = slot + 1;
    }
    slot
}

} // verus!
