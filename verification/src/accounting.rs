//! Sums over the resource bookkeeping of all tasks, and the facts about
//! them that the conservation laws of the primitives rest on.

use vstd::prelude::*;
use crate::task::TaskView;

verus! {

/// The sum of a sequence of numbers.
pub open spec fn sum(s: Seq<int>) -> int
    decreases s.len(),
{
    if s.len() == 0 {
        0
    } else {
        s.last() + sum(s.drop_last())
    }
}

/// Replacing one element changes the sum by the difference.
pub proof fn lemma_sum_update(s: Seq<int>, i: int, v: int)
    requires
        0 <= i < s.len(),
    ensures
        sum(s.update(i, v)) == sum(s) - s[i] + v,
    decreases s.len(),
{
    let u = s.update(i, v);
    if i == s.len() - 1 {
        assert(u.drop_last() =~= s.drop_last());
    } else {
        assert(u.drop_last() =~= s.drop_last().update(i, v));
        lemma_sum_update(s.drop_last(), i, v);
    }
}

/// The number at `slot` of a bookkeeping vector; zero beyond its end.
pub open spec fn slot_of(v: Seq<usize>, slot: int) -> int {
    if 0 <= slot < v.len() {
        v[slot] as int
    } else {
        0
    }
}

/// How many instances of mutex `slot` each task holds.
pub open spec fn held_mutex_column(tasks: Seq<TaskView>, slot: int) -> Seq<int> {
    Seq::new(tasks.len(), |i: int| slot_of(tasks[i].held_mutex, slot))
}

/// How many instances of semaphore `slot` each task holds.
pub open spec fn held_semaphore_column(tasks: Seq<TaskView>, slot: int) -> Seq<int> {
    Seq::new(tasks.len(), |i: int| slot_of(tasks[i].held_semaphore, slot))
}

/// The instances of mutex `slot` that are available or held by a task.
pub open spec fn mutex_balance(tasks: Seq<TaskView>, available: Seq<usize>, slot: int) -> int {
    slot_of(available, slot) + sum(held_mutex_column(tasks, slot))
}

/// The instances of semaphore `slot` that are available or held by a
/// task.
pub open spec fn semaphore_balance(tasks: Seq<TaskView>, available: Seq<usize>, slot: int) -> int {
    slot_of(available, slot) + sum(held_semaphore_column(tasks, slot))
}

/// A sum of numbers that are not negative is not negative.
pub proof fn lemma_sum_nonnegative(s: Seq<int>)
    requires
        forall|i: int| 0 <= i < s.len() ==> s[i] >= 0,
    ensures
        sum(s) >= 0,
    decreases s.len(),
{
    if s.len() > 0 {
        lemma_sum_nonnegative(s.drop_last());
    }
}

/// Replacing one task changes the held total of a mutex slot by the
/// difference of what the two hold.
pub proof fn lemma_held_mutex_update(tasks: Seq<TaskView>, i: int, t: TaskView, slot: int)
    requires
        0 <= i < tasks.len(),
    ensures
        sum(held_mutex_column(tasks.update(i, t), slot)) == sum(held_mutex_column(tasks, slot)) - slot_of(
            tasks[i].held_mutex,
            slot,
        ) + slot_of(t.held_mutex, slot),
{
    let c = held_mutex_column(tasks, slot);
    assert(held_mutex_column(tasks.update(i, t), slot) =~= c.update(i, slot_of(t.held_mutex, slot)));
    lemma_sum_update(c, i, slot_of(t.held_mutex, slot));
}

/// Replacing one task changes the held total of a semaphore slot by the
/// difference of what the two hold.
pub proof fn lemma_held_semaphore_update(tasks: Seq<TaskView>, i: int, t: TaskView, slot: int)
    requires
        0 <= i < tasks.len(),
    ensures
        sum(held_semaphore_column(tasks.update(i, t), slot)) == sum(held_semaphore_column(tasks, slot))
            - slot_of(tasks[i].held_semaphore, slot) + slot_of(t.held_semaphore, slot),
{
    let c = held_semaphore_column(tasks, slot);
    assert(held_semaphore_column(tasks.update(i, t), slot) =~= c.update(
        i,
        slot_of(t.held_semaphore, slot),
    ));
    lemma_sum_update(c, i, slot_of(t.held_semaphore, slot));
}

} // verus!
