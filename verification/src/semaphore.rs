//! A counting semaphore with a queue of parked tasks, and the bookkeeping
//! of who holds and who awaits each semaphore slot.

use vstd::prelude::*;
use std::collections::VecDeque;
use crate::accounting::{
    held_semaphore_column,
    lemma_held_semaphore_update,
    lemma_sum_nonnegative,
    semaphore_balance,
};
use crate::manager::{wakeup_task, TaskManager};
use crate::mutex::{one_less, one_more, ready_after_wake, LockOutcome};
use crate::process::{ProcessControlBlockInner, ProcessView};
use crate::task::{task_views, TaskControlBlock, TaskStatus, TaskView};

verus! {

/// The state of a semaphore: its counter, negative while tasks wait, and
/// the tasks parked on it, longest wait first.
pub struct SemaphoreInner {
    pub count: isize,
    pub wait_queue: VecDeque<usize>,
}

/// A counting semaphore.
pub struct Semaphore {
    pub inner: SemaphoreInner,
}

/// A semaphore as plain values.
pub struct SemaphoreView {
    pub count: isize,
    pub wait_queue: Seq<usize>,
}

impl View for Semaphore {
    type V = SemaphoreView;

    open spec fn view(&self) -> SemaphoreView {
        SemaphoreView { count: self.inner.count, wait_queue: self.inner.wait_queue@ }
    }
}

/// A semaphore together with what its operations read and change: the
/// task table and the availability counters of the owning process.
pub struct SemaphoreSystem {
    pub semaphore: SemaphoreView,
    pub tasks: Seq<TaskView>,
    pub available: Seq<usize>,
}

/// The counter and the queue agree: a negative counter is the number of
/// waiters, negated, and nobody waits while the counter is not negative.
pub open spec fn semaphore_wf(m: SemaphoreView) -> bool {
    if m.count < 0 {
        m.wait_queue.len() == -m.count
    } else {
        m.wait_queue.len() == 0
    }
}

/// When task `current` may call `down`: its slot exists, no counter would
/// overflow, and if the task is not to wait an instance is available.
pub open spec fn down_enabled(s: SemaphoreSystem, current: usize) -> bool {
    &&& current < s.tasks.len()
    &&& s.semaphore.count > isize::MIN
    &&& {
        let t = s.tasks[current as int];
        let id = t.semaphore_id;
        if s.semaphore.count - 1 < 0 {
            id < t.awaited_semaphore.len() && t.awaited_semaphore[id as int] < usize::MAX
        } else {
            &&& id < s.available.len()
            &&& s.available[id as int] >= 1
            &&& id < t.held_semaphore.len()
            &&& t.held_semaphore[id as int] < usize::MAX
        }
    }
}

/// The system after task `current` has called `down`. The counter drops
/// by one. If it is then negative the task joins the tail of the wait
/// queue, awaits one more instance and becomes Blocked. Otherwise the
/// process has one instance less available and the task holds one more.
pub open spec fn down_step(s: SemaphoreSystem, current: usize) -> SemaphoreSystem {
    let t = s.tasks[current as int];
    let id = t.semaphore_id;
    let count = (s.semaphore.count - 1) as isize;
    if count < 0 {
        SemaphoreSystem {
            semaphore: SemaphoreView { count, wait_queue: s.semaphore.wait_queue.push(current) },
            tasks: s.tasks.update(
                current as int,
                TaskView {
                    awaited_semaphore: one_more(t.awaited_semaphore, id),
                    status: TaskStatus::Blocked,
                    ..t
                },
            ),
            available: s.available,
        }
    } else {
        SemaphoreSystem {
            semaphore: SemaphoreView { count, wait_queue: s.semaphore.wait_queue },
            tasks: s.tasks.update(
                current as int,
                TaskView { held_semaphore: one_more(t.held_semaphore, id), ..t },
            ),
            available: one_less(s.available, id),
        }
    }
}

/// A bookkeeping vector with one instance less at `slot`, or as it is if
/// there is none at `slot`.
pub open spec fn one_less_if_any(v: Seq<usize>, slot: usize) -> Seq<usize> {
    if v[slot as int] >= 1 {
        one_less(v, slot)
    } else {
        v
    }
}

/// The task table after task `current` has given up one instance of the
/// slot it attributes to the release. A task that holds none goes on
/// holding none.
pub open spec fn given_up(tasks: Seq<TaskView>, current: usize) -> Seq<TaskView> {
    let t = tasks[current as int];
    tasks.update(
        current as int,
        TaskView { held_semaphore: one_less_if_any(t.held_semaphore, t.unlock_semaphore_id), ..t },
    )
}

/// Whether task `current` holds an instance of the slot that it
/// attributes to its next release.
pub open spec fn holds_released(tasks: Seq<TaskView>, current: usize) -> bool {
    let t = tasks[current as int];
    t.unlock_semaphore_id < t.held_semaphore.len() && t.held_semaphore[t.unlock_semaphore_id as int] >= 1
}

/// The task that `up` wakes: the one that has waited longest, if the
/// counter says that somebody waits.
pub open spec fn woken_by_up(m: SemaphoreView) -> Option<usize> {
    if m.count + 1 <= 0 && m.wait_queue.len() > 0 {
        Some(m.wait_queue[0])
    } else {
        None
    }
}

/// When task `current` may call `up`: its slot exists, no counter would
/// overflow, and the waiter to be woken, if there is one, awaits an
/// instance of the slot. The task need not hold an instance.
pub open spec fn up_enabled(s: SemaphoreSystem, current: usize) -> bool {
    &&& current < s.tasks.len()
    &&& s.semaphore.count < isize::MAX
    &&& {
        let t = s.tasks[current as int];
        let id = t.unlock_semaphore_id;
        &&& id < t.held_semaphore.len()
        &&& if s.semaphore.count + 1 <= 0 {
            match woken_by_up(s.semaphore) {
                Some(w) => {
                    &&& w < s.tasks.len()
                    &&& {
                        let wt = given_up(s.tasks, current)[w as int];
                        &&& id < wt.awaited_semaphore.len()
                        &&& wt.awaited_semaphore[id as int] >= 1
                        &&& id < wt.held_semaphore.len()
                        &&& wt.held_semaphore[id as int] < usize::MAX
                    }
                },
                None => true,
            }
        } else {
            id < s.available.len() && s.available[id as int] < usize::MAX
        }
    }
}

/// The system after task `current` has called `up`. The counter grows by
/// one and the task holds one instance less, if it held any. If the counter is then still
/// not positive, the task at the front of the wait queue leaves it, awaits
/// one instance less, holds one more and becomes Ready. Otherwise the
/// process has one more instance available.
pub open spec fn up_step(s: SemaphoreSystem, current: usize) -> SemaphoreSystem {
    let id = s.tasks[current as int].unlock_semaphore_id;
    let count = (s.semaphore.count + 1) as isize;
    let tasks1 = given_up(s.tasks, current);
    if count <= 0 {
        match woken_by_up(s.semaphore) {
            Some(w) => {
                let wt = tasks1[w as int];
                SemaphoreSystem {
                    semaphore: SemaphoreView {
                        count,
                        wait_queue: s.semaphore.wait_queue.drop_first(),
                    },
                    tasks: tasks1.update(
                        w as int,
                        TaskView {
                            awaited_semaphore: one_less(wt.awaited_semaphore, id),
                            held_semaphore: one_more(wt.held_semaphore, id),
                            status: TaskStatus::Ready,
                            ..wt
                        },
                    ),
                    available: s.available,
                }
            },
            None => SemaphoreSystem {
                semaphore: SemaphoreView { count, wait_queue: s.semaphore.wait_queue },
                tasks: tasks1,
                available: s.available,
            },
        }
    } else {
        SemaphoreSystem {
            semaphore: SemaphoreView { count, wait_queue: s.semaphore.wait_queue },
            tasks: tasks1,
            available: one_more(s.available, id),
        }
    }
}

impl Semaphore {
    /// A semaphore with `res_count` instances on which nobody waits.
    pub fn new(res_count: usize) -> (r: Self)
        requires
            res_count <= isize::MAX,
        ensures
            r@ == (SemaphoreView { count: res_count as isize, wait_queue: Seq::empty() }),
            semaphore_wf(r@),
    {
        Semaphore { inner: SemaphoreInner { count: res_count as isize, wait_queue: VecDeque::new() } }
    }

    /// The semaphore with the task table and the counters it works on.
    pub open spec fn system(&self, tasks: Seq<TaskControlBlock>, process: ProcessControlBlockInner) -> SemaphoreSystem {
        SemaphoreSystem {
            semaphore: self@,
            tasks: task_views(tasks),
            available: process@.semaphore_available,
        }
    }

    /// Releases one instance for task `current`: wakes the task that has
    /// waited longest and makes it ready, or makes the instance
    /// available. The slot is the one in the task's
    /// `unlock_semaphore_id`. A release by a task that holds no instance
    /// of the slot is not refused: the counter and what is available grow
    /// all the same, without a cap, and the task goes on holding none.
    pub fn up(
        &mut self,
        tasks: &mut Vec<TaskControlBlock>,
        current: usize,
        process: &mut ProcessControlBlockInner,
        manager: &mut TaskManager,
    )
        requires
            up_enabled(old(self).system(old(tasks)@, *old(process)), current),
        ensures
            final(self).system(final(tasks)@, *final(process)) == up_step(
                old(self).system(old(tasks)@, *old(process)),
                current,
            ),
            final(manager)@ == ready_after_wake(old(manager)@, woken_by_up(old(self)@)),
            final(process)@ == (ProcessView {
                semaphore_available: final(process)@.semaphore_available,
                ..old(process)@
            }),
    {
        let ghost views = task_views(tasks@);
        assert(views[current as int] == tasks@[current as int]@);
        self.inner.count = self.inner.count + 1;
        let semaphore_id: usize = tasks[current].inner.unlock_semaphore_id;
        let held: usize = tasks[current].inner.alloc_vec_semaphore[semaphore_id];
        if held >= 1 {
            tasks[current].inner.alloc_vec_semaphore[semaphore_id] = held - 1;
        }
        let ghost views1 = task_views(tasks@);
        assert(views1 =~= given_up(views, current));
        if self.inner.count <= 0 {
            match self.inner.wait_queue.pop_front() {
                Some(task) => {
                    assert(views1[task as int] == tasks@[task as int]@);
                    let need: usize = tasks[task].inner.need_vec_semaphore[semaphore_id];
                    tasks[task].inner.need_vec_semaphore[semaphore_id] = need - 1;
                    let got: usize = tasks[task].inner.alloc_vec_semaphore[semaphore_id];
                    tasks[task].inner.alloc_vec_semaphore[semaphore_id] = got + 1;
                    let ghost views2 = task_views(tasks@);
                    assert(views2 =~= views1.update(
                        task as int,
                        (TaskView {
                            awaited_semaphore: one_less(
                                views1[task as int].awaited_semaphore,
                                semaphore_id,
                            ),
                            held_semaphore: one_more(views1[task as int].held_semaphore, semaphore_id),
                            ..views1[task as int]
                        }),
                    ));
                    wakeup_task(tasks, manager, task);
                    assert(task_views(tasks@) =~= views1.update(
                        task as int,
                        (TaskView {
                            awaited_semaphore: one_less(
                                views1[task as int].awaited_semaphore,
                                semaphore_id,
                            ),
                            held_semaphore: one_more(views1[task as int].held_semaphore, semaphore_id),
                            status: TaskStatus::Ready,
                            ..views1[task as int]
                        }),
                    ));
                },
                None => {},
            }
        } else {
            let available: usize = process.semaphore_available_vec[semaphore_id];
            process.semaphore_available_vec[semaphore_id] = available + 1;
        }
    }

    /// Takes one instance for task `current`, or parks the task if none is
    /// left. The slot is the one in the task's `semaphore_id`. The result
    /// says whether the task got the instance or was parked.
    pub fn down(
        &mut self,
        tasks: &mut Vec<TaskControlBlock>,
        current: usize,
        process: &mut ProcessControlBlockInner,
    ) -> (r: LockOutcome)
        requires
            down_enabled(old(self).system(old(tasks)@, *old(process)), current),
        ensures
            final(self).system(final(tasks)@, *final(process)) == down_step(
                old(self).system(old(tasks)@, *old(process)),
                current,
            ),
            r == (if old(self)@.count - 1 < 0 {
                LockOutcome::Blocked
            } else {
                LockOutcome::Acquired
            }),
            final(process)@ == (ProcessView {
                semaphore_available: final(process)@.semaphore_available,
                ..old(process)@
            }),
    {
        let ghost views = task_views(tasks@);
        assert(views[current as int] == tasks@[current as int]@);
        self.inner.count = self.inner.count - 1;
        let semaphore_id: usize = tasks[current].inner.semaphore_id;
        if self.inner.count < 0 {
            self.inner.wait_queue.push_back(current);
            let need: usize = tasks[current].inner.need_vec_semaphore[semaphore_id];
            tasks[current].inner.need_vec_semaphore[semaphore_id] = need + 1;
            tasks[current].inner.task_status = TaskStatus::Blocked;
            assert(task_views(tasks@) =~= views.update(
                current as int,
                (TaskView {
                    awaited_semaphore: one_more(views[current as int].awaited_semaphore, semaphore_id),
                    status: TaskStatus::Blocked,
                    ..views[current as int]
                }),
            ));
            LockOutcome::Blocked
        } else {
            let available: usize = process.semaphore_available_vec[semaphore_id];
            process.semaphore_available_vec[semaphore_id] = available - 1;
            let held: usize = tasks[current].inner.alloc_vec_semaphore[semaphore_id];
            tasks[current].inner.alloc_vec_semaphore[semaphore_id] = held + 1;
            assert(task_views(tasks@) =~= views.update(
                current as int,
                (TaskView {
                    held_semaphore: one_more(views[current as int].held_semaphore, semaphore_id),
                    ..views[current as int]
                }),
            ));
            LockOutcome::Acquired
        }
    }
}

/// A call on the semaphore as the kernel makes it: the caller first
/// records the slot in the task, then calls the operation.
pub enum SemaphoreCall {
    Down { task: usize, slot: usize },
    Up { task: usize, slot: usize },
}

/// The system after the slot of a call has been recorded in the task.
pub open spec fn slot_recorded(s: SemaphoreSystem, call: SemaphoreCall) -> SemaphoreSystem {
    match call {
        SemaphoreCall::Down { task, slot } => SemaphoreSystem {
            tasks: s.tasks.update(
                task as int,
                TaskView { semaphore_id: slot, ..s.tasks[task as int] },
            ),
            ..s
        },
        SemaphoreCall::Up { task, slot } => SemaphoreSystem {
            tasks: s.tasks.update(
                task as int,
                TaskView { unlock_semaphore_id: slot, ..s.tasks[task as int] },
            ),
            ..s
        },
    }
}

/// When a call may be made that gives back only what was taken: a `down`
/// whenever it may be called, an `up` when it may be called and the
/// caller holds an instance of the slot.
pub open spec fn semaphore_call_enabled(s: SemaphoreSystem, call: SemaphoreCall) -> bool {
    match call {
        SemaphoreCall::Down { task, slot } => task < s.tasks.len() && down_enabled(
            slot_recorded(s, call),
            task,
        ),
        SemaphoreCall::Up { task, slot } => task < s.tasks.len() && up_enabled(
            slot_recorded(s, call),
            task,
        ) && holds_released(slot_recorded(s, call).tasks, task),
    }
}

/// The system after a call.
pub open spec fn semaphore_call_step(s: SemaphoreSystem, call: SemaphoreCall) -> SemaphoreSystem {
    match call {
        SemaphoreCall::Down { task, slot } => down_step(slot_recorded(s, call), task),
        SemaphoreCall::Up { task, slot } => up_step(slot_recorded(s, call), task),
    }
}

/// Whether each call of a sequence may be made when its turn comes.
pub open spec fn semaphore_calls_enabled(s: SemaphoreSystem, calls: Seq<SemaphoreCall>) -> bool
    decreases calls.len(),
{
    calls.len() == 0 || (semaphore_call_enabled(s, calls[0]) && semaphore_calls_enabled(
        semaphore_call_step(s, calls[0]),
        calls.drop_first(),
    ))
}

/// The system after a sequence of calls.
pub open spec fn after_semaphore_calls(s: SemaphoreSystem, calls: Seq<SemaphoreCall>) -> SemaphoreSystem
    decreases calls.len(),
{
    if calls.len() == 0 {
        s
    } else {
        after_semaphore_calls(semaphore_call_step(s, calls[0]), calls.drop_first())
    }
}

/// `down` keeps the counter and the queue in agreement and neither creates
/// nor loses an instance of any slot.
pub proof fn lemma_down_conserves(s: SemaphoreSystem, current: usize, slot: int)
    requires
        down_enabled(s, current),
        semaphore_wf(s.semaphore),
    ensures
        semaphore_wf(down_step(s, current).semaphore),
        semaphore_balance(down_step(s, current).tasks, down_step(s, current).available, slot)
            == semaphore_balance(s.tasks, s.available, slot),
{
    let s2 = down_step(s, current);
    lemma_held_semaphore_update(s.tasks, current as int, s2.tasks[current as int], slot);
}

/// An `up` by a task that holds no instance of the slot makes one: the
/// counter and the queue stay in agreement, what is available or held of
/// that slot grows by one, and every other slot is as before.
pub proof fn lemma_up_without_holding(s: SemaphoreSystem, current: usize, slot: int)
    requires
        up_enabled(s, current),
        semaphore_wf(s.semaphore),
        !holds_released(s.tasks, current),
    ensures
        semaphore_wf(up_step(s, current).semaphore),
        semaphore_balance(up_step(s, current).tasks, up_step(s, current).available, slot)
            == semaphore_balance(s.tasks, s.available, slot) + (if slot
            == s.tasks[current as int].unlock_semaphore_id {
            1int
        } else {
            0int
        }),
        up_step(s, current).semaphore.count == s.semaphore.count + 1,
{
    let tasks1 = given_up(s.tasks, current);
    let s2 = up_step(s, current);
    assert(tasks1 =~= s.tasks);
    match woken_by_up(s.semaphore) {
        Some(w) => {
            lemma_held_semaphore_update(tasks1, w as int, s2.tasks[w as int], slot);
        },
        None => {},
    }
}

/// `up` by a task that holds an instance of the slot keeps the counter
/// and the queue in agreement and neither creates nor loses an instance
/// of any slot, whether it wakes a waiter or makes the instance
/// available.
pub proof fn lemma_up_conserves(s: SemaphoreSystem, current: usize, slot: int)
    requires
        up_enabled(s, current),
        holds_released(s.tasks, current),
        semaphore_wf(s.semaphore),
    ensures
        semaphore_wf(up_step(s, current).semaphore),
        semaphore_balance(up_step(s, current).tasks, up_step(s, current).available, slot)
            == semaphore_balance(s.tasks, s.available, slot),
{
    let tasks1 = given_up(s.tasks, current);
    let s2 = up_step(s, current);
    lemma_held_semaphore_update(s.tasks, current as int, tasks1[current as int], slot);
    match woken_by_up(s.semaphore) {
        Some(w) => {
            lemma_held_semaphore_update(tasks1, w as int, s2.tasks[w as int], slot);
        },
        None => {},
    }
}

/// Conservation: over every sequence of `down` and `up` calls, each made
/// when it may be and each `up` by a task that holds an instance, on a
/// semaphore whose counter and queue agree, the instances of a slot that
/// are available plus those that the tasks hold stay constant, and are
/// never negative.
pub proof fn lemma_semaphore_calls_conserve(s: SemaphoreSystem, calls: Seq<SemaphoreCall>, slot: int)
    requires
        semaphore_wf(s.semaphore),
        semaphore_calls_enabled(s, calls),
    ensures
        semaphore_wf(after_semaphore_calls(s, calls).semaphore),
        semaphore_balance(
            after_semaphore_calls(s, calls).tasks,
            after_semaphore_calls(s, calls).available,
            slot,
        ) == semaphore_balance(s.tasks, s.available, slot),
        semaphore_balance(s.tasks, s.available, slot) >= 0,
    decreases calls.len(),
{
    lemma_sum_nonnegative(held_semaphore_column(s.tasks, slot));
    if calls.len() > 0 {
        let call = calls[0];
        let a = slot_recorded(s, call);
        match call {
            SemaphoreCall::Down { task, slot: id } => {
                lemma_held_semaphore_update(s.tasks, task as int, a.tasks[task as int], slot);
                lemma_down_conserves(a, task, slot);
            },
            SemaphoreCall::Up { task, slot: id } => {
                lemma_held_semaphore_update(s.tasks, task as int, a.tasks[task as int], slot);
                lemma_up_conserves(a, task, slot);
            },
        }
        lemma_semaphore_calls_conserve(semaphore_call_step(s, call), calls.drop_first(), slot);
    }
}

} // verus!
