//! Mutual exclusion: a spinning and a blocking mutex, with the bookkeeping
//! of who holds and who awaits each mutex slot.

use vstd::prelude::*;
use std::collections::VecDeque;
use crate::accounting::{lemma_held_mutex_update, mutex_balance};
use crate::manager::{wakeup_task, TaskManager};
use crate::process::{ProcessControlBlockInner, ProcessView};
use crate::task::{task_views, TaskControlBlock, TaskStatus, TaskView};

verus! {

/// How a call of `lock` ended.
#[derive(Copy, Clone, Debug, PartialEq, Eq, Structural)]
pub enum LockOutcome {
    /// The caller owns the mutex.
    Acquired,
    /// The caller was parked on the wait queue and must be suspended; it
    /// owns the mutex once it has been woken.
    Blocked,
    /// The mutex is taken; the caller must yield and call again.
    Retry,
}

/// A bookkeeping vector with one more instance at `slot`.
pub open spec fn one_more(v: Seq<usize>, slot: usize) -> Seq<usize> {
    v.update(slot as int, (v[slot as int] + 1) as usize)
}

/// A bookkeeping vector with one instance less at `slot`.
pub open spec fn one_less(v: Seq<usize>, slot: usize) -> Seq<usize> {
    v.update(slot as int, (v[slot as int] - 1) as usize)
}

/// A blocking mutex as plain values.
pub struct MutexView {
    pub locked: bool,
    pub wait_queue: Seq<usize>,
}

/// A blocking mutex together with what its operations read and change:
/// the task table and the availability counters of the owning process.
pub struct MutexSystem {
    pub mutex: MutexView,
    pub tasks: Seq<TaskView>,
    pub available: Seq<usize>,
}

/// When task `current` may call `lock`: its slot exists and no counter
/// would overflow; an unlocked mutex has an instance available.
pub open spec fn lock_enabled(s: MutexSystem, current: usize) -> bool {
    &&& current < s.tasks.len()
    &&& {
        let t = s.tasks[current as int];
        let id = t.mutex_id;
        if s.mutex.locked {
            id < t.awaited_mutex.len() && t.awaited_mutex[id as int] < usize::MAX
        } else {
            &&& id < s.available.len()
            &&& s.available[id as int] >= 1
            &&& id < t.held_mutex.len()
            &&& t.held_mutex[id as int] < usize::MAX
        }
    }
}

/// The system after task `current` has called `lock`. On a locked mutex
/// the task joins the tail of the wait queue, awaits one more instance and
/// becomes Blocked. On an unlocked one the mutex becomes locked, the
/// process has one instance less available and the task holds one more.
pub open spec fn lock_step(s: MutexSystem, current: usize) -> MutexSystem {
    let t = s.tasks[current as int];
    let id = t.mutex_id;
    if s.mutex.locked {
        MutexSystem {
            mutex: MutexView { locked: true, wait_queue: s.mutex.wait_queue.push(current) },
            tasks: s.tasks.update(
                current as int,
                TaskView {
                    awaited_mutex: one_more(t.awaited_mutex, id),
                    status: TaskStatus::Blocked,
                    ..t
                },
            ),
            available: s.available,
        }
    } else {
        MutexSystem {
            mutex: MutexView { locked: true, wait_queue: s.mutex.wait_queue },
            tasks: s.tasks.update(
                current as int,
                TaskView { held_mutex: one_more(t.held_mutex, id), ..t },
            ),
            available: one_less(s.available, id),
        }
    }
}

/// The task table after task `current` has given up one instance of the
/// slot it attributes to the release.
pub open spec fn released(tasks: Seq<TaskView>, current: usize) -> Seq<TaskView> {
    let t = tasks[current as int];
    tasks.update(current as int, TaskView { held_mutex: one_less(t.held_mutex, t.unlock_mutex_id), ..t })
}

/// The task that the next `unlock` wakes: the one that has waited longest.
pub open spec fn next_woken(m: MutexView) -> Option<usize> {
    if m.wait_queue.len() > 0 {
        Some(m.wait_queue[0])
    } else {
        None
    }
}

/// When task `current` may call `unlock`: the mutex is locked, the task
/// holds an instance of the slot, and the waiter to be woken, if there is
/// one, awaits an instance of it.
pub open spec fn unlock_enabled(s: MutexSystem, current: usize) -> bool {
    &&& s.mutex.locked
    &&& current < s.tasks.len()
    &&& {
        let t = s.tasks[current as int];
        let id = t.unlock_mutex_id;
        &&& id < t.held_mutex.len()
        &&& t.held_mutex[id as int] >= 1
        &&& match next_woken(s.mutex) {
            Some(w) => {
                &&& w < s.tasks.len()
                &&& {
                    let wt = released(s.tasks, current)[w as int];
                    &&& id < wt.awaited_mutex.len()
                    &&& wt.awaited_mutex[id as int] >= 1
                    &&& id < wt.held_mutex.len()
                    &&& wt.held_mutex[id as int] < usize::MAX
                }
            },
            None => id < s.available.len() && s.available[id as int] < usize::MAX,
        }
    }
}

/// The system after task `current` has called `unlock`. The task holds one
/// instance less. If a task waits, the one at the front of the queue
/// leaves it, awaits one instance less, holds one more and becomes Ready;
/// the mutex stays locked. Otherwise the mutex becomes unlocked and the
/// process has one more instance available.
pub open spec fn unlock_step(s: MutexSystem, current: usize) -> MutexSystem {
    let id = s.tasks[current as int].unlock_mutex_id;
    let tasks1 = released(s.tasks, current);
    match next_woken(s.mutex) {
        Some(w) => {
            let wt = tasks1[w as int];
            MutexSystem {
                mutex: MutexView { locked: true, wait_queue: s.mutex.wait_queue.drop_first() },
                tasks: tasks1.update(
                    w as int,
                    TaskView {
                        awaited_mutex: one_less(wt.awaited_mutex, id),
                        held_mutex: one_more(wt.held_mutex, id),
                        status: TaskStatus::Ready,
                        ..wt
                    },
                ),
                available: s.available,
            }
        },
        None => MutexSystem {
            mutex: MutexView { locked: false, wait_queue: s.mutex.wait_queue },
            tasks: tasks1,
            available: one_more(s.available, id),
        },
    }
}

/// The ready queue after an `unlock`: the woken task, if any, at its tail.
pub open spec fn ready_after_wake(ready: Seq<usize>, woken: Option<usize>) -> Seq<usize> {
    match woken {
        Some(w) => ready.push(w),
        None => ready,
    }
}

/// The two operations of a mutex. `lock` is one attempt: its result says
/// whether the caller owns the mutex, was parked, or must yield and try
/// again.
pub trait Mutex {
    /// When task `current` may call `lock`.
    spec fn may_lock(&self, tasks: Seq<TaskView>, available: Seq<usize>, current: usize) -> bool;

    /// When task `current` may call `unlock`.
    spec fn may_unlock(&self, tasks: Seq<TaskView>, available: Seq<usize>, current: usize) -> bool;

    /// Task `current` tries to take the mutex.
    fn lock(
        &mut self,
        tasks: &mut Vec<TaskControlBlock>,
        current: usize,
        process: &mut ProcessControlBlockInner,
    ) -> (r: LockOutcome)
        requires
            old(self).may_lock(task_views(old(tasks)@), old(process)@.mutex_available, current),
    ;

    /// Task `current` gives the mutex up.
    fn unlock(
        &mut self,
        tasks: &mut Vec<TaskControlBlock>,
        current: usize,
        process: &mut ProcessControlBlockInner,
        manager: &mut TaskManager,
    )
        requires
            old(self).may_unlock(task_views(old(tasks)@), old(process)@.mutex_available, current),
    ;
}

/// A mutex whose contenders yield and try again.
pub struct MutexSpin {
    pub locked: bool,
}

impl MutexSpin {
    /// An unlocked spinning mutex.
    pub fn new() -> (r: Self)
        ensures
            !r.locked,
    {
        MutexSpin { locked: false }
    }
}

impl Mutex for MutexSpin {
    open spec fn may_lock(&self, tasks: Seq<TaskView>, available: Seq<usize>, current: usize) -> bool {
        true
    }

    open spec fn may_unlock(&self, tasks: Seq<TaskView>, available: Seq<usize>, current: usize) -> bool {
        true
    }

    /// Takes the mutex if it is free; otherwise tells the caller to yield
    /// and try again. No bookkeeping is touched.
    fn lock(
        &mut self,
        tasks: &mut Vec<TaskControlBlock>,
        current: usize,
        process: &mut ProcessControlBlockInner,
    ) -> (r: LockOutcome)
        ensures
            final(self).locked,
            r == (if old(self).locked {
                LockOutcome::Retry
            } else {
                LockOutcome::Acquired
            }),
            *final(tasks) == *old(tasks),
            *final(process) == *old(process),
    {
        if self.locked {
            LockOutcome::Retry
        } else {
            self.locked = true;
            LockOutcome::Acquired
        }
    }

    /// Frees the mutex. No bookkeeping is touched.
    fn unlock(
        &mut self,
        tasks: &mut Vec<TaskControlBlock>,
        current: usize,
        process: &mut ProcessControlBlockInner,
        manager: &mut TaskManager,
    )
        ensures
            !final(self).locked,
            *final(tasks) == *old(tasks),
            *final(process) == *old(process),
            *final(manager) == *old(manager),
    {
        self.locked = false;
    }
}

/// The state of a blocking mutex: whether it is owned, and the tasks
/// parked on it, longest wait first.
pub struct MutexBlockingInner {
    pub locked: bool,
    pub wait_queue: VecDeque<usize>,
}

/// A mutex whose contenders are parked until the mutex is handed to them.
pub struct MutexBlocking {
    pub inner: MutexBlockingInner,
}

impl View for MutexBlocking {
    type V = MutexView;

    open spec fn view(&self) -> MutexView {
        MutexView { locked: self.inner.locked, wait_queue: self.inner.wait_queue@ }
    }
}

impl MutexBlocking {
    /// An unlocked blocking mutex on which nobody waits.
    pub fn new() -> (r: Self)
        ensures
            r@ == (MutexView { locked: false, wait_queue: Seq::empty() }),
    {
        MutexBlocking { inner: MutexBlockingInner { locked: false, wait_queue: VecDeque::new() } }
    }

    /// The mutex with the task table and the counters it works on.
    pub open spec fn system(&self, tasks: Seq<TaskControlBlock>, process: ProcessControlBlockInner) -> MutexSystem {
        MutexSystem {
            mutex: self@,
            tasks: task_views(tasks),
            available: process@.mutex_available,
        }
    }
}

impl Mutex for MutexBlocking {
    open spec fn may_lock(&self, tasks: Seq<TaskView>, available: Seq<usize>, current: usize) -> bool {
        lock_enabled(MutexSystem { mutex: self@, tasks, available }, current)
    }

    open spec fn may_unlock(&self, tasks: Seq<TaskView>, available: Seq<usize>, current: usize) -> bool {
        unlock_enabled(MutexSystem { mutex: self@, tasks, available }, current)
    }

    /// Takes the mutex for task `current` if it is free, and parks the
    /// task otherwise. The slot is the one in the task's `mutex_id`.
    fn lock(
        &mut self,
        tasks: &mut Vec<TaskControlBlock>,
        current: usize,
        process: &mut ProcessControlBlockInner,
    ) -> (r: LockOutcome)
        ensures
            final(self).system(final(tasks)@, *final(process)) == lock_step(
                old(self).system(old(tasks)@, *old(process)),
                current,
            ),
            r == (if old(self)@.locked {
                LockOutcome::Blocked
            } else {
                LockOutcome::Acquired
            }),
            final(process)@ == (ProcessView {
                mutex_available: final(process)@.mutex_available,
                ..old(process)@
            }),
    {
        let ghost views = task_views(tasks@);
        assert(views[current as int] == tasks@[current as int]@);
        let mutex_id: usize = tasks[current].inner.mutex_id;
        if self.inner.locked {
            self.inner.wait_queue.push_back(current);
            let need: usize = tasks[current].inner.need_vec_mutex[mutex_id];
            tasks[current].inner.need_vec_mutex[mutex_id] = need + 1;
            tasks[current].inner.task_status = TaskStatus::Blocked;
            assert(task_views(tasks@) =~= views.update(
                current as int,
                (TaskView {
                    awaited_mutex: one_more(views[current as int].awaited_mutex, mutex_id),
                    status: TaskStatus::Blocked,
                    ..views[current as int]
                }),
            ));
            LockOutcome::Blocked
        } else {
            let available: usize = process.mutex_available_vec[mutex_id];
            process.mutex_available_vec[mutex_id] = available - 1;
            let held: usize = tasks[current].inner.alloc_vec_mutex[mutex_id];
            tasks[current].inner.alloc_vec_mutex[mutex_id] = held + 1;
            self.inner.locked = true;
            assert(task_views(tasks@) =~= views.update(
                current as int,
                (TaskView {
                    held_mutex: one_more(views[current as int].held_mutex, mutex_id),
                    ..views[current as int]
                }),
            ));
            LockOutcome::Acquired
        }
    }

    /// Gives the mutex up for task `current`: hands it to the task that
    /// has waited longest and makes that task ready, or frees it if nobody
    /// waits. The slot is the one in the task's `unlock_mutex_id`.
    fn unlock(
        &mut self,
        tasks: &mut Vec<TaskControlBlock>,
        current: usize,
        process: &mut ProcessControlBlockInner,
        manager: &mut TaskManager,
    )
        ensures
            final(self).system(final(tasks)@, *final(process)) == unlock_step(
                old(self).system(old(tasks)@, *old(process)),
                current,
            ),
            final(manager)@ == ready_after_wake(old(manager)@, next_woken(old(self)@)),
            final(process)@ == (ProcessView {
                mutex_available: final(process)@.mutex_available,
                ..old(process)@
            }),
    {
        let ghost views = task_views(tasks@);
        assert(views[current as int] == tasks@[current as int]@);
        let mutex_id: usize = tasks[current].inner.unlock_mutex_id;
        let held: usize = tasks[current].inner.alloc_vec_mutex[mutex_id];
        tasks[current].inner.alloc_vec_mutex[mutex_id] = held - 1;
        let ghost views1 = task_views(tasks@);
        assert(views1 =~= released(views, current));
        match self.inner.wait_queue.pop_front() {
            Some(waking_task) => {
                assert(views1[waking_task as int] == tasks@[waking_task as int]@);
                let need: usize = tasks[waking_task].inner.need_vec_mutex[mutex_id];
                tasks[waking_task].inner.need_vec_mutex[mutex_id] = need - 1;
                let got: usize = tasks[waking_task].inner.alloc_vec_mutex[mutex_id];
                tasks[waking_task].inner.alloc_vec_mutex[mutex_id] = got + 1;
                let ghost views2 = task_views(tasks@);
                assert(views2 =~= views1.update(
                    waking_task as int,
                    (TaskView {
                        awaited_mutex: one_less(views1[waking_task as int].awaited_mutex, mutex_id),
                        held_mutex: one_more(views1[waking_task as int].held_mutex, mutex_id),
                        ..views1[waking_task as int]
                    }),
                ));
                wakeup_task(tasks, manager, waking_task);
                assert(task_views(tasks@) =~= views1.update(
                    waking_task as int,
                    (TaskView {
                        awaited_mutex: one_less(views1[waking_task as int].awaited_mutex, mutex_id),
                        held_mutex: one_more(views1[waking_task as int].held_mutex, mutex_id),
                        status: TaskStatus::Ready,
                        ..views1[waking_task as int]
                    }),
                ));
            },
            None => {
                let available: usize = process.mutex_available_vec[mutex_id];
                process.mutex_available_vec[mutex_id] = available + 1;
                self.inner.locked = false;
            },
        }
    }
}

/// A call on the mutex as the kernel makes it: the caller first records
/// the slot in the task, then calls the operation.
pub enum MutexCall {
    Lock { task: usize, slot: usize },
    Unlock { task: usize, slot: usize },
}

/// The system after the slot of a call has been recorded in the task.
pub open spec fn attributed(s: MutexSystem, call: MutexCall) -> MutexSystem {
    match call {
        MutexCall::Lock { task, slot } => MutexSystem {
            tasks: s.tasks.update(task as int, TaskView { mutex_id: slot, ..s.tasks[task as int] }),
            ..s
        },
        MutexCall::Unlock { task, slot } => MutexSystem {
            tasks: s.tasks.update(
                task as int,
                TaskView { unlock_mutex_id: slot, ..s.tasks[task as int] },
            ),
            ..s
        },
    }
}

/// When a call may be made.
pub open spec fn call_enabled(s: MutexSystem, call: MutexCall) -> bool {
    match call {
        MutexCall::Lock { task, slot } => task < s.tasks.len() && lock_enabled(
            attributed(s, call),
            task,
        ),
        MutexCall::Unlock { task, slot } => task < s.tasks.len() && unlock_enabled(
            attributed(s, call),
            task,
        ),
    }
}

/// The system after a call.
pub open spec fn call_step(s: MutexSystem, call: MutexCall) -> MutexSystem {
    match call {
        MutexCall::Lock { task, slot } => lock_step(attributed(s, call), task),
        MutexCall::Unlock { task, slot } => unlock_step(attributed(s, call), task),
    }
}

/// Whether each call of a sequence may be made when its turn comes.
pub open spec fn calls_enabled(s: MutexSystem, calls: Seq<MutexCall>) -> bool
    decreases calls.len(),
{
    calls.len() == 0 || (call_enabled(s, calls[0]) && calls_enabled(
        call_step(s, calls[0]),
        calls.drop_first(),
    ))
}

/// The system after a sequence of calls.
pub open spec fn after_calls(s: MutexSystem, calls: Seq<MutexCall>) -> MutexSystem
    decreases calls.len(),
{
    if calls.len() == 0 {
        s
    } else {
        after_calls(call_step(s, calls[0]), calls.drop_first())
    }
}

/// `lock` neither creates nor loses an instance of any slot: what is
/// available plus what the tasks hold stays the same.
pub proof fn lemma_lock_conserves(s: MutexSystem, current: usize, slot: int)
    requires
        lock_enabled(s, current),
    ensures
        mutex_balance(lock_step(s, current).tasks, lock_step(s, current).available, slot)
            == mutex_balance(s.tasks, s.available, slot),
{
    let t = s.tasks[current as int];
    let s2 = lock_step(s, current);
    lemma_held_mutex_update(s.tasks, current as int, s2.tasks[current as int], slot);
}

/// `unlock` neither creates nor loses an instance of any slot, whether it
/// hands the mutex to a waiter or frees it.
pub proof fn lemma_unlock_conserves(s: MutexSystem, current: usize, slot: int)
    requires
        unlock_enabled(s, current),
    ensures
        mutex_balance(unlock_step(s, current).tasks, unlock_step(s, current).available, slot)
            == mutex_balance(s.tasks, s.available, slot),
{
    let tasks1 = released(s.tasks, current);
    let s2 = unlock_step(s, current);
    lemma_held_mutex_update(s.tasks, current as int, tasks1[current as int], slot);
    match next_woken(s.mutex) {
        Some(w) => {
            lemma_held_mutex_update(tasks1, w as int, s2.tasks[w as int], slot);
        },
        None => {},
    }
}

/// Conservation: over every sequence of `lock` and `unlock` calls, each
/// made when it may be, the instances of a slot that are available plus
/// those that the tasks hold stay constant, and are never negative.
pub proof fn lemma_calls_conserve(s: MutexSystem, calls: Seq<MutexCall>, slot: int)
    requires
        calls_enabled(s, calls),
    ensures
        mutex_balance(after_calls(s, calls).tasks, after_calls(s, calls).available, slot)
            == mutex_balance(s.tasks, s.available, slot),
        mutex_balance(s.tasks, s.available, slot) >= 0,
    decreases calls.len(),
{
    crate::accounting::lemma_sum_nonnegative(crate::accounting::held_mutex_column(s.tasks, slot));
    if calls.len() > 0 {
        let call = calls[0];
        let a = attributed(s, call);
        match call {
            MutexCall::Lock { task, slot: id } => {
                lemma_held_mutex_update(s.tasks, task as int, a.tasks[task as int], slot);
                lemma_lock_conserves(a, task, slot);
            },
            MutexCall::Unlock { task, slot: id } => {
                lemma_held_mutex_update(s.tasks, task as int, a.tasks[task as int], slot);
                lemma_unlock_conserves(a, task, slot);
            },
        }
        lemma_calls_conserve(call_step(s, call), calls.drop_first(), slot);
    }
}

/// First blocked, first woken: when task `a` and then task `b` call `lock`
/// on a held mutex on which nobody waits, the next `unlock` wakes `a` and
/// the one after it wakes `b`; the mutex stays locked throughout, and
/// after the two the wait queue is empty again.
pub proof fn lemma_fifo_wakeup(s: MutexSystem, a: usize, b: usize, r1: usize, r2: usize)
    requires
        s.mutex.locked,
        s.mutex.wait_queue.len() == 0,
    ensures
        ({
            let s2 = lock_step(lock_step(s, a), b);
            let s3 = unlock_step(s2, r1);
            let s4 = unlock_step(s3, r2);
            &&& s2.mutex.wait_queue == seq![a, b]
            &&& next_woken(s2.mutex) == Some(a)
            &&& s3.mutex.locked
            &&& next_woken(s3.mutex) == Some(b)
            &&& s4.mutex.locked
            &&& s4.mutex.wait_queue.len() == 0
        }),
{
    let s2 = lock_step(lock_step(s, a), b);
    assert(s2.mutex.wait_queue =~= seq![a, b]);
    let s3 = unlock_step(s2, r1);
    assert(s3.mutex.wait_queue =~= seq![b]);
}

/// The wait queue is a queue: a `lock` on a held mutex adds the caller
/// behind everyone who waits, and an `unlock` wakes the task at the front
/// and leaves the others in their order.
pub proof fn lemma_wait_queue_order(s: MutexSystem, current: usize)
    requires
        s.mutex.locked,
    ensures
        lock_step(s, current).mutex.wait_queue == s.mutex.wait_queue.push(current),
        s.mutex.wait_queue.len() > 0 ==> next_woken(s.mutex) == Some(s.mutex.wait_queue[0])
            && unlock_step(s, current).mutex.wait_queue == s.mutex.wait_queue.drop_first(),
{
}

} // verus!
