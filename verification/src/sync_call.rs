//! The system calls for mutexes and semaphores: each primitive is named by
//! a slot of the process that made it.

use vstd::prelude::*;
use crate::kernel::{can_charge, current_process, kernel_wf, next_running, Kernel, KernelView};
use crate::mutex::{
    lock_enabled,
    lock_step,
    next_woken,
    ready_after_wake,
    unlock_enabled,
    unlock_step,
    LockOutcome,
    Mutex,
    MutexBlocking,
    MutexSystem,
    MutexView,
};
use crate::process::{ProcessControlBlockInner, ProcessView};
use crate::slots::{find_free, first_free};
use crate::semaphore::{
    down_enabled,
    down_step,
    up_enabled,
    up_step,
    woken_by_up,
    Semaphore,
    SemaphoreSystem,
    SemaphoreView,
};
use crate::task::TaskView;

verus! {

/// The state with another list of instances available for the mutexes of
/// process `p`.
pub open spec fn with_mutex_available(k: KernelView, p: usize, available: Seq<usize>) -> KernelView {
    KernelView {
        processes: k.processes.update(
            p as int,
            (k.processes[p as int].0, ProcessView { mutex_available: available, ..k.processes[p as int].1 }),
        ),
        ..k
    }
}

/// The state with another list of instances available for the semaphores
/// of process `p`.
pub open spec fn with_semaphore_available(k: KernelView, p: usize, available: Seq<usize>) -> KernelView {
    KernelView {
        processes: k.processes.update(
            p as int,
            (
                k.processes[p as int].0,
                ProcessView { semaphore_available: available, ..k.processes[p as int].1 },
            ),
        ),
        ..k
    }
}

/// The state after the running task has recorded `id` as the slot of its
/// next `lock`.
pub open spec fn lock_attributed(k: KernelView, id: usize) -> KernelView {
    let c = k.current.unwrap();
    KernelView { tasks: k.tasks.update(c as int, TaskView { mutex_id: id, ..k.tasks[c as int] }), ..k }
}

/// The state after the running task has recorded `id` as the slot of its
/// next `unlock`.
pub open spec fn unlock_attributed(k: KernelView, id: usize) -> KernelView {
    let c = k.current.unwrap();
    KernelView {
        tasks: k.tasks.update(c as int, TaskView { unlock_mutex_id: id, ..k.tasks[c as int] }),
        ..k
    }
}

/// The state after the running task has recorded `id` as the slot of its
/// next `down`.
pub open spec fn down_attributed(k: KernelView, id: usize) -> KernelView {
    let c = k.current.unwrap();
    KernelView {
        tasks: k.tasks.update(c as int, TaskView { semaphore_id: id, ..k.tasks[c as int] }),
        ..k
    }
}

/// The state after the running task has recorded `id` as the slot of its
/// next `up`.
pub open spec fn up_attributed(k: KernelView, id: usize) -> KernelView {
    let c = k.current.unwrap();
    KernelView {
        tasks: k.tasks.update(c as int, TaskView { unlock_semaphore_id: id, ..k.tasks[c as int] }),
        ..k
    }
}

/// A blocking mutex with the tables of the kernel that it works on.
pub open spec fn mutex_system(k: KernelView, m: MutexView) -> MutexSystem {
    MutexSystem { mutex: m, tasks: k.tasks, available: k.processes[current_process(k) as int].1.mutex_available }
}

/// A semaphore with the tables of the kernel that it works on.
pub open spec fn semaphore_system(k: KernelView, m: SemaphoreView) -> SemaphoreSystem {
    SemaphoreSystem {
        semaphore: m,
        tasks: k.tasks,
        available: k.processes[current_process(k) as int].1.semaphore_available,
    }
}

/// The state of the kernel after an operation on a primitive has changed
/// the task table and the instances available, and whether the running
/// task was parked: a parked task gives up the processor and the
/// scheduler selects the task to run next.
pub open spec fn after_sync(k: KernelView, parked: bool) -> KernelView {
    if parked {
        next_running(KernelView { current: None, ..k })
    } else {
        k
    }
}

/// The state of the kernel after the running task has called `lock` for
/// slot `id` on the blocking mutex `m`.
pub open spec fn mutex_locked(k: KernelView, m: MutexView, id: usize) -> KernelView {
    let a = lock_attributed(k, id);
    let s = lock_step(mutex_system(a, m), a.current.unwrap());
    after_sync(
        with_mutex_available(KernelView { tasks: s.tasks, ..a }, current_process(k), s.available),
        m.locked,
    )
}

/// The state of the kernel after the running task has called `unlock`
/// for slot `id` on the blocking mutex `m`.
pub open spec fn mutex_unlocked(k: KernelView, m: MutexView, id: usize) -> KernelView {
    let a = unlock_attributed(k, id);
    let s = unlock_step(mutex_system(a, m), a.current.unwrap());
    with_mutex_available(
        KernelView { tasks: s.tasks, ready: ready_after_wake(a.ready, next_woken(m)), ..a },
        current_process(k),
        s.available,
    )
}

/// The state of the kernel after the running task has called `down` for
/// slot `id` on the semaphore `m`.
pub open spec fn semaphore_downed(k: KernelView, m: SemaphoreView, id: usize) -> KernelView {
    let a = down_attributed(k, id);
    let s = down_step(semaphore_system(a, m), a.current.unwrap());
    after_sync(
        with_semaphore_available(KernelView { tasks: s.tasks, ..a }, current_process(k), s.available),
        m.count - 1 < 0,
    )
}

/// The state of the kernel after the running task has called `up` for
/// slot `id` on the semaphore `m`.
pub open spec fn semaphore_upped(k: KernelView, m: SemaphoreView, id: usize) -> KernelView {
    let a = up_attributed(k, id);
    let s = up_step(semaphore_system(a, m), a.current.unwrap());
    with_semaphore_available(
        KernelView { tasks: s.tasks, ready: ready_after_wake(a.ready, woken_by_up(m)), ..a },
        current_process(k),
        s.available,
    )
}

/// The running task locks the blocking mutex of slot `mutex_id`. If the
/// mutex is held the task is parked on it and the scheduler selects the
/// task to run next; the result says which of the two happened.
pub fn sys_mutex_lock(kernel: &mut Kernel, mutex: &mut MutexBlocking, mutex_id: usize) -> (r: LockOutcome)
    requires
        kernel_wf(old(kernel)@),
        old(kernel)@.current is Some,
        lock_enabled(
            mutex_system(lock_attributed(old(kernel)@, mutex_id), old(mutex)@),
            old(kernel)@.current.unwrap(),
        ),
        old(mutex)@.locked ==> can_charge(
            KernelView {
                current: None,
                tasks: lock_step(
                    mutex_system(lock_attributed(old(kernel)@, mutex_id), old(mutex)@),
                    old(kernel)@.current.unwrap(),
                ).tasks,
                ..old(kernel)@
            },
        ),
    ensures
        final(kernel)@ == mutex_locked(old(kernel)@, old(mutex)@, mutex_id),
        final(mutex)@ == lock_step(
            mutex_system(lock_attributed(old(kernel)@, mutex_id), old(mutex)@),
            old(kernel)@.current.unwrap(),
        ).mutex,
        r == (if old(mutex)@.locked {
            LockOutcome::Blocked
        } else {
            LockOutcome::Acquired
        }),
        kernel_wf(final(kernel)@),
{
    let ghost k = kernel@;
    let c: usize = kernel.current.unwrap();
    assert(k.tasks[c as int] == kernel.tasks@[c as int]@);
    assert(k.tasks[c as int].process < k.processes.len());
    let p: usize = kernel.tasks[c].process;
    assert(k.processes[p as int].1 == kernel.processes@[p as int].inner@);
    kernel.tasks[c].inner.set_mutex_id(mutex_id);
    let ghost a = lock_attributed(k, mutex_id);
    assert(kernel@.tasks =~= a.tasks);
    let outcome = mutex.lock(&mut kernel.tasks, c, &mut kernel.processes[p].inner);
    let ghost s = lock_step(mutex_system(a, old(mutex)@), c);
    let ghost k2 = with_mutex_available(KernelView { tasks: s.tasks, ..a }, p, s.available);
    proof {
        assert(kernel@.processes =~= k2.processes);
        assert(kernel@ == k2);
        lemma_tables_keep_wf(k, k2);
    }
    match outcome {
        LockOutcome::Blocked => {
            kernel.current = None;
            proof {
                lemma_tables_keep_wf(k, kernel@);
            }
            kernel.run_next();
        },
        _ => {},
    }
    outcome
}

/// The running task unlocks the blocking mutex of slot `mutex_id`: the
/// task that has waited longest, if any, gets the mutex and is made
/// ready. Returns 0.
pub fn sys_mutex_unlock(kernel: &mut Kernel, mutex: &mut MutexBlocking, mutex_id: usize) -> (r: isize)
    requires
        kernel_wf(old(kernel)@),
        old(kernel)@.current is Some,
        unlock_enabled(
            mutex_system(unlock_attributed(old(kernel)@, mutex_id), old(mutex)@),
            old(kernel)@.current.unwrap(),
        ),
    ensures
        r == 0,
        final(kernel)@ == mutex_unlocked(old(kernel)@, old(mutex)@, mutex_id),
        final(mutex)@ == unlock_step(
            mutex_system(unlock_attributed(old(kernel)@, mutex_id), old(mutex)@),
            old(kernel)@.current.unwrap(),
        ).mutex,
        kernel_wf(final(kernel)@),
{
    let ghost k = kernel@;
    let c: usize = kernel.current.unwrap();
    assert(k.tasks[c as int] == kernel.tasks@[c as int]@);
    assert(k.tasks[c as int].process < k.processes.len());
    let p: usize = kernel.tasks[c].process;
    assert(k.processes[p as int].1 == kernel.processes@[p as int].inner@);
    kernel.tasks[c].inner.set_unlock_mutex_id(mutex_id);
    let ghost a = unlock_attributed(k, mutex_id);
    assert(kernel@.tasks =~= a.tasks);
    mutex.unlock(&mut kernel.tasks, c, &mut kernel.processes[p].inner, &mut kernel.manager);
    proof {
        let k2 = mutex_unlocked(k, old(mutex)@, mutex_id);
        assert(kernel@.processes =~= k2.processes);
        assert(kernel@ == k2);
        lemma_tables_keep_wf(k, k2);
    }
    0
}

/// The running task takes an instance of the semaphore of slot `sem_id`.
/// If none is left the task is parked on the semaphore and the scheduler
/// selects the task to run next; the result says which of the two
/// happened.
pub fn sys_semaphore_down(kernel: &mut Kernel, semaphore: &mut Semaphore, sem_id: usize) -> (r: LockOutcome)
    requires
        kernel_wf(old(kernel)@),
        old(kernel)@.current is Some,
        down_enabled(
            semaphore_system(down_attributed(old(kernel)@, sem_id), old(semaphore)@),
            old(kernel)@.current.unwrap(),
        ),
        old(semaphore)@.count - 1 < 0 ==> can_charge(
            KernelView {
                current: None,
                tasks: down_step(
                    semaphore_system(down_attributed(old(kernel)@, sem_id), old(semaphore)@),
                    old(kernel)@.current.unwrap(),
                ).tasks,
                ..old(kernel)@
            },
        ),
    ensures
        final(kernel)@ == semaphore_downed(old(kernel)@, old(semaphore)@, sem_id),
        final(semaphore)@ == down_step(
            semaphore_system(down_attributed(old(kernel)@, sem_id), old(semaphore)@),
            old(kernel)@.current.unwrap(),
        ).semaphore,
        r == (if old(semaphore)@.count - 1 < 0 {
            LockOutcome::Blocked
        } else {
            LockOutcome::Acquired
        }),
        kernel_wf(final(kernel)@),
{
    let ghost k = kernel@;
    let c: usize = kernel.current.unwrap();
    assert(k.tasks[c as int] == kernel.tasks@[c as int]@);
    assert(k.tasks[c as int].process < k.processes.len());
    let p: usize = kernel.tasks[c].process;
    assert(k.processes[p as int].1 == kernel.processes@[p as int].inner@);
    kernel.tasks[c].inner.set_semaphore_id(sem_id);
    let ghost a = down_attributed(k, sem_id);
    assert(kernel@.tasks =~= a.tasks);
    let outcome = semaphore.down(&mut kernel.tasks, c, &mut kernel.processes[p].inner);
    let ghost s = down_step(semaphore_system(a, old(semaphore)@), c);
    let ghost k2 = with_semaphore_available(KernelView { tasks: s.tasks, ..a }, p, s.available);
    proof {
        assert(kernel@.processes =~= k2.processes);
        assert(kernel@ == k2);
        lemma_tables_keep_wf(k, k2);
    }
    match outcome {
        LockOutcome::Blocked => {
            kernel.current = None;
            proof {
                lemma_tables_keep_wf(k, kernel@);
            }
            kernel.run_next();
        },
        _ => {},
    }
    outcome
}

/// The running task gives back an instance of the semaphore of slot
/// `sem_id`: the task that has waited longest, if any, gets it and is made
/// ready. Returns 0.
pub fn sys_semaphore_up(kernel: &mut Kernel, semaphore: &mut Semaphore, sem_id: usize) -> (r: isize)
    requires
        kernel_wf(old(kernel)@),
        old(kernel)@.current is Some,
        up_enabled(
            semaphore_system(up_attributed(old(kernel)@, sem_id), old(semaphore)@),
            old(kernel)@.current.unwrap(),
        ),
    ensures
        r == 0,
        final(kernel)@ == semaphore_upped(old(kernel)@, old(semaphore)@, sem_id),
        final(semaphore)@ == up_step(
            semaphore_system(up_attributed(old(kernel)@, sem_id), old(semaphore)@),
            old(kernel)@.current.unwrap(),
        ).semaphore,
        kernel_wf(final(kernel)@),
{
    let ghost k = kernel@;
    let c: usize = kernel.current.unwrap();
    assert(k.tasks[c as int] == kernel.tasks@[c as int]@);
    assert(k.tasks[c as int].process < k.processes.len());
    let p: usize = kernel.tasks[c].process;
    assert(k.processes[p as int].1 == kernel.processes@[p as int].inner@);
    kernel.tasks[c].inner.set_up_semaphore_id(sem_id);
    let ghost a = up_attributed(k, sem_id);
    assert(kernel@.tasks =~= a.tasks);
    semaphore.up(&mut kernel.tasks, c, &mut kernel.processes[p].inner, &mut kernel.manager);
    proof {
        let k2 = semaphore_upped(k, old(semaphore)@, sem_id);
        assert(kernel@.processes =~= k2.processes);
        assert(kernel@ == k2);
        lemma_tables_keep_wf(k, k2);
    }
    0
}

/// Makes a blocking mutex in the least free slot of the table of a
/// process, with one instance available, and returns the slot. Returns -1
/// and changes nothing if the bookkeeping of the process has no such
/// slot.
pub fn sys_mutex_create(mutexes: &mut Vec<Option<MutexBlocking>>, process: &mut ProcessControlBlockInner) -> (r:
    isize)
    requires
        old(process).mutex_available_vec@.len() <= isize::MAX,
    ensures
        ({
            let id = first_free(old(mutexes)@, 0);
            if id < old(process).mutex_available_vec@.len() {
                &&& r == id
                &&& final(mutexes)@.len() == (if id == old(mutexes)@.len() {
                    id + 1
                } else {
                    old(mutexes)@.len() as int
                })
                &&& final(mutexes)@[id] is Some
                &&& final(mutexes)@[id].unwrap()@ == (MutexView { locked: false, wait_queue: Seq::empty() })
                &&& forall|i: int| 0 <= i < old(mutexes)@.len() && i != id ==> final(mutexes)@[i] == old(mutexes)@[i]
                &&& final(process)@ == (ProcessView {
                    mutex_available: old(process)@.mutex_available.update(id, 1),
                    ..old(process)@
                })
            } else {
                &&& r == -1
                &&& final(mutexes)@ == old(mutexes)@
                &&& final(process)@ == old(process)@
            }
        }),
{
    let id: usize = find_free(mutexes);
    if id >= process.mutex_available_vec.len() {
        return -1;
    }
    if id == mutexes.len() {
        mutexes.push(Some(MutexBlocking::new()));
    } else {
        mutexes[id] = Some(MutexBlocking::new());
    }
    process.mutex_available_vec[id] = 1;
    id as isize
}

/// Makes a semaphore of `res_count` instances in the least free slot of
/// the table of a process, with all of them available, and returns the
/// slot. Returns -1 and changes nothing if the bookkeeping of the process
/// has no such slot or the count does not fit the counter.
pub fn sys_semaphore_create(
    semaphores: &mut Vec<Option<Semaphore>>,
    process: &mut ProcessControlBlockInner,
    res_count: usize,
) -> (r: isize)
    requires
        old(process).semaphore_available_vec@.len() <= isize::MAX,
    ensures
        ({
            let id = first_free(old(semaphores)@, 0);
            if id < old(process).semaphore_available_vec@.len() && res_count <= isize::MAX {
                &&& r == id
                &&& final(semaphores)@.len() == (if id == old(semaphores)@.len() {
                    id + 1
                } else {
                    old(semaphores)@.len() as int
                })
                &&& final(semaphores)@[id] is Some
                &&& final(semaphores)@[id].unwrap()@ == (SemaphoreView {
                    count: res_count as isize,
                    wait_queue: Seq::empty(),
                })
                &&& forall|i: int|
                    0 <= i < old(semaphores)@.len() && i != id ==> final(semaphores)@[i] == old(
                        semaphores,
                    )@[i]
                &&& final(process)@ == (ProcessView {
                    semaphore_available: old(process)@.semaphore_available.update(id, res_count),
                    ..old(process)@
                })
            } else {
                &&& r == -1
                &&& final(semaphores)@ == old(semaphores)@
                &&& final(process)@ == old(process)@
            }
        }),
{
    let id: usize = find_free(semaphores);
    if id >= process.semaphore_available_vec.len() || res_count > isize::MAX as usize {
        return -1;
    }
    if id == semaphores.len() {
        semaphores.push(Some(Semaphore::new(res_count)));
    } else {
        semaphores[id] = Some(Semaphore::new(res_count));
    }
    process.semaphore_available_vec[id] = res_count;
    id as isize
}

/// A state whose task and process tables have the sizes of those of a
/// valid state, whose tasks belong to the same processes, whose processes
/// have the same ids and children, and whose handles name tasks, is valid.
pub proof fn lemma_tables_keep_wf(k: KernelView, k2: KernelView)
    requires
        kernel_wf(k),
        k2.tasks.len() == k.tasks.len(),
        k2.processes.len() == k.processes.len(),
        forall|t: int| 0 <= t < k.tasks.len() ==> (#[trigger] k2.tasks[t]).process == k.tasks[t].process,
        forall|p: int|
            0 <= p < k.processes.len() ==> (#[trigger] k2.processes[p]).1.children == k.processes[p].1.children
                && k2.processes[p].0 == k.processes[p].0,
        crate::manager::handles_valid(k2.ready, k2.tasks.len()),
        k2.current matches Some(c) ==> c < k2.tasks.len(),
    ensures
        kernel_wf(k2),
{
    assert forall|t: int| 0 <= t < k2.tasks.len() implies (#[trigger] k2.tasks[t]).process < k2.processes.len() by {
        assert(k.tasks[t].process < k.processes.len());
    }
    assert forall|p: int, i: int|
        0 <= p < k2.processes.len() && 0 <= i < k2.processes[p].1.children.len() implies (
    #[trigger] k2.processes[p].1.children[i]) < k2.processes.len() by {
        assert(k.processes[p].1.children[i] < k.processes.len());
    }
}

} // verus!
