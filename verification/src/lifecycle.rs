//! The ready queue holds exactly the tasks that are Ready, each once, and
//! the running task is Running: every step of the kernel keeps it so.

use vstd::prelude::*;
use crate::kernel::{kernel_wf, next_running, suspended, KernelView};
use crate::manager::selection;
use crate::mutex::{next_woken, MutexView};
use crate::process::ProcessView;
use crate::semaphore::{woken_by_up, SemaphoreView};
use crate::stride::lemma_selection_permutes;
use crate::sync_call::{mutex_locked, mutex_unlocked, semaphore_downed, semaphore_upped};
use crate::syscall::{exited, forked};
use crate::task::{TaskStatus, TaskView};

verus! {

/// No task is twice in the ready queue, every task in it is Ready, every
/// Ready task is in it, and the running task is Running.
pub open spec fn ready_exact(k: KernelView) -> bool {
    &&& k.ready.no_duplicates()
    &&& forall|i: int| 0 <= i < k.ready.len() ==> k.tasks[#[trigger] k.ready[i] as int].status == TaskStatus::Ready
    &&& forall|t: usize|
        t < k.tasks.len() && (#[trigger] k.tasks[t as int]).status == TaskStatus::Ready ==> k.ready.contains(t)
    &&& k.current matches Some(c) ==> k.tasks[c as int].status == TaskStatus::Running
}

/// A selection from a queue without duplicates leaves a queue without
/// duplicates that holds the same tasks but the one selected.
pub proof fn lemma_selection_keeps_distinct(tasks: Seq<TaskView>, queue: Seq<usize>)
    requires
        queue.len() > 0,
        queue.no_duplicates(),
    ensures
        selection(tasks, queue).0 is Some,
        queue.contains(selection(tasks, queue).0.unwrap()),
        selection(tasks, queue).1.no_duplicates(),
        !selection(tasks, queue).1.contains(selection(tasks, queue).0.unwrap()),
        forall|t: usize|
            t != selection(tasks, queue).0.unwrap() ==> (selection(tasks, queue).1.contains(t)
                <==> queue.contains(t)),
{
    broadcast use vstd::multiset::group_multiset_axioms;

    let w = selection(tasks, queue).0.unwrap();
    let rest = selection(tasks, queue).1;
    lemma_selection_permutes(tasks, queue);
    queue.lemma_multiset_has_no_duplicates();
    queue.to_multiset_ensures();
    rest.to_multiset_ensures();
    let qm = queue.to_multiset();
    let rm = rest.to_multiset();
    assert(rm.insert(w) =~= qm);
    assert forall|x: usize| rm.insert(w).count(x) == qm.count(x) by {}
    assert(rm.insert(w).count(w) == rm.count(w) + 1);
    assert(qm.count(w) >= 1);
    assert(qm.contains(w));
    assert(rm.count(w) == 0);
    assert forall|x: usize| rm.contains(x) implies rm.count(x) == 1 by {
        assert(rm.insert(w).count(x) == qm.count(x));
        if x != w {
            assert(rm.insert(w).count(x) == rm.count(x));
            assert(qm.contains(x));
        }
    }
    rest.lemma_multiset_has_no_duplicates_conv();
    assert forall|t: usize| t != w implies (rest.contains(t) <==> queue.contains(t)) by {
        assert(rm.insert(w).count(t) == rm.count(t));
        assert(rm.insert(w).count(t) == qm.count(t));
    }
}

/// A selection by the scheduler keeps the ready queue exact.
pub proof fn lemma_run_keeps_ready_exact(k: KernelView)
    requires
        kernel_wf(k),
        ready_exact(k),
        k.current is None,
    ensures
        ready_exact(next_running(k)),
{
    if k.ready.len() > 0 {
        let w = selection(k.tasks, k.ready).0.unwrap();
        let rest = selection(k.tasks, k.ready).1;
        lemma_selection_keeps_distinct(k.tasks, k.ready);
        let k2 = next_running(k);
        assert forall|i: int| 0 <= i < k2.ready.len() implies k2.tasks[#[trigger] k2.ready[i] as int].status
            == TaskStatus::Ready by {
            let t = rest[i];
            assert(rest.contains(t));
            assert(k.ready.contains(t));
            let j = choose|j: int| 0 <= j < k.ready.len() && k.ready[j] == t;
            assert(k.tasks[k.ready[j] as int].status == TaskStatus::Ready);
        }
        assert forall|t: usize|
            t < k2.tasks.len() && (#[trigger] k2.tasks[t as int]).status == TaskStatus::Ready implies k2.ready.contains(
            t,
        ) by {
            assert(t != w);
            assert(k.tasks[t as int].status == TaskStatus::Ready);
        }
    } else {
        crate::manager::lemma_selection_some(k.tasks, k.ready);
    }
}

/// A task that gives up the processor keeps the ready queue exact; then
/// nothing runs.
pub proof fn lemma_suspend_keeps_ready_exact(k: KernelView)
    requires
        kernel_wf(k),
        ready_exact(k),
        k.current is Some,
    ensures
        ready_exact(suspended(k)),
        kernel_wf(suspended(k)),
        suspended(k).current is None,
{
    let c = k.current.unwrap();
    let k2 = suspended(k);
    assert(!k.ready.contains(c)) by {
        if k.ready.contains(c) {
            let j = choose|j: int| 0 <= j < k.ready.len() && k.ready[j] == c;
            assert(k.tasks[k.ready[j] as int].status == TaskStatus::Ready);
        }
    }
    lemma_push_keeps_exact(k, k2, c);
}

/// Making one task Ready and putting it at the tail of the ready queue
/// keeps the queue exact, if the task was not Ready and does not run
/// afterwards, and nothing else changes a status, the queue or who runs.
pub proof fn lemma_push_keeps_exact(k: KernelView, k2: KernelView, t: usize)
    requires
        kernel_wf(k),
        ready_exact(k),
        t < k.tasks.len(),
        k.tasks[t as int].status != TaskStatus::Ready,
        k2.tasks.len() == k.tasks.len(),
        k2.processes.len() == k.processes.len(),
        k2.ready == k.ready.push(t),
        k2.tasks[t as int].status == TaskStatus::Ready,
        forall|u: int| 0 <= u < k.tasks.len() && u != t ==> (#[trigger] k2.tasks[u]).status == k.tasks[u].status,
        forall|u: int| 0 <= u < k.tasks.len() ==> (#[trigger] k2.tasks[u]).process == k.tasks[u].process,
        forall|p: int|
            0 <= p < k.processes.len() ==> (#[trigger] k2.processes[p]).1.children == k.processes[p].1.children
                && k2.processes[p].0 == k.processes[p].0,
        k2.current is None || (k2.current == k.current && k2.current != Some(t)),
    ensures
        ready_exact(k2),
        kernel_wf(k2),
{
    assert(!k.ready.contains(t)) by {
        if k.ready.contains(t) {
            let j = choose|j: int| 0 <= j < k.ready.len() && k.ready[j] == t;
            assert(k.tasks[k.ready[j] as int].status == TaskStatus::Ready);
        }
    }
    assert forall|i: int, j: int| 0 <= i < k2.ready.len() && 0 <= j < k2.ready.len() && i != j implies k2.ready[i]
        != k2.ready[j] by {
        if i < k.ready.len() {
            assert(k.ready.contains(k.ready[i]));
        }
        if j < k.ready.len() {
            assert(k.ready.contains(k.ready[j]));
        }
    }
    assert forall|i: int| 0 <= i < k2.ready.len() implies k2.tasks[#[trigger] k2.ready[i] as int].status
        == TaskStatus::Ready by {
        if i < k.ready.len() {
            assert(k.ready.contains(k.ready[i]));
            assert(k.tasks[k.ready[i] as int].status == TaskStatus::Ready);
        }
    }
    assert forall|u: usize|
        u < k2.tasks.len() && (#[trigger] k2.tasks[u as int]).status == TaskStatus::Ready implies k2.ready.contains(
        u,
    ) by {
        if u == t {
            assert(k2.ready[k.ready.len() as int] == t);
        } else {
            assert(k.tasks[u as int].status == TaskStatus::Ready);
            let j = choose|j: int| 0 <= j < k.ready.len() && k.ready[j] == u;
            assert(k2.ready[j] == u);
        }
    }
    assert(crate::manager::handles_valid(k2.ready, k2.tasks.len())) by {
        assert forall|i: int| 0 <= i < k2.ready.len() implies #[trigger] k2.ready[i] < k2.tasks.len() by {
            if i < k.ready.len() {
                assert(k.ready[i] < k.tasks.len());
            }
        }
    }
    crate::sync_call::lemma_tables_keep_wf(k, k2);
}

/// A change that leaves the queue alone, makes no task Ready and no Ready
/// task something else, and lets nothing run or the same task go on as
/// Running, keeps the ready queue exact.
pub proof fn lemma_quiet_keeps_exact(k: KernelView, k2: KernelView)
    requires
        kernel_wf(k),
        ready_exact(k),
        k2.tasks.len() == k.tasks.len(),
        k2.processes.len() == k.processes.len(),
        k2.ready == k.ready,
        forall|u: int|
            0 <= u < k.tasks.len() ==> ((#[trigger] k2.tasks[u]).status == TaskStatus::Ready <==> k.tasks[u].status
                == TaskStatus::Ready),
        forall|u: int| 0 <= u < k.tasks.len() ==> (#[trigger] k2.tasks[u]).process == k.tasks[u].process,
        forall|p: int|
            0 <= p < k.processes.len() ==> (#[trigger] k2.processes[p]).1.children == k.processes[p].1.children
                && k2.processes[p].0 == k.processes[p].0,
        k2.current matches Some(c) ==> c < k2.tasks.len() && k2.tasks[c as int].status == TaskStatus::Running,
    ensures
        ready_exact(k2),
        kernel_wf(k2),
{
    assert forall|i: int| 0 <= i < k2.ready.len() implies k2.tasks[#[trigger] k2.ready[i] as int].status
        == TaskStatus::Ready by {
        assert(k.tasks[k.ready[i] as int].status == TaskStatus::Ready);
    }
    assert forall|u: usize|
        u < k2.tasks.len() && (#[trigger] k2.tasks[u as int]).status == TaskStatus::Ready implies k2.ready.contains(
        u,
    ) by {
        assert(k.tasks[u as int].status == TaskStatus::Ready);
    }
    crate::sync_call::lemma_tables_keep_wf(k, k2);
}

/// The exit of the running task keeps the ready queue exact.
pub proof fn lemma_exit_keeps_ready_exact(k: KernelView, exit_code: i32)
    requires
        kernel_wf(k),
        ready_exact(k),
        k.current is Some,
    ensures
        ready_exact(exited(k, exit_code)),
{
    lemma_quiet_keeps_exact(k, exited(k, exit_code));
}

/// A `lock` on a blocking mutex keeps the ready queue exact, whether the
/// caller gets the mutex or is parked.
pub proof fn lemma_lock_keeps_ready_exact(k: KernelView, m: MutexView, id: usize)
    requires
        kernel_wf(k),
        ready_exact(k),
        k.current is Some,
    ensures
        ready_exact(mutex_locked(k, m, id)),
{
    let a = crate::sync_call::lock_attributed(k, id);
    let s = crate::mutex::lock_step(crate::sync_call::mutex_system(a, m), a.current.unwrap());
    let k2 = crate::sync_call::with_mutex_available(
        KernelView { tasks: s.tasks, ..a },
        crate::kernel::current_process(k),
        s.available,
    );
    if m.locked {
        let k3 = KernelView { current: None, ..k2 };
        lemma_quiet_keeps_exact(k, k3);
        lemma_run_keeps_ready_exact(k3);
    } else {
        lemma_quiet_keeps_exact(k, k2);
    }
}

/// An `unlock` of a blocking mutex keeps the ready queue exact, if the
/// task to be woken is Blocked and is not the caller.
pub proof fn lemma_unlock_keeps_ready_exact(k: KernelView, m: MutexView, id: usize)
    requires
        kernel_wf(k),
        ready_exact(k),
        k.current is Some,
        next_woken(m) matches Some(w) ==> w < k.tasks.len() && Some(w) != k.current && k.tasks[w as int].status
            == TaskStatus::Blocked,
    ensures
        ready_exact(mutex_unlocked(k, m, id)),
{
    let k2 = mutex_unlocked(k, m, id);
    match next_woken(m) {
        Some(w) => {
            lemma_push_keeps_exact(k, k2, w);
        },
        None => {
            lemma_quiet_keeps_exact(k, k2);
        },
    }
}

/// A `down` on a semaphore keeps the ready queue exact, whether the caller
/// gets an instance or is parked.
pub proof fn lemma_down_keeps_ready_exact(k: KernelView, m: SemaphoreView, id: usize)
    requires
        kernel_wf(k),
        ready_exact(k),
        k.current is Some,
    ensures
        ready_exact(semaphore_downed(k, m, id)),
{
    let a = crate::sync_call::down_attributed(k, id);
    let s = crate::semaphore::down_step(crate::sync_call::semaphore_system(a, m), a.current.unwrap());
    let k2 = crate::sync_call::with_semaphore_available(
        KernelView { tasks: s.tasks, ..a },
        crate::kernel::current_process(k),
        s.available,
    );
    if m.count - 1 < 0 {
        let k3 = KernelView { current: None, ..k2 };
        lemma_quiet_keeps_exact(k, k3);
        lemma_run_keeps_ready_exact(k3);
    } else {
        lemma_quiet_keeps_exact(k, k2);
    }
}

/// An `up` on a semaphore keeps the ready queue exact, if the task to be
/// woken is Blocked and is not the caller.
pub proof fn lemma_up_keeps_ready_exact(k: KernelView, m: SemaphoreView, id: usize)
    requires
        kernel_wf(k),
        ready_exact(k),
        k.current is Some,
        woken_by_up(m) matches Some(w) ==> w < k.tasks.len() && Some(w) != k.current && k.tasks[w as int].status
            == TaskStatus::Blocked,
    ensures
        ready_exact(semaphore_upped(k, m, id)),
{
    let k2 = semaphore_upped(k, m, id);
    match woken_by_up(m) {
        Some(w) => {
            lemma_push_keeps_exact(k, k2, w);
        },
        None => {
            lemma_quiet_keeps_exact(k, k2);
        },
    }
}

/// A fork keeps the ready queue exact: the new task is Ready and at the
/// tail of the queue.
pub proof fn lemma_fork_keeps_ready_exact(k: KernelView, child: ProcessView, task: TaskView)
    requires
        kernel_wf(k),
        ready_exact(k),
        k.current is Some,
        task.status == TaskStatus::Ready,
        k.tasks.len() <= usize::MAX,
    ensures
        ready_exact(forked(k, child, task)),
{
    let k2 = forked(k, child, task);
    let t = k.tasks.len() as usize;
    assert forall|i: int, j: int| 0 <= i < k2.ready.len() && 0 <= j < k2.ready.len() && i != j implies k2.ready[i]
        != k2.ready[j] by {
        if i < k.ready.len() {
            assert(k.ready[i] < k.tasks.len());
        }
        if j < k.ready.len() {
            assert(k.ready[j] < k.tasks.len());
        }
    }
    assert forall|i: int| 0 <= i < k2.ready.len() implies k2.tasks[#[trigger] k2.ready[i] as int].status
        == TaskStatus::Ready by {
        if i < k.ready.len() {
            assert(k.ready[i] < k.tasks.len());
            assert(k.tasks[k.ready[i] as int].status == TaskStatus::Ready);
        }
    }
    assert forall|u: usize|
        u < k2.tasks.len() && (#[trigger] k2.tasks[u as int]).status == TaskStatus::Ready implies k2.ready.contains(
        u,
    ) by {
        if u == t {
            assert(k2.ready[k.ready.len() as int] == t);
        } else {
            assert(k.tasks[u as int].status == TaskStatus::Ready);
            let j = choose|j: int| 0 <= j < k.ready.len() && k.ready[j] == u;
            assert(k2.ready[j] == u);
        }
    }
}

/// Every task on a wait queue is Blocked, is there once, and does not
/// run.
pub open spec fn parked(k: KernelView, wait_queue: Seq<usize>) -> bool {
    &&& wait_queue.no_duplicates()
    &&& forall|i: int|
        0 <= i < wait_queue.len() ==> (#[trigger] wait_queue[i]) < k.tasks.len() && k.tasks[wait_queue[i] as int].status
            == TaskStatus::Blocked && k.current != Some(wait_queue[i])
}

/// A `lock` keeps the tasks on the wait queue of the mutex parked: the
/// caller, if it has to wait, joins them as a Blocked task that does not
/// run.
pub proof fn lemma_lock_keeps_parked(k: KernelView, m: MutexView, id: usize)
    requires
        kernel_wf(k),
        ready_exact(k),
        k.current is Some,
        parked(k, m.wait_queue),
    ensures
        parked(
            mutex_locked(k, m, id),
            crate::mutex::lock_step(
                crate::sync_call::mutex_system(crate::sync_call::lock_attributed(k, id), m),
                k.current.unwrap(),
            ).mutex.wait_queue,
        ),
{
    let c = k.current.unwrap();
    let a = crate::sync_call::lock_attributed(k, id);
    let s = crate::mutex::lock_step(crate::sync_call::mutex_system(a, m), c);
    let k2 = crate::sync_call::with_mutex_available(
        KernelView { tasks: s.tasks, ..a },
        crate::kernel::current_process(k),
        s.available,
    );
    let q2 = s.mutex.wait_queue;
    let after = mutex_locked(k, m, id);
    if m.locked {
        let k3 = KernelView { current: None, ..k2 };
        lemma_quiet_keeps_exact(k, k3);
        lemma_joins_parked(k, k3, m.wait_queue, c);
        lemma_run_keeps_parked(k3, q2);
    } else {
        assert forall|i: int| 0 <= i < q2.len() implies (#[trigger] q2[i]) < after.tasks.len() && after.tasks[q2[i] as int].status
            == TaskStatus::Blocked && after.current != Some(q2[i]) by {
            assert(m.wait_queue[i] < k.tasks.len());
        }
    }
}

/// A task that stops running as a Blocked task and joins a wait queue of
/// parked tasks leaves a wait queue of parked tasks.
pub proof fn lemma_joins_parked(k: KernelView, k2: KernelView, wait_queue: Seq<usize>, c: usize)
    requires
        parked(k, wait_queue),
        k.current == Some(c),
        c < k.tasks.len(),
        k.tasks[c as int].status == TaskStatus::Running,
        k2.current is None,
        k2.tasks.len() == k.tasks.len(),
        k2.tasks[c as int].status == TaskStatus::Blocked,
        forall|u: int| 0 <= u < k.tasks.len() && u != c ==> (#[trigger] k2.tasks[u]).status == k.tasks[u].status,
    ensures
        parked(k2, wait_queue.push(c)),
{
    let q2 = wait_queue.push(c);
    assert forall|i: int, j: int| 0 <= i < q2.len() && 0 <= j < q2.len() && i != j implies q2[i] != q2[j] by {
        if i < wait_queue.len() {
            assert(k.current != Some(wait_queue[i]));
        }
        if j < wait_queue.len() {
            assert(k.current != Some(wait_queue[j]));
        }
    }
    assert forall|i: int| 0 <= i < q2.len() implies (#[trigger] q2[i]) < k2.tasks.len() && k2.tasks[q2[i] as int].status
        == TaskStatus::Blocked && k2.current != Some(q2[i]) by {
        if i < wait_queue.len() {
            assert(wait_queue[i] < k.tasks.len());
        }
    }
}

/// A selection by the scheduler keeps parked tasks parked: it picks a
/// Ready task.
pub proof fn lemma_run_keeps_parked(k: KernelView, wait_queue: Seq<usize>)
    requires
        kernel_wf(k),
        ready_exact(k),
        k.current is None,
        parked(k, wait_queue),
    ensures
        parked(next_running(k), wait_queue),
{
    let k2 = next_running(k);
    if k.ready.len() > 0 {
        lemma_selection_keeps_distinct(k.tasks, k.ready);
        let w = selection(k.tasks, k.ready).0.unwrap();
        let j = choose|j: int| 0 <= j < k.ready.len() && k.ready[j] == w;
        assert(k.tasks[k.ready[j] as int].status == TaskStatus::Ready);
        assert forall|i: int| 0 <= i < wait_queue.len() implies (#[trigger] wait_queue[i]) < k2.tasks.len()
            && k2.tasks[wait_queue[i] as int].status == TaskStatus::Blocked && k2.current != Some(
            wait_queue[i],
        ) by {
            assert(wait_queue[i] < k.tasks.len());
        }
    } else {
        crate::manager::lemma_selection_some(k.tasks, k.ready);
        assert forall|i: int| 0 <= i < wait_queue.len() implies (#[trigger] wait_queue[i]) < k2.tasks.len()
            && k2.tasks[wait_queue[i] as int].status == TaskStatus::Blocked && k2.current != Some(
            wait_queue[i],
        ) by {
            assert(wait_queue[i] < k.tasks.len());
        }
    }
}

/// An `unlock` keeps the ready queue exact and the tasks left on the wait
/// queue of the mutex parked.
pub proof fn lemma_unlock_keeps_parked(k: KernelView, m: MutexView, id: usize)
    requires
        kernel_wf(k),
        ready_exact(k),
        k.current is Some,
        parked(k, m.wait_queue),
    ensures
        ready_exact(mutex_unlocked(k, m, id)),
        parked(
            mutex_unlocked(k, m, id),
            crate::mutex::unlock_step(
                crate::sync_call::mutex_system(crate::sync_call::unlock_attributed(k, id), m),
                k.current.unwrap(),
            ).mutex.wait_queue,
        ),
{
    let after = mutex_unlocked(k, m, id);
    lemma_unlock_keeps_ready_exact(k, m, id);
    if m.wait_queue.len() > 0 {
        let q2 = m.wait_queue.drop_first();
        assert forall|i: int| 0 <= i < q2.len() implies (#[trigger] q2[i]) < after.tasks.len() && after.tasks[q2[i] as int].status
            == TaskStatus::Blocked && after.current != Some(q2[i]) by {
            assert(q2[i] == m.wait_queue[i + 1]);
            assert(m.wait_queue[i + 1] < k.tasks.len());
            assert(m.wait_queue[i + 1] != m.wait_queue[0]);
        }
        assert forall|i: int, j: int| 0 <= i < q2.len() && 0 <= j < q2.len() && i != j implies q2[i] != q2[j] by {
            assert(q2[i] == m.wait_queue[i + 1]);
            assert(q2[j] == m.wait_queue[j + 1]);
        }
    } else {
        assert forall|i: int| 0 <= i < m.wait_queue.len() implies (#[trigger] m.wait_queue[i]) < after.tasks.len()
            && after.tasks[m.wait_queue[i] as int].status == TaskStatus::Blocked && after.current != Some(
            m.wait_queue[i],
        ) by {}
    }
}

/// A `down` keeps the tasks on the wait queue of the semaphore parked:
/// the caller, if it has to wait, joins them as a Blocked task that does
/// not run.
pub proof fn lemma_down_keeps_parked(k: KernelView, m: SemaphoreView, id: usize)
    requires
        kernel_wf(k),
        ready_exact(k),
        k.current is Some,
        parked(k, m.wait_queue),
        m.count > isize::MIN,
    ensures
        parked(
            semaphore_downed(k, m, id),
            crate::semaphore::down_step(
                crate::sync_call::semaphore_system(crate::sync_call::down_attributed(k, id), m),
                k.current.unwrap(),
            ).semaphore.wait_queue,
        ),
{
    let c = k.current.unwrap();
    let a = crate::sync_call::down_attributed(k, id);
    let s = crate::semaphore::down_step(crate::sync_call::semaphore_system(a, m), c);
    let k2 = crate::sync_call::with_semaphore_available(
        KernelView { tasks: s.tasks, ..a },
        crate::kernel::current_process(k),
        s.available,
    );
    let q2 = s.semaphore.wait_queue;
    let after = semaphore_downed(k, m, id);
    if m.count - 1 < 0 {
        let k3 = KernelView { current: None, ..k2 };
        lemma_quiet_keeps_exact(k, k3);
        lemma_joins_parked(k, k3, m.wait_queue, c);
        lemma_run_keeps_parked(k3, q2);
    } else {
        assert forall|i: int| 0 <= i < q2.len() implies (#[trigger] q2[i]) < after.tasks.len() && after.tasks[q2[i] as int].status
            == TaskStatus::Blocked && after.current != Some(q2[i]) by {
            assert(m.wait_queue[i] < k.tasks.len());
        }
    }
}

/// An `up` keeps the ready queue exact and the tasks left on the wait
/// queue of the semaphore parked.
pub proof fn lemma_up_keeps_parked(k: KernelView, m: SemaphoreView, id: usize)
    requires
        kernel_wf(k),
        ready_exact(k),
        k.current is Some,
        parked(k, m.wait_queue),
    ensures
        ready_exact(semaphore_upped(k, m, id)),
        parked(
            semaphore_upped(k, m, id),
            crate::semaphore::up_step(
                crate::sync_call::semaphore_system(crate::sync_call::up_attributed(k, id), m),
                k.current.unwrap(),
            ).semaphore.wait_queue,
        ),
{
    let after = semaphore_upped(k, m, id);
    lemma_up_keeps_ready_exact(k, m, id);
    if woken_by_up(m) is Some {
        let q2 = m.wait_queue.drop_first();
        assert forall|i: int| 0 <= i < q2.len() implies (#[trigger] q2[i]) < after.tasks.len() && after.tasks[q2[i] as int].status
            == TaskStatus::Blocked && after.current != Some(q2[i]) by {
            assert(q2[i] == m.wait_queue[i + 1]);
            assert(m.wait_queue[i + 1] < k.tasks.len());
            assert(m.wait_queue[i + 1] != m.wait_queue[0]);
        }
        assert forall|i: int, j: int| 0 <= i < q2.len() && 0 <= j < q2.len() && i != j implies q2[i] != q2[j] by {
            assert(q2[i] == m.wait_queue[i + 1]);
            assert(q2[j] == m.wait_queue[j + 1]);
        }
    } else {
        assert forall|i: int| 0 <= i < m.wait_queue.len() implies (#[trigger] m.wait_queue[i]) < after.tasks.len()
            && after.tasks[m.wait_queue[i] as int].status == TaskStatus::Blocked && after.current != Some(
            m.wait_queue[i],
        ) by {}
    }
}

} // verus!
