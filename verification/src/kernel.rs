//! The state of the kernel as the system calls see it: the task table, the
//! process table, the scheduler and the running task.

use vstd::prelude::*;
use crate::manager::{charged, handles_valid, selection, TaskManager};
use crate::process::{process_views, ProcessControlBlock, ProcessView};
use crate::task::{task_views, TaskControlBlock, TaskStatus, TaskView};

verus! {

/// The tables of the kernel. A task handle is an index of `tasks`, a
/// process handle an index of `processes`.
pub struct Kernel {
    pub tasks: Vec<TaskControlBlock>,
    pub processes: Vec<ProcessControlBlock>,
    pub manager: TaskManager,
    /// The task that runs, if one does.
    pub current: Option<usize>,
}

/// The state of the kernel as plain values.
pub struct KernelView {
    pub tasks: Seq<TaskView>,
    pub processes: Seq<(usize, ProcessView)>,
    pub ready: Seq<usize>,
    pub current: Option<usize>,
}

impl View for Kernel {
    type V = KernelView;

    open spec fn view(&self) -> KernelView {
        KernelView {
            tasks: task_views(self.tasks@),
            processes: process_views(self.processes@),
            ready: self.manager@,
            current: self.current,
        }
    }
}

/// Every handle in the state names an entry of its table, and the id of
/// each process is its handle, so that no two processes share an id.
pub open spec fn kernel_wf(k: KernelView) -> bool {
    &&& handles_valid(k.ready, k.tasks.len())
    &&& forall|p: int| 0 <= p < k.processes.len() ==> (#[trigger] k.processes[p]).0 == p
    &&& k.current matches Some(c) ==> c < k.tasks.len()
    &&& forall|t: int| 0 <= t < k.tasks.len() ==> (#[trigger] k.tasks[t]).process < k.processes.len()
    &&& forall|p: int, i: int|
        0 <= p < k.processes.len() && 0 <= i < k.processes[p].1.children.len() ==> (
        #[trigger] k.processes[p].1.children[i]) < k.processes.len()
}

/// The process handle of the running task.
pub open spec fn current_process(k: KernelView) -> usize {
    k.tasks[k.current.unwrap() as int].process
}

/// The state after a selection by the scheduler: the task selected, if
/// any, is charged one stride, becomes Running and is the running task;
/// with an empty ready queue nothing runs.
pub open spec fn next_running(k: KernelView) -> KernelView {
    let chosen = selection(k.tasks, k.ready);
    match chosen.0 {
        Some(w) => KernelView {
            tasks: k.tasks.update(
                w as int,
                TaskView { status: TaskStatus::Running, ..charged(k.tasks[w as int]) },
            ),
            ready: chosen.1,
            current: Some(w),
            ..k
        },
        None => KernelView { current: None, ..k },
    }
}

/// Whether the task that a selection would pick can be charged its stride
/// without overflow of its pass.
pub open spec fn can_charge(k: KernelView) -> bool {
    selection(k.tasks, k.ready).0 matches Some(w) ==> isize::MIN <= k.tasks[w as int].pass
        + k.tasks[w as int].stride <= isize::MAX
}

/// The state after the running task has given up the processor of its own
/// accord: it is Ready and at the tail of the ready queue.
pub open spec fn suspended(k: KernelView) -> KernelView {
    let c = k.current.unwrap();
    KernelView {
        tasks: k.tasks.update(c as int, TaskView { status: TaskStatus::Ready, ..k.tasks[c as int] }),
        ready: k.ready.push(c),
        current: None,
        ..k
    }
}

impl Kernel {
    /// A kernel without tasks and processes.
    pub fn new() -> (r: Self)
        ensures
            r@ == (KernelView {
                tasks: Seq::empty(),
                processes: Seq::empty(),
                ready: Seq::empty(),
                current: None,
            }),
            kernel_wf(r@),
    {
        let r = Kernel {
            tasks: Vec::new(),
            processes: Vec::new(),
            manager: TaskManager::new(),
            current: None,
        };
        assert(r@.tasks =~= Seq::empty());
        assert(r@.processes =~= Seq::empty());
        r
    }

    /// Adds a process to the process table and returns its handle. The
    /// id of the process must be the next free handle.
    pub fn add_process(&mut self, process: ProcessControlBlock) -> (r: usize)
        requires
            kernel_wf(old(self)@),
            process.pid == old(self)@.processes.len(),
            forall|i: int| 0 <= i < process.inner.children@.len() ==> process.inner.children@[i] <= old(self)@.processes.len(),
        ensures
            r == old(self)@.processes.len(),
            final(self)@ == (KernelView {
                processes: old(self)@.processes.push((process.pid, process.inner@)),
                ..old(self)@
            }),
            kernel_wf(final(self)@),
    {
        let ghost before = self@;
        let n: usize = self.processes.len();
        self.processes.push(process);
        proof {
            assert(self@.processes =~= before.processes.push((process.pid, process.inner@)));
            assert forall|p: int, i: int|
                0 <= p < self@.processes.len() && 0 <= i < self@.processes[p].1.children.len() implies (
            #[trigger] self@.processes[p].1.children[i]) < self@.processes.len() by {
                if p < before.processes.len() {
                    assert(self@.processes[p] == before.processes[p]);
                    assert(before.processes[p].1.children[i] < before.processes.len());
                }
            }
        }
        n
    }

    /// Adds a task of an existing process to the task table and to the
    /// tail of the ready queue, and returns its handle.
    pub fn add_task(&mut self, task: TaskControlBlock) -> (r: usize)
        requires
            kernel_wf(old(self)@),
            task.process < old(self)@.processes.len(),
        ensures
            r == old(self)@.tasks.len(),
            final(self)@ == (KernelView {
                tasks: old(self)@.tasks.push(task@),
                ready: old(self)@.ready.push(r),
                ..old(self)@
            }),
            kernel_wf(final(self)@),
    {
        let ghost before = self@;
        let n: usize = self.tasks.len();
        self.tasks.push(task);
        self.manager.add(n);
        proof {
            assert(self@.tasks =~= before.tasks.push(task@));
            assert forall|t: int| 0 <= t < self@.tasks.len() implies (#[trigger] self@.tasks[t]).process
                < self@.processes.len() by {
                if t < before.tasks.len() {
                    assert(self@.tasks[t] == before.tasks[t]);
                }
            }
        }
        n
    }

    /// Lets the scheduler select the task to run next.
    pub fn run_next(&mut self) -> (r: Option<usize>)
        requires
            kernel_wf(old(self)@),
            can_charge(old(self)@),
        ensures
            final(self)@ == next_running(old(self)@),
            r == final(self)@.current,
            r is None <==> old(self)@.ready.len() == 0,
            kernel_wf(final(self)@),
    {
        let ghost before = self@;
        let next = self.manager.fetch(&mut self.tasks);
        match next {
            Some(w) => {
                let ghost views = task_views(self.tasks@);
                assert(views[w as int] == self.tasks@[w as int]@);
                self.tasks[w].inner.task_status = TaskStatus::Running;
                assert(task_views(self.tasks@) =~= views.update(
                    w as int,
                    (TaskView { status: TaskStatus::Running, ..views[w as int] }),
                ));
                assert(task_views(self.tasks@) =~= before.tasks.update(
                    w as int,
                    (TaskView { status: TaskStatus::Running, ..charged(before.tasks[w as int]) }),
                ));
            },
            None => {},
        }
        self.current = next;
        proof {
            assert forall|t: int| 0 <= t < self@.tasks.len() implies (#[trigger] self@.tasks[t]).process
                < self@.processes.len() by {
                assert(before.tasks[t].process < before.processes.len());
            }
        }
        next
    }

    /// The running task gives up the processor: it goes back to the tail
    /// of the ready queue and the scheduler selects the task to run next.
    pub fn suspend_current_and_run_next(&mut self) -> (r: Option<usize>)
        requires
            kernel_wf(old(self)@),
            old(self)@.current is Some,
            can_charge(suspended(old(self)@)),
        ensures
            final(self)@ == next_running(suspended(old(self)@)),
            r == final(self)@.current,
            r is Some,
            kernel_wf(final(self)@),
    {
        let ghost before = self@;
        let c: usize = self.current.unwrap();
        self.tasks[c].inner.task_status = TaskStatus::Ready;
        self.manager.add(c);
        self.current = None;
        proof {
            assert(self@.tasks =~= suspended(before).tasks);
            assert forall|t: int| 0 <= t < self@.tasks.len() implies (#[trigger] self@.tasks[t]).process
                < self@.processes.len() by {
                assert(before.tasks[t].process < before.processes.len());
            }
        }
        self.run_next()
    }
}

} // verus!
