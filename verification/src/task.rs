//! The task control block: what the kernel keeps for each schedulable
//! thread, including the bookkeeping of the mutexes and semaphores that the
//! thread holds or waits for.

use vstd::prelude::*;
use crate::address::PhysPageNum;
use crate::config::{BIG_STRIDE, RESOURCE_SLOTS};

verus! {

/// The priority a task starts with.
pub const DEFAULT_PRIORITY: isize = 16;

/// The execution status of a task.
#[derive(Copy, Clone, Debug, PartialEq, Eq, Structural)]
pub enum TaskStatus {
    /// Waiting in the ready queue.
    Ready,
    /// Selected for execution.
    Running,
    /// Parked on the wait queue of a mutex or semaphore.
    Blocked,
}

/// The kernel stack of a task, named by its slot number.
#[derive(Copy, Clone, Debug, PartialEq, Eq, Structural)]
pub struct KernelStack(pub usize);

/// The user-side resources of a task: its thread id and the base of its
/// user stack.
#[derive(Copy, Clone, Debug, PartialEq, Eq, Structural)]
pub struct TaskUserRes {
    pub tid: usize,
    pub ustack_base: usize,
}

/// The mutable part of a task control block.
pub struct TaskControlBlockInner {
    pub res: Option<TaskUserRes>,
    /// The frame that holds the trap context.
    pub trap_cx_ppn: PhysPageNum,
    pub task_status: TaskStatus,
    /// Set when the task has exited.
    pub exit_code: Option<i32>,
    /// Virtual time consumed so far.
    pub pass: isize,
    /// Virtual time added at each selection.
    pub stride: isize,
    /// Per slot, how many instances of the mutex the task holds.
    pub alloc_vec_mutex: Vec<usize>,
    /// Per slot, how many instances of the mutex the task waits for.
    pub need_vec_mutex: Vec<usize>,
    /// The slot that the next `lock` concerns.
    pub mutex_id: usize,
    /// The slot that the next `unlock` concerns.
    pub unlock_mutex_id: usize,
    /// Per slot, how many instances of the semaphore the task holds.
    pub alloc_vec_semaphore: Vec<usize>,
    /// Per slot, how many instances of the semaphore the task waits for.
    pub need_vec_semaphore: Vec<usize>,
    /// The slot that the next `down` concerns.
    pub semaphore_id: usize,
    /// The slot that the next `up` concerns.
    pub unlock_semaphore_id: usize,
}

/// A task control block. `process` names the owning process without
/// keeping it alive.
pub struct TaskControlBlock {
    pub process: usize,
    pub kstack: KernelStack,
    pub inner: TaskControlBlockInner,
}

/// A task control block as plain values.
pub struct TaskView {
    pub process: usize,
    pub kstack: KernelStack,
    pub res: Option<TaskUserRes>,
    pub trap_cx_ppn: PhysPageNum,
    pub status: TaskStatus,
    pub exit_code: Option<i32>,
    pub pass: isize,
    pub stride: isize,
    pub held_mutex: Seq<usize>,
    pub awaited_mutex: Seq<usize>,
    pub mutex_id: usize,
    pub unlock_mutex_id: usize,
    pub held_semaphore: Seq<usize>,
    pub awaited_semaphore: Seq<usize>,
    pub semaphore_id: usize,
    pub unlock_semaphore_id: usize,
}

impl View for TaskControlBlock {
    type V = TaskView;

    open spec fn view(&self) -> TaskView {
        TaskView {
            process: self.process,
            kstack: self.kstack,
            res: self.inner.res,
            trap_cx_ppn: self.inner.trap_cx_ppn,
            status: self.inner.task_status,
            exit_code: self.inner.exit_code,
            pass: self.inner.pass,
            stride: self.inner.stride,
            held_mutex: self.inner.alloc_vec_mutex@,
            awaited_mutex: self.inner.need_vec_mutex@,
            mutex_id: self.inner.mutex_id,
            unlock_mutex_id: self.inner.unlock_mutex_id,
            held_semaphore: self.inner.alloc_vec_semaphore@,
            awaited_semaphore: self.inner.need_vec_semaphore@,
            semaphore_id: self.inner.semaphore_id,
            unlock_semaphore_id: self.inner.unlock_semaphore_id,
        }
    }
}

/// The task table as plain values.
pub open spec fn task_views(tasks: Seq<TaskControlBlock>) -> Seq<TaskView> {
    tasks.map_values(|t: TaskControlBlock| t@)
}

/// A vector of `RESOURCE_SLOTS` zeros.
fn zeroed_slots() -> (r: Vec<usize>)
    ensures
        r@ == Seq::new(RESOURCE_SLOTS as nat, |i: int| 0usize),
{
    let mut v: Vec<usize> = Vec::new();
    let mut i: usize = 0;
    while i < RESOURCE_SLOTS
        invariant
            i <= RESOURCE_SLOTS,
            v@.len() == i,
            forall|k: int| 0 <= k < i ==> v@[k] == 0,
        decreases RESOURCE_SLOTS - i,
    {
        v.push(0);
        i = i + 1;
    }
    assert(v@ =~= Seq::new(RESOURCE_SLOTS as nat, |i: int| 0usize));
    v
}

impl TaskControlBlockInner {
    /// Records the slot that the next `lock` concerns.
    pub fn set_mutex_id(&mut self, mutex_id: usize)
        ensures
            *final(self) == (TaskControlBlockInner { mutex_id, ..*old(self) }),
    {
        self.mutex_id = mutex_id;
    }

    /// Records the slot that the next `unlock` concerns.
    pub fn set_unlock_mutex_id(&mut self, unlock_mutex_id: usize)
        ensures
            *final(self) == (TaskControlBlockInner { unlock_mutex_id, ..*old(self) }),
    {
        self.unlock_mutex_id = unlock_mutex_id;
    }

    /// Records the slot that the next `down` concerns.
    pub fn set_semaphore_id(&mut self, semaphore_id: usize)
        ensures
            *final(self) == (TaskControlBlockInner { semaphore_id, ..*old(self) }),
    {
        self.semaphore_id = semaphore_id;
    }

    /// Records the slot that the next `up` concerns.
    pub fn set_up_semaphore_id(&mut self, unlock_semaphore_id: usize)
        ensures
            *final(self) == (TaskControlBlockInner { unlock_semaphore_id, ..*old(self) }),
    {
        self.unlock_semaphore_id = unlock_semaphore_id;
    }

    /// The frame in which the trap context of the task lies.
    pub fn get_trap_cx(&self) -> (r: PhysPageNum)
        ensures
            r == self.trap_cx_ppn,
    {
        self.trap_cx_ppn
    }

    /// The execution status of the task.
    pub fn get_status(&self) -> (r: TaskStatus)
        ensures
            r == self.task_status,
    {
        self.task_status
    }
}

impl TaskControlBlock {
    /// A new task of process `process`: Ready, without exit code, with no
    /// virtual time consumed, the stride of the default priority, and
    /// zeroed resource vectors of `RESOURCE_SLOTS` slots each.
    pub open spec fn spec_new(
        process: usize,
        res: TaskUserRes,
        trap_cx_ppn: PhysPageNum,
        kstack: KernelStack,
    ) -> TaskView {
        TaskView {
            process,
            kstack,
            res: Some(res),
            trap_cx_ppn,
            status: TaskStatus::Ready,
            exit_code: None,
            pass: 0,
            stride: (BIG_STRIDE / DEFAULT_PRIORITY) as isize,
            held_mutex: Seq::new(RESOURCE_SLOTS as nat, |i: int| 0usize),
            awaited_mutex: Seq::new(RESOURCE_SLOTS as nat, |i: int| 0usize),
            mutex_id: 0,
            unlock_mutex_id: 0,
            held_semaphore: Seq::new(RESOURCE_SLOTS as nat, |i: int| 0usize),
            awaited_semaphore: Seq::new(RESOURCE_SLOTS as nat, |i: int| 0usize),
            semaphore_id: 0,
            unlock_semaphore_id: 0,
        }
    }

    /// Creates a task of process `process` in its initial state.
    pub fn new(process: usize, res: TaskUserRes, trap_cx_ppn: PhysPageNum, kstack: KernelStack) -> (r:
        Self)
        ensures
            r@ == Self::spec_new(process, res, trap_cx_ppn, kstack),
    {
        TaskControlBlock {
            process,
            kstack,
            inner: TaskControlBlockInner {
                res: Some(res),
                trap_cx_ppn,
                task_status: TaskStatus::Ready,
                exit_code: None,
                pass: 0,
                stride: BIG_STRIDE / DEFAULT_PRIORITY,
                alloc_vec_mutex: zeroed_slots(),
                need_vec_mutex: zeroed_slots(),
                mutex_id: 0,
                unlock_mutex_id: 0,
                alloc_vec_semaphore: zeroed_slots(),
                need_vec_semaphore: zeroed_slots(),
                semaphore_id: 0,
                unlock_semaphore_id: 0,
            },
        }
    }

    /// The thread id of the task. The task must still have its user
    /// resources.
    pub fn get_tid(&self) -> (r: usize)
        requires
            self.inner.res is Some,
        ensures
            r == self.inner.res.unwrap().tid,
    {
        match &self.inner.res {
            Some(res) => res.tid,
            None => 0,
        }
    }

    /// Exclusive access to the mutable part of the task.
    pub fn inner_exclusive_access(&mut self) -> (r: &mut TaskControlBlockInner)
        ensures
            *r == old(self).inner,
            *final(self) == (TaskControlBlock { inner: *final(r), ..*old(self) }),
    {
        &mut self.inner
    }
}

} // verus!
