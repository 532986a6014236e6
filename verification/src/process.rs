//! The part of a process that the synchronisation primitives and the
//! system calls read and change.

use vstd::prelude::*;
use crate::config::RESOURCE_SLOTS;

verus! {

/// The mutable state of a process.
pub struct ProcessControlBlockInner {
    /// Whether the process has exited and waits to be collected.
    pub is_zombie: bool,
    /// The exit code, meaningful once the process is a zombie.
    pub exit_code: i32,
    /// The token of the address space of the process.
    pub token: u64,
    /// The ids of the children of the process.
    pub children: Vec<usize>,
    /// Per mutex slot, how many instances are available.
    pub mutex_available_vec: Vec<usize>,
    /// Per semaphore slot, how many instances are available.
    pub semaphore_available_vec: Vec<usize>,
}

/// A process: its id and its mutable state.
pub struct ProcessControlBlock {
    pub pid: usize,
    pub inner: ProcessControlBlockInner,
}

/// The state of a process as plain values.
pub struct ProcessView {
    pub is_zombie: bool,
    pub exit_code: i32,
    pub token: u64,
    pub children: Seq<usize>,
    pub mutex_available: Seq<usize>,
    pub semaphore_available: Seq<usize>,
}

impl View for ProcessControlBlockInner {
    type V = ProcessView;

    open spec fn view(&self) -> ProcessView {
        ProcessView {
            is_zombie: self.is_zombie,
            exit_code: self.exit_code,
            token: self.token,
            children: self.children@,
            mutex_available: self.mutex_available_vec@,
            semaphore_available: self.semaphore_available_vec@,
        }
    }
}

/// The process table as plain values: for each process its id and state.
pub open spec fn process_views(ps: Seq<ProcessControlBlock>) -> Seq<(usize, ProcessView)> {
    ps.map_values(|p: ProcessControlBlock| (p.pid, p.inner@))
}

impl ProcessControlBlock {
    /// The state of a new process with address space `token`: alive,
    /// without children, and with no instance in any resource slot.
    pub open spec fn spec_new(token: u64) -> ProcessView {
        ProcessView {
            is_zombie: false,
            exit_code: 0,
            token,
            children: Seq::empty(),
            mutex_available: Seq::new(RESOURCE_SLOTS as nat, |i: int| 0usize),
            semaphore_available: Seq::new(RESOURCE_SLOTS as nat, |i: int| 0usize),
        }
    }

    /// A live process without children whose resource slots all hold no
    /// instance.
    pub fn new(pid: usize, token: u64) -> (r: Self)
        ensures
            r.pid == pid,
            r.inner@ == Self::spec_new(token),
    {
        let mut mutexes: Vec<usize> = Vec::new();
        let mut semaphores: Vec<usize> = Vec::new();
        let mut i: usize = 0;
        while i < RESOURCE_SLOTS
            invariant
                i <= RESOURCE_SLOTS,
                mutexes@.len() == i,
                semaphores@.len() == i,
                forall|k: int| 0 <= k < i ==> mutexes@[k] == 0 && semaphores@[k] == 0,
            decreases RESOURCE_SLOTS - i,
        {
            mutexes.push(0);
            semaphores.push(0);
            i = i + 1;
        }
        assert(mutexes@ =~= Seq::new(RESOURCE_SLOTS as nat, |i: int| 0usize));
        assert(semaphores@ =~= Seq::new(RESOURCE_SLOTS as nat, |i: int| 0usize));
        ProcessControlBlock {
            pid,
            inner: ProcessControlBlockInner {
                is_zombie: false,
                exit_code: 0,
                token,
                children: Vec::new(),
                mutex_available_vec: mutexes,
                semaphore_available_vec: semaphores,
            },
        }
    }

    /// The id of the process.
    pub fn getpid(&self) -> (r: usize)
        ensures
            r == self.pid,
    {
        self.pid
    }
}

} // verus!
