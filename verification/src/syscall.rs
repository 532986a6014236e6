//! The system calls for process control, scheduling and time.

use vstd::prelude::*;
use vstd::bytes::{spec_u32_to_le_bytes, spec_u64_to_le_bytes, u32_to_le_bytes, u64_to_le_bytes};
use crate::address::PhysPageNum;
use crate::config::{BIG_STRIDE, MAX_SYSCALL_NUM, MIN_PRIORITY};
use crate::frame::PhysMemory;
use crate::kernel::{can_charge, current_process, kernel_wf, next_running, suspended, Kernel, KernelView};
use crate::page_table::{table_wf, token_root};
use crate::process::{ProcessControlBlock, ProcessView};
use crate::task::{KernelStack, TaskControlBlock, TaskStatus, TaskUserRes, TaskView};
use crate::user_memory::{
    byte_ranges,
    task_info_bytes,
    time_bytes,
    translated_byte_buffer,
    translated_taskinfo,
    translated_timeinfo,
    PhysRange,
    UserWrite,
    TASK_INFO_SIZE,
    TIME_VAL_SIZE,
};

verus! {

/// The result of a system call that stores into the memory of the caller:
/// the value returned to the caller, and the store to be carried out.
pub struct SyscallWrite {
    pub result: isize,
    pub write: Option<UserWrite>,
}

/// A time value as a user program sees it.
#[derive(Clone, Copy, Debug, PartialEq, Eq, Structural)]
pub struct TimeVal {
    pub sec: usize,
    pub usec: usize,
}

/// A snapshot of a task as a user program sees it.
pub struct TaskInfo {
    /// The status of the task.
    pub status: TaskStatus,
    /// How often the task has made each system call.
    pub syscall_times: Vec<u32>,
    /// The running time of the task in milliseconds.
    pub time: usize,
}

impl TimeVal {
    /// The time value of `us` microseconds.
    pub fn from_us(us: usize) -> (r: Self)
        ensures
            r.sec == us / 1_000_000,
            r.usec == us % 1_000_000,
    {
        TimeVal { sec: us / 1_000_000, usec: us % 1_000_000 }
    }
}

impl TaskControlBlock {
    /// The token of the address space of the process that owns the task.
    pub fn get_user_token(&self, processes: &Vec<ProcessControlBlock>) -> (r: u64)
        requires
            self.process < processes@.len(),
        ensures
            r == processes@[self.process as int].inner.token,
    {
        processes[self.process].inner.token
    }
}

/// The token of the address space of the running task.
pub fn current_user_token(kernel: &Kernel) -> (r: u64)
    requires
        kernel_wf(kernel@),
        kernel@.current is Some,
    ensures
        r == kernel@.processes[current_process(kernel@) as int].1.token,
{
    let c: usize = kernel.current.unwrap();
    assert(kernel@.tasks[c as int] == kernel.tasks@[c as int]@);
    assert(kernel@.tasks[c as int].process < kernel@.processes.len());
    let token = kernel.tasks[c].get_user_token(&kernel.processes);
    assert(kernel@.processes[kernel.tasks@[c as int].process as int].1 == kernel.processes@[kernel.tasks@[c as int].process as int].inner@);
    token
}

/// The state after the running task has exited with `exit_code`: the task
/// keeps the code, its process is a zombie with that code, and nothing
/// runs. The task is not put back into the ready queue.
pub open spec fn exited(k: KernelView, exit_code: i32) -> KernelView {
    let c = k.current.unwrap();
    let p = k.tasks[c as int].process;
    KernelView {
        tasks: k.tasks.update(c as int, TaskView { exit_code: Some(exit_code), ..k.tasks[c as int] }),
        processes: k.processes.update(
            p as int,
            (
                k.processes[p as int].0,
                ProcessView { is_zombie: true, exit_code, ..k.processes[p as int].1 },
            ),
        ),
        current: None,
        ..k
    }
}

/// The running task exits with `exit_code`. The caller then lets the
/// scheduler select another task; this one never runs again.
pub fn sys_exit(kernel: &mut Kernel, exit_code: i32)
    requires
        kernel_wf(old(kernel)@),
        old(kernel)@.current is Some,
    ensures
        final(kernel)@ == exited(old(kernel)@, exit_code),
        kernel_wf(final(kernel)@),
{
    let ghost before = kernel@;
    let c: usize = kernel.current.unwrap();
    assert(before.tasks[c as int] == kernel.tasks@[c as int]@);
    assert(before.tasks[c as int].process < before.processes.len());
    let p: usize = kernel.tasks[c].process;
    kernel.tasks[c].inner.exit_code = Some(exit_code);
    kernel.processes[p].inner.is_zombie = true;
    kernel.processes[p].inner.exit_code = exit_code;
    kernel.current = None;
    proof {
        let after = exited(before, exit_code);
        assert(kernel@.tasks =~= after.tasks);
        assert(kernel@.processes =~= after.processes);
        assert forall|t: int| 0 <= t < after.tasks.len() implies (#[trigger] after.tasks[t]).process
            < after.processes.len() by {
            assert(before.tasks[t].process < before.processes.len());
        }
        assert forall|q: int, i: int|
            0 <= q < after.processes.len() && 0 <= i < after.processes[q].1.children.len() implies (
        #[trigger] after.processes[q].1.children[i]) < after.processes.len() by {
            assert(before.processes[q].1.children[i] < before.processes.len());
        }
    }
}

/// The running task gives up the processor of its own accord. Returns 0.
pub fn sys_yield(kernel: &mut Kernel) -> (r: isize)
    requires
        kernel_wf(old(kernel)@),
        old(kernel)@.current is Some,
        can_charge(suspended(old(kernel)@)),
    ensures
        r == 0,
        final(kernel)@ == next_running(suspended(old(kernel)@)),
        kernel_wf(final(kernel)@),
{
    kernel.suspend_current_and_run_next();
    0
}

/// The id of the process of the running task.
pub fn sys_getpid(kernel: &Kernel) -> (r: isize)
    requires
        kernel_wf(kernel@),
        kernel@.current is Some,
    ensures
        r == kernel@.processes[current_process(kernel@) as int].0 as isize,
{
    let c: usize = kernel.current.unwrap();
    assert(kernel@.tasks[c as int] == kernel.tasks@[c as int]@);
    assert(kernel@.tasks[c as int].process < kernel@.processes.len());
    let p: usize = kernel.tasks[c].process;
    assert(kernel@.processes[p as int].0 == kernel.processes@[p as int].pid);
    #[verifier::truncate]
    (kernel.processes[p].getpid() as isize)
}

/// The stride of a task of priority `prio`.
pub open spec fn stride_of(prio: isize) -> isize {
    (BIG_STRIDE as int / prio as int) as isize
}

/// Sets the priority of the running task. A priority of at least 2 is
/// accepted and returned, and the stride of the task becomes `BIG_STRIDE`
/// divided by it. A smaller one is refused with -1 and changes nothing.
pub fn sys_set_priority(kernel: &mut Kernel, prio: isize) -> (r: isize)
    requires
        kernel_wf(old(kernel)@),
        old(kernel)@.current is Some,
    ensures
        prio >= MIN_PRIORITY ==> r == prio && final(kernel)@ == (KernelView {
            tasks: old(kernel)@.tasks.update(
                old(kernel)@.current.unwrap() as int,
                TaskView {
                    stride: stride_of(prio),
                    ..old(kernel)@.tasks[old(kernel)@.current.unwrap() as int]
                },
            ),
            ..old(kernel)@
        }),
        prio < MIN_PRIORITY ==> r == -1 && final(kernel)@ == old(kernel)@,
        kernel_wf(final(kernel)@),
{
    if prio >= MIN_PRIORITY {
        let ghost before = kernel@;
        let c: usize = kernel.current.unwrap();
        assert(before.tasks[c as int] == kernel.tasks@[c as int]@);
        kernel.tasks[c].inner.stride = BIG_STRIDE / prio;
        proof {
            assert(kernel@.tasks =~= before.tasks.update(
                c as int,
                (TaskView { stride: stride_of(prio), ..before.tasks[c as int] }),
            ));
            assert forall|t: int| 0 <= t < kernel@.tasks.len() implies (#[trigger] kernel@.tasks[t]).process
                < kernel@.processes.len() by {
                assert(before.tasks[t].process < before.processes.len());
            }
        }
        return prio;
    }
    -1
}

/// Stores the time `us`, in microseconds, as a time value at address `ts`
/// of the running task's address space, which must be mapped there.
/// Returns 0 with the store to be carried out.
pub fn sys_get_time(kernel: &Kernel, mem: &PhysMemory, ts: usize, us: usize) -> (r: SyscallWrite)
    requires
        kernel_wf(kernel@),
        kernel@.current is Some,
        mem.wf(),
        table_wf(mem@, token_root(kernel@.processes[current_process(kernel@) as int].1.token)),
        ts + TIME_VAL_SIZE <= usize::MAX,
        byte_ranges(
            mem@,
            token_root(kernel@.processes[current_process(kernel@) as int].1.token),
            ts as int,
            ts + TIME_VAL_SIZE,
        ) is Some,
    ensures
        r.result == 0,
        r.write is Some,
        Some(r.write.unwrap().ranges@) == byte_ranges(
            mem@,
            token_root(kernel@.processes[current_process(kernel@) as int].1.token),
            ts as int,
            ts + TIME_VAL_SIZE,
        ),
        r.write.unwrap().bytes@ == time_bytes(us),
{
    let token = current_user_token(kernel);
    let write = translated_timeinfo(mem, token, ts, us);
    SyscallWrite { result: 0, write: Some(write) }
}

/// Stores a snapshot of the running task at address `ti` of its address
/// space, which must be mapped there: the system-call counters, the
/// running time in milliseconds between `started_us` and `now_us`, and the
/// status Running. Returns 0 with the store to be carried out.
pub fn sys_task_info(
    kernel: &Kernel,
    mem: &PhysMemory,
    ti: usize,
    syscall_times: &Vec<u32>,
    now_us: usize,
    started_us: usize,
) -> (r: SyscallWrite)
    requires
        kernel_wf(kernel@),
        kernel@.current is Some,
        mem.wf(),
        table_wf(mem@, token_root(kernel@.processes[current_process(kernel@) as int].1.token)),
        ti + TASK_INFO_SIZE <= usize::MAX,
        byte_ranges(
            mem@,
            token_root(kernel@.processes[current_process(kernel@) as int].1.token),
            ti as int,
            ti + TASK_INFO_SIZE,
        ) is Some,
        syscall_times@.len() == MAX_SYSCALL_NUM,
        started_us <= now_us,
    ensures
        r.result == 0,
        r.write is Some,
        Some(r.write.unwrap().ranges@) == byte_ranges(
            mem@,
            token_root(kernel@.processes[current_process(kernel@) as int].1.token),
            ti as int,
            ti + TASK_INFO_SIZE,
        ),
        r.write.unwrap().bytes@ == task_info_bytes(syscall_times@, ((now_us - started_us) / 1000) as usize),
{
    let token = current_user_token(kernel);
    let time: usize = (now_us - started_us) / 1000;
    let write = translated_taskinfo(mem, token, ti, syscall_times, time);
    SyscallWrite { result: 0, write: Some(write) }
}

/// The size in bytes of an exit code.
pub const EXIT_CODE_SIZE: usize = 4;

/// Whether the child with handle `child` is one that the caller waits
/// for: any child if `pid` is -1, else the child with that id.
pub open spec fn child_matches(k: KernelView, child: usize, pid: isize) -> bool {
    pid == -1 || pid as usize == k.processes[child as int].0
}

/// The children of the process of the running task.
pub open spec fn current_children(k: KernelView) -> Seq<usize> {
    k.processes[current_process(k) as int].1.children
}

/// Whether the caller has a child that it waits for.
pub open spec fn has_matching_child(k: KernelView, pid: isize) -> bool {
    exists|i: int|
        0 <= i < current_children(k).len() && child_matches(k, #[trigger] current_children(k)[i], pid)
}

/// The place, from `from` on, of the first child that the caller waits
/// for and that has exited.
pub open spec fn first_zombie(k: KernelView, children: Seq<usize>, pid: isize, from: int) -> Option<int>
    decreases children.len() - from,
{
    if from < 0 || from >= children.len() {
        None
    } else if k.processes[children[from] as int].1.is_zombie && child_matches(k, children[from], pid) {
        Some(from)
    } else {
        first_zombie(k, children, pid, from + 1)
    }
}

/// The state after the child at place `idx` of the caller's children has
/// been collected: it is no longer a child of the caller.
pub open spec fn collected(k: KernelView, idx: int) -> KernelView {
    let p = current_process(k);
    KernelView {
        processes: k.processes.update(
            p as int,
            (
                k.processes[p as int].0,
                ProcessView { children: current_children(k).remove(idx), ..k.processes[p as int].1 },
            ),
        ),
        ..k
    }
}

/// The place among the children of the running task's process of the
/// first child that the caller waits for and that has exited.
pub fn first_zombie_child(kernel: &Kernel, pid: isize) -> (r: Option<usize>)
    requires
        kernel_wf(kernel@),
        kernel@.current is Some,
    ensures
        match r {
            Some(idx) => first_zombie(kernel@, current_children(kernel@), pid, 0) == Some(idx as int)
                && idx < current_children(kernel@).len(),
            None => first_zombie(kernel@, current_children(kernel@), pid, 0) is None,
        },
{
    let ghost k = kernel@;
    let c: usize = kernel.current.unwrap();
    assert(k.tasks[c as int] == kernel.tasks@[c as int]@);
    assert(k.tasks[c as int].process < k.processes.len());
    let p: usize = kernel.tasks[c].process;
    assert(k.processes[p as int].1 == kernel.processes@[p as int].inner@);
    let ghost children = current_children(k);
    let n: usize = kernel.processes[p].inner.children.len();
    let mut idx: usize = 0;
    while idx < n
        invariant
            idx <= n,
            n == children.len(),
            k == kernel@,
            kernel_wf(k),
            p == current_process(k),
            p < kernel.processes@.len(),
            children == kernel.processes@[p as int].inner.children@,
            children == current_children(k),
            first_zombie(k, children, pid, 0) == first_zombie(k, children, pid, idx as int),
        decreases n - idx,
    {
        let child: usize = kernel.processes[p].inner.children[idx];
        assert(k.processes[p as int].1.children[idx as int] < k.processes.len());
        assert(k.processes[child as int].0 == kernel.processes@[child as int].pid);
        assert(k.processes[child as int].1 == kernel.processes@[child as int].inner@);
        let child_pid: usize = kernel.processes[child].getpid();
        if kernel.processes[child].inner.is_zombie && (pid == -1 || #[verifier::truncate] (pid as usize)
            == child_pid) {
            return Some(idx);
        }
        idx = idx + 1;
    }
    None
}

/// Collects a child of the running task's process that has exited. `pid`
/// names the child, or is -1 for any child. Returns -1 if the caller has
/// no such child, and -2 if it has but none of them has exited yet; both
/// change nothing and store nothing. Otherwise the first such child that
/// has exited leaves the caller's children, its id is returned, and its
/// exit code is to be stored at address `exit_code_ptr` of the caller's
/// address space. Where a child is to be collected that destination must
/// be mapped.
pub fn sys_waitpid(kernel: &mut Kernel, mem: &PhysMemory, pid: isize, exit_code_ptr: usize) -> (r:
    SyscallWrite)
    requires
        kernel_wf(old(kernel)@),
        old(kernel)@.current is Some,
        mem.wf(),
        table_wf(mem@, token_root(old(kernel)@.processes[current_process(old(kernel)@) as int].1.token)),
        exit_code_ptr + EXIT_CODE_SIZE <= usize::MAX,
        first_zombie(old(kernel)@, current_children(old(kernel)@), pid, 0) is Some ==> byte_ranges(
            mem@,
            token_root(old(kernel)@.processes[current_process(old(kernel)@) as int].1.token),
            exit_code_ptr as int,
            exit_code_ptr + EXIT_CODE_SIZE,
        ) is Some,
    ensures
        kernel_wf(final(kernel)@),
        !has_matching_child(old(kernel)@, pid) ==> r.result == -1 && r.write is None && final(kernel)@
            == old(kernel)@,
        has_matching_child(old(kernel)@, pid) ==> (match first_zombie(
            old(kernel)@,
            current_children(old(kernel)@),
            pid,
            0,
        ) {
            None => r.result == -2 && r.write is None && final(kernel)@ == old(kernel)@,
            Some(idx) => {
                let k = old(kernel)@;
                let child = current_children(k)[idx];
                let root = token_root(k.processes[current_process(k) as int].1.token);
                &&& r.result == (#[verifier::truncate] (k.processes[child as int].0 as isize))
                &&& final(kernel)@ == collected(k, idx)
                &&& r.write is Some
                &&& Some(r.write.unwrap().ranges@) == byte_ranges(
                    mem@,
                    root,
                    exit_code_ptr as int,
                    exit_code_ptr + EXIT_CODE_SIZE,
                )
                &&& r.write.unwrap().bytes@ == spec_u32_to_le_bytes(
                    #[verifier::truncate] (k.processes[child as int].1.exit_code as u32),
                )
            },
        }),
{
    let ghost k = kernel@;
    let c: usize = kernel.current.unwrap();
    assert(k.tasks[c as int] == kernel.tasks@[c as int]@);
    assert(k.tasks[c as int].process < k.processes.len());
    let p: usize = kernel.tasks[c].process;
    assert(k.processes[p as int].1 == kernel.processes@[p as int].inner@);
    let ghost children = current_children(k);
    let n: usize = kernel.processes[p].inner.children.len();
    let mut found: bool = false;
    let mut i: usize = 0;
    while i < n && !found
        invariant
            i <= n,
            n == children.len(),
            k == kernel@,
            kernel_wf(k),
            p == current_process(k),
            p < kernel.processes@.len(),
            children == kernel.processes@[p as int].inner.children@,
            children == current_children(k),
            found ==> has_matching_child(k, pid),
            !found ==> forall|j: int| 0 <= j < i ==> !child_matches(k, #[trigger] children[j], pid),
        decreases n - i + (if found { 0int } else { 1int }),
    {
        let child: usize = kernel.processes[p].inner.children[i];
        assert(k.processes[p as int].1.children[i as int] < k.processes.len());
        assert(k.processes[child as int].0 == kernel.processes@[child as int].pid);
        let child_pid: usize = kernel.processes[child].getpid();
        if pid == -1 || #[verifier::truncate] (pid as usize) == child_pid {
            assert(child_matches(k, children[i as int], pid));
            found = true;
        } else {
            i = i + 1;
        }
    }
    if !found {
        return SyscallWrite { result: -1, write: None };
    }
    let idx: usize = match first_zombie_child(kernel, pid) {
        Some(idx) => idx,
        None => {
            return SyscallWrite { result: -2, write: None };
        },
    };
    let child: usize = kernel.processes[p].inner.children[idx];
    assert(k.processes[p as int].1.children[idx as int] < k.processes.len());
    assert(k.processes[child as int].0 == kernel.processes@[child as int].pid);
    assert(k.processes[child as int].1 == kernel.processes@[child as int].inner@);
    let found_pid: usize = kernel.processes[child].getpid();
    let exit_code: i32 = kernel.processes[child].inner.exit_code;
    let token: u64 = kernel.processes[p].inner.token;
    let ranges = translated_byte_buffer(mem, token, exit_code_ptr, EXIT_CODE_SIZE);
    let bytes = u32_to_le_bytes(#[verifier::truncate] (exit_code as u32));
    kernel.processes[p].inner.children.remove(idx);
    proof {
        let after = collected(k, idx as int);
        assert(kernel@.processes =~= after.processes);
        assert(kernel@.tasks =~= after.tasks);
        assert forall|q: int, j: int|
            0 <= q < after.processes.len() && 0 <= j < after.processes[q].1.children.len() implies (
        #[trigger] after.processes[q].1.children[j]) < after.processes.len() by {
            if q == p {
                if j < idx {
                    assert(after.processes[q].1.children[j] == children[j]);
                } else {
                    assert(after.processes[q].1.children[j] == children[j + 1]);
                }
                assert(k.processes[q].1.children[j] < k.processes.len());
                assert(k.processes[q].1.children[j + 1] < k.processes.len());
            } else {
                assert(k.processes[q].1.children[j] < k.processes.len());
            }
        }
        assert forall|t: int| 0 <= t < after.tasks.len() implies (#[trigger] after.tasks[t]).process
            < after.processes.len() by {
            assert(k.tasks[t].process < k.processes.len());
        }
        assert forall|q: int| 0 <= q < after.processes.len() implies (#[trigger] after.processes[q]).0 == q by {
            assert(k.processes[q].0 == q);
        }
    }
    SyscallWrite { result: #[verifier::truncate] (found_pid as isize), write: Some(UserWrite { ranges, bytes }) }
}

/// The state after the running task's process has been forked: a new
/// process with the next free handle as its id and `token` as its address
/// space is a child of the caller, and a new task of it waits at the tail
/// of the ready queue.
pub open spec fn forked(k: KernelView, child: ProcessView, task: TaskView) -> KernelView {
    let p = current_process(k);
    let pid = k.processes.len() as usize;
    KernelView {
        tasks: k.tasks.push(task),
        processes: k.processes.update(
            p as int,
            (
                k.processes[p as int].0,
                ProcessView { children: current_children(k).push(pid), ..k.processes[p as int].1 },
            ),
        ).push((pid, child)),
        ready: k.ready.push(k.tasks.len() as usize),
        ..k
    }
}

/// Where in the frame of a trap context the register lies in which a
/// task finds the result of a system call.
pub const RETURN_REGISTER_START: usize = 80;

/// Where that register ends.
pub const RETURN_REGISTER_END: usize = 88;

/// The store that makes a new task find 0 as the result of the call that
/// made it: eight zero bytes into the return register of its own trap
/// context, in frame `trap_cx_ppn`.
pub open spec fn child_return_ranges(trap_cx_ppn: PhysPageNum) -> Seq<PhysRange> {
    seq![PhysRange { ppn: trap_cx_ppn, start: RETURN_REGISTER_START, end: RETURN_REGISTER_END }]
}

/// Prepares the store of 0 into the return register of a new task.
fn child_return(trap_cx_ppn: PhysPageNum) -> (r: UserWrite)
    ensures
        r.ranges@ == child_return_ranges(trap_cx_ppn),
        r.bytes@ == spec_u64_to_le_bytes(0),
{
    let mut ranges: Vec<PhysRange> = Vec::new();
    ranges.push(PhysRange { ppn: trap_cx_ppn, start: RETURN_REGISTER_START, end: RETURN_REGISTER_END });
    assert(ranges@ =~= child_return_ranges(trap_cx_ppn));
    UserWrite { ranges, bytes: u64_to_le_bytes(0) }
}

/// Forks the process of the running task. The caller has duplicated the
/// address space and the trap context and hands in the token of the copy
/// and the resources of the new task, whose trap context lies in a frame
/// of its own. The new process gets the next free handle as its id and
/// becomes a child of the caller's, and its task is made ready at the
/// tail of the queue with the scheduling state of a fresh task. The
/// result is the id of the child, which is positive and is not the id of
/// the caller, together with the store that makes the child find 0 as its
/// own result. That store lies in the child's trap context, so the
/// caller's is left as it is.
pub fn sys_fork(kernel: &mut Kernel, token: u64, res: TaskUserRes, trap_cx_ppn: PhysPageNum, kstack: KernelStack) -> (r:
    SyscallWrite)
    requires
        kernel_wf(old(kernel)@),
        old(kernel)@.current is Some,
        old(kernel)@.processes.len() <= isize::MAX,
        trap_cx_ppn != old(kernel)@.tasks[old(kernel)@.current.unwrap() as int].trap_cx_ppn,
    ensures
        r.result == old(kernel)@.processes.len(),
        r.result > 0,
        r.result != old(kernel)@.processes[current_process(old(kernel)@) as int].0,
        forall|p: int| 0 <= p < old(kernel)@.processes.len() ==> r.result != (#[trigger] old(kernel)@.processes[p]).0,
        r.write is Some,
        r.write.unwrap().ranges@ == child_return_ranges(trap_cx_ppn),
        r.write.unwrap().bytes@ == spec_u64_to_le_bytes(0),
        final(kernel)@ == forked(
            old(kernel)@,
            ProcessControlBlock::spec_new(token),
            TaskControlBlock::spec_new(old(kernel)@.processes.len() as usize, res, trap_cx_ppn, kstack),
        ),
        kernel_wf(final(kernel)@),
{
    let ghost k = kernel@;
    let c: usize = kernel.current.unwrap();
    assert(k.tasks[c as int] == kernel.tasks@[c as int]@);
    assert(k.tasks[c as int].process < k.processes.len());
    let p: usize = kernel.tasks[c].process;
    assert(k.processes[p as int].1 == kernel.processes@[p as int].inner@);
    let pid: usize = kernel.processes.len();
    let child = ProcessControlBlock::new(pid, token);
    let task = TaskControlBlock::new(pid, res, trap_cx_ppn, kstack);
    kernel.processes[p].inner.children.push(pid);
    kernel.processes.push(child);
    let handle: usize = kernel.tasks.len();
    kernel.tasks.push(task);
    kernel.manager.add(handle);
    proof {
        let after = forked(
            k,
            ProcessControlBlock::spec_new(token),
            TaskControlBlock::spec_new(pid, res, trap_cx_ppn, kstack),
        );
        assert(kernel@.processes =~= after.processes);
        assert(kernel@.tasks =~= after.tasks);
        assert forall|q: int, j: int|
            0 <= q < after.processes.len() && 0 <= j < after.processes[q].1.children.len() implies (
        #[trigger] after.processes[q].1.children[j]) < after.processes.len() by {
            if q < k.processes.len() {
                if q == p && j == current_children(k).len() {
                } else {
                    assert(k.processes[q].1.children[j] < k.processes.len());
                }
            }
        }
        assert forall|t: int| 0 <= t < after.tasks.len() implies (#[trigger] after.tasks[t]).process
            < after.processes.len() by {
            if t < k.tasks.len() {
                assert(k.tasks[t].process < k.processes.len());
            }
        }
        assert forall|q: int| 0 <= q < after.processes.len() implies (#[trigger] after.processes[q]).0 == q by {
            if q < k.processes.len() {
                assert(k.processes[q].0 == q);
            }
        }
        assert forall|q: int| 0 <= q < k.processes.len() implies pid != (#[trigger] k.processes[q]).0 by {
            assert(k.processes[q].0 == q);
        }
        assert(k.processes[p as int].0 == p);
    }
    SyscallWrite { result: pid as isize, write: Some(child_return(trap_cx_ppn)) }
}

/// Starts a new program as a child of the running task's process.
/// `image` is the token of the address space that the caller has built
/// from the program, or nothing if there is no such program. Without a
/// program the result is -1, nothing is stored and nothing changes. With
/// one, the new process is made as by a fork: the result is its id, which
/// is positive and is not the id of the caller, together with the store
/// that makes the new task find 0 as its own result.
pub fn sys_spawn(
    kernel: &mut Kernel,
    image: Option<u64>,
    res: TaskUserRes,
    trap_cx_ppn: PhysPageNum,
    kstack: KernelStack,
) -> (r: SyscallWrite)
    requires
        kernel_wf(old(kernel)@),
        old(kernel)@.current is Some,
        old(kernel)@.processes.len() <= isize::MAX,
        trap_cx_ppn != old(kernel)@.tasks[old(kernel)@.current.unwrap() as int].trap_cx_ppn,
    ensures
        image is None ==> r.result == -1 && r.write is None && final(kernel)@ == old(kernel)@,
        image matches Some(token) ==> {
            &&& r.result == old(kernel)@.processes.len()
            &&& r.result > 0
            &&& r.result != old(kernel)@.processes[current_process(old(kernel)@) as int].0
            &&& r.write is Some
            &&& r.write.unwrap().ranges@ == child_return_ranges(trap_cx_ppn)
            &&& r.write.unwrap().bytes@ == spec_u64_to_le_bytes(0)
            &&& final(kernel)@ == forked(
                old(kernel)@,
                ProcessControlBlock::spec_new(token),
                TaskControlBlock::spec_new(old(kernel)@.processes.len() as usize, res, trap_cx_ppn, kstack),
            )
        },
        kernel_wf(final(kernel)@),
{
    match image {
        Some(token) => sys_fork(kernel, token, res, trap_cx_ppn, kstack),
        None => SyscallWrite { result: -1, write: None },
    }
}

/// Moves the end of the data segment of the running task's process.
/// `old_brk` is the end before the move, or nothing if the move was
/// refused. Returns the old end, or -1 for a move that was refused.
pub fn sys_sbrk(old_brk: Option<usize>) -> (r: isize)
    ensures
        r == (match old_brk {
            Some(b) => #[verifier::truncate] (b as isize),
            None => -1isize,
        }),
{
    match old_brk {
        Some(b) => #[verifier::truncate] (b as isize),
        None => -1,
    }
}

/// Replaces the program of the running task's process. `image` is the
/// token of the address space that the caller has built from the new
/// program, or nothing if there is no such program. Returns 0 and makes
/// that address space the one of the process, or -1 without any change if
/// there is no program.
pub fn sys_exec(kernel: &mut Kernel, image: Option<u64>) -> (r: isize)
    requires
        kernel_wf(old(kernel)@),
        old(kernel)@.current is Some,
    ensures
        image is None ==> r == -1 && final(kernel)@ == old(kernel)@,
        image matches Some(token) ==> r == 0 && final(kernel)@ == (KernelView {
            processes: old(kernel)@.processes.update(
                current_process(old(kernel)@) as int,
                (
                    old(kernel)@.processes[current_process(old(kernel)@) as int].0,
                    ProcessView {
                        token,
                        ..old(kernel)@.processes[current_process(old(kernel)@) as int].1
                    },
                ),
            ),
            ..old(kernel)@
        }),
        kernel_wf(final(kernel)@),
{
    match image {
        Some(token) => {
            let ghost k = kernel@;
            let c: usize = kernel.current.unwrap();
            assert(k.tasks[c as int] == kernel.tasks@[c as int]@);
            assert(k.tasks[c as int].process < k.processes.len());
            let p: usize = kernel.tasks[c].process;
            kernel.processes[p].inner.token = token;
            proof {
                let after = KernelView {
                    processes: k.processes.update(
                        p as int,
                        (k.processes[p as int].0, ProcessView { token, ..k.processes[p as int].1 }),
                    ),
                    ..k
                };
                assert(kernel@.processes =~= after.processes);
                assert(kernel@.tasks =~= after.tasks);
                assert forall|q: int, j: int|
                    0 <= q < after.processes.len() && 0 <= j < after.processes[q].1.children.len() implies (
                #[trigger] after.processes[q].1.children[j]) < after.processes.len() by {
                    assert(k.processes[q].1.children[j] < k.processes.len());
                }
                assert forall|t: int| 0 <= t < after.tasks.len() implies (#[trigger] after.tasks[t]).process
                    < after.processes.len() by {
                    assert(k.tasks[t].process < k.processes.len());
                }
            }
            0
        },
        None => -1,
    }
}

} // verus!
