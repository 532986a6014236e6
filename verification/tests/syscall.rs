use kernel_core::address::{PhysPageNum, VirtPageNum};
use kernel_core::frame::PhysMemory;
use kernel_core::kernel::Kernel;
use kernel_core::page_table::{PTEFlags, PageTable};
use kernel_core::process::ProcessControlBlock;
use kernel_core::syscall::{
    current_user_token, first_zombie_child, sys_exit, sys_fork, sys_get_time, sys_getpid, sys_sbrk,
    sys_task_info, sys_waitpid, sys_yield, TimeVal,
};
use kernel_core::task::{KernelStack, TaskControlBlock, TaskStatus, TaskUserRes};
use kernel_core::user_memory::{buffer_mapped, PhysRange};

fn boot(token: u64) -> Kernel {
    let mut k = Kernel::new();
    let p = k.add_process(ProcessControlBlock::new(0, token));
    let t = TaskControlBlock::new(p, TaskUserRes { tid: 0, ustack_base: 0 }, PhysPageNum(0), KernelStack(0));
    k.add_task(t);
    assert_eq!(k.run_next(), Some(0));
    k
}

fn space() -> (PhysMemory, PageTable) {
    let mut mem = PhysMemory::new(64);
    let mut pt = PageTable::new(&mut mem);
    pt.map(&mut mem, VirtPageNum(1), PhysPageNum(100), PTEFlags { bits: PTEFlags::W });
    pt.map(&mut mem, VirtPageNum(2), PhysPageNum(200), PTEFlags { bits: PTEFlags::W });
    (mem, pt)
}

fn ready(k: &Kernel) -> Vec<usize> {
    k.manager.ready_queue.iter().copied().collect()
}

#[test]
fn boot_runs_the_first_task() {
    let k = boot(0);
    assert_eq!(k.current, Some(0));
    assert_eq!(k.tasks[0].inner.task_status, TaskStatus::Running);
    assert_eq!(k.tasks[0].inner.pass, k.tasks[0].inner.stride);
    assert!(ready(&k).is_empty());
    assert_eq!(sys_getpid(&k), 0);
    assert_eq!(current_user_token(&k), 0);
}

#[test]
fn run_next_on_empty_queue_idles() {
    let mut k = Kernel::new();
    assert_eq!(k.run_next(), None);
    assert_eq!(k.current, None);
}

#[test]
fn fork_adds_a_ready_child() {
    let mut k = boot(11);
    let r = sys_fork(&mut k, 22, TaskUserRes { tid: 0, ustack_base: 0 }, PhysPageNum(9), KernelStack(1));
    assert_eq!(r.result, 1);
    let w = r.write.unwrap();
    assert_eq!(w.ranges, vec![PhysRange { ppn: PhysPageNum(9), start: 80, end: 88 }]);
    assert_eq!(w.bytes, vec![0u8; 8]);
    assert_eq!(k.processes.len(), 2);
    assert_eq!(k.processes[1].getpid(), 1);
    assert_eq!(k.processes[1].inner.token, 22);
    assert_eq!(k.processes[0].inner.children, vec![1]);
    assert_eq!(k.tasks[1].process, 1);
    assert_eq!(k.tasks[1].inner.trap_cx_ppn, PhysPageNum(9));
    assert_eq!(k.tasks[1].inner.task_status, TaskStatus::Ready);
    assert_eq!(ready(&k), vec![1]);
    assert_eq!(k.current, Some(0));
    assert_eq!(k.tasks[1].get_user_token(&k.processes), 22);
}

#[test]
fn yield_requeues_the_caller() {
    let mut k = boot(0);
    sys_fork(&mut k, 0, TaskUserRes { tid: 0, ustack_base: 0 }, PhysPageNum(1), KernelStack(1));
    let stride = k.tasks[0].inner.stride;
    assert_eq!(sys_yield(&mut k), 0);
    assert_eq!(k.current, Some(1));
    assert_eq!(k.tasks[1].inner.task_status, TaskStatus::Running);
    assert_eq!(k.tasks[0].inner.task_status, TaskStatus::Ready);
    assert_eq!(k.tasks[1].inner.pass, stride);
    assert_eq!(ready(&k), vec![0]);
    assert_eq!(sys_getpid(&k), 1);
    assert_eq!(sys_yield(&mut k), 0);
    assert_eq!(k.current, Some(0));
    assert_eq!(ready(&k), vec![1]);
    assert_eq!(k.tasks[0].inner.pass, 2 * stride);
    assert_eq!(sys_yield(&mut k), 0);
    assert_eq!(k.current, Some(1));
    assert_eq!(ready(&k), vec![0]);
}

#[test]
fn yield_of_the_only_task_runs_it_again() {
    let mut k = boot(0);
    assert_eq!(sys_yield(&mut k), 0);
    assert_eq!(k.current, Some(0));
    assert_eq!(k.tasks[0].inner.pass, 2 * k.tasks[0].inner.stride);
    assert_eq!(k.suspend_current_and_run_next(), Some(0));
}

#[test]
fn exit_leaves_a_zombie_that_is_not_requeued() {
    let mut k = boot(0);
    sys_exit(&mut k, -7);
    assert_eq!(k.current, None);
    assert_eq!(k.tasks[0].inner.exit_code, Some(-7));
    assert!(k.processes[0].inner.is_zombie);
    assert_eq!(k.processes[0].inner.exit_code, -7);
    assert!(ready(&k).is_empty());
    assert_eq!(k.run_next(), None);
}

#[test]
fn waitpid_tells_no_child_from_running_child() {
    let (mem, pt) = space();
    let mut k = boot(pt.token());
    assert_eq!(sys_waitpid(&mut k, &mem, -1, 4096).result, -1);
    sys_fork(&mut k, 0, TaskUserRes { tid: 0, ustack_base: 0 }, PhysPageNum(1), KernelStack(1));
    let r = sys_waitpid(&mut k, &mem, -1, 4096);
    assert_eq!(r.result, -2);
    assert!(r.write.is_none());
    assert_eq!(sys_waitpid(&mut k, &mem, 1, 4096).result, -2);
    assert_eq!(sys_waitpid(&mut k, &mem, 5, 4096).result, -1);
    assert_eq!(sys_waitpid(&mut k, &mem, -2, 4096).result, -1);
    assert_eq!(k.processes[0].inner.children, vec![1]);
}

#[test]
fn waitpid_collects_the_first_zombie() {
    let (mem, pt) = space();
    let mut k = boot(pt.token());
    for n in 1..=3 {
        sys_fork(&mut k, 0, TaskUserRes { tid: 0, ustack_base: 0 }, PhysPageNum(n as u64), KernelStack(n));
    }
    k.processes[2].inner.is_zombie = true;
    k.processes[2].inner.exit_code = -3;
    k.processes[3].inner.is_zombie = true;
    k.processes[3].inner.exit_code = 5;
    assert_eq!(sys_waitpid(&mut k, &mem, 1, 4096).result, -2);
    assert_eq!(sys_waitpid(&mut k, &mem, 1, 0).result, -2);
    assert_eq!(first_zombie_child(&k, -1), Some(1));
    let r = sys_waitpid(&mut k, &mem, -1, 4096 + 4094);
    assert_eq!(r.result, 2);
    let w = r.write.unwrap();
    assert_eq!(w.bytes, (-3i32).to_le_bytes().to_vec());
    assert_eq!(
        w.ranges,
        vec![
            PhysRange { ppn: PhysPageNum(100), start: 4094, end: 4096 },
            PhysRange { ppn: PhysPageNum(200), start: 0, end: 2 },
        ]
    );
    assert_eq!(k.processes[0].inner.children, vec![1, 3]);
    assert_eq!(first_zombie_child(&k, 3), Some(1));
    assert_eq!(first_zombie_child(&k, 1), None);
    assert!(!buffer_mapped(&mem, pt.token(), 0, 4));
    let r = sys_waitpid(&mut k, &mem, 3, 2 * 4096);
    assert_eq!(r.result, 3);
    let w = r.write.unwrap();
    assert_eq!(w.bytes, 5i32.to_le_bytes().to_vec());
    assert_eq!(w.ranges, vec![PhysRange { ppn: PhysPageNum(200), start: 0, end: 4 }]);
    assert_eq!(k.processes[0].inner.children, vec![1]);
    assert_eq!(first_zombie_child(&k, -1), None);
    assert_eq!(sys_waitpid(&mut k, &mem, 3, 4096).result, -1);
}

#[test]
fn get_time_prepares_the_store() {
    let (mem, pt) = space();
    let k = boot(pt.token());
    let r = sys_get_time(&k, &mem, 4096 + 16, 7_000_123);
    assert_eq!(r.result, 0);
    let w = r.write.unwrap();
    assert_eq!(w.ranges, vec![PhysRange { ppn: PhysPageNum(100), start: 16, end: 32 }]);
    let mut expected = 7u64.to_le_bytes().to_vec();
    expected.extend_from_slice(&123u64.to_le_bytes());
    assert_eq!(w.bytes, expected);
    assert_eq!(TimeVal::from_us(7_000_123), TimeVal { sec: 7, usec: 123 });
    assert!(buffer_mapped(&mem, current_user_token(&k), 4096 + 16, 16));
    assert!(!buffer_mapped(&mem, current_user_token(&k), 3 * 4096, 16));
}

#[test]
fn task_info_reports_milliseconds() {
    let (mem, pt) = space();
    let k = boot(pt.token());
    let mut counts = vec![0u32; 500];
    counts[64] = 3;
    let r = sys_task_info(&k, &mem, 4096, &counts, 9_500_999, 500_000);
    assert_eq!(r.result, 0);
    let w = r.write.unwrap();
    assert_eq!(&w.bytes[256..260], &[3, 0, 0, 0]);
    assert_eq!(&w.bytes[2000..2008], &9000u64.to_le_bytes());
    assert_eq!(&w.bytes[2008..2016], &2u64.to_le_bytes());
    assert_eq!(w.ranges, vec![PhysRange { ppn: PhysPageNum(100), start: 0, end: 2016 }]);
    assert!(!buffer_mapped(&mem, current_user_token(&k), 2 * 4096 + 4000, 2016));
}

#[test]
fn fork_never_returns_the_id_of_the_caller() {
    let mut k = boot(0);
    let res = TaskUserRes { tid: 0, ustack_base: 0 };
    for n in 1..=4usize {
        let caller = sys_getpid(&k);
        let r = sys_fork(&mut k, 0, res, PhysPageNum(100 + n as u64), KernelStack(n));
        assert_eq!(r.result, n as isize);
        assert!(r.result > 0);
        assert!(r.result != caller);
        assert!(k.processes.iter().enumerate().all(|(place, p)| p.getpid() == place));
        assert_eq!(k.processes[caller as usize].inner.children.last(), Some(&n));
        sys_yield(&mut k);
    }
    assert_eq!(sys_getpid(&k), 4);
    assert_eq!(k.tasks[0].inner.trap_cx_ppn, PhysPageNum(0));
}

#[test]
fn sbrk_returns_the_old_end_or_fails() {
    assert_eq!(sys_sbrk(Some(0x4000)), 0x4000);
    assert_eq!(sys_sbrk(Some(0)), 0);
    assert_eq!(sys_sbrk(None), -1);
}
