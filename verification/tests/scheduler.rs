use std::collections::VecDeque;

use kernel_core::address::PhysPageNum;
use kernel_core::config::BIG_STRIDE;
use kernel_core::kernel::Kernel;
use kernel_core::manager::{wakeup_task, TaskManager};
use kernel_core::process::ProcessControlBlock;
use kernel_core::syscall::sys_set_priority;
use kernel_core::task::{KernelStack, TaskControlBlock, TaskStatus, TaskUserRes};

fn task(tid: usize, pass: isize, stride: isize) -> TaskControlBlock {
    let mut t = TaskControlBlock::new(
        0,
        TaskUserRes { tid, ustack_base: 0 },
        PhysPageNum(0),
        KernelStack(tid),
    );
    t.inner.pass = pass;
    t.inner.stride = stride;
    t
}

fn queue_of(m: &TaskManager) -> Vec<usize> {
    m.ready_queue.iter().copied().collect()
}

#[test]
fn new_task_starts_ready_with_cleared_bookkeeping() {
    let t = TaskControlBlock::new(
        3,
        TaskUserRes { tid: 9, ustack_base: 0x1000 },
        PhysPageNum(5),
        KernelStack(2),
    );
    assert_eq!(t.process, 3);
    assert_eq!(t.kstack, KernelStack(2));
    assert_eq!(t.get_tid(), 9);
    assert_eq!(t.inner.get_trap_cx(), PhysPageNum(5));
    assert_eq!(t.inner.get_status(), TaskStatus::Ready);
    assert_eq!(t.inner.exit_code, None);
    assert_eq!(t.inner.pass, 0);
    assert_eq!(t.inner.stride, BIG_STRIDE / 16);
    assert_eq!(t.inner.alloc_vec_mutex, vec![0; 20]);
    assert_eq!(t.inner.need_vec_mutex, vec![0; 20]);
    assert_eq!(t.inner.alloc_vec_semaphore, vec![0; 20]);
    assert_eq!(t.inner.need_vec_semaphore, vec![0; 20]);
    assert_eq!(
        (t.inner.mutex_id, t.inner.unlock_mutex_id, t.inner.semaphore_id, t.inner.unlock_semaphore_id),
        (0, 0, 0, 0)
    );
}

#[test]
fn slot_setters_change_one_field_each() {
    let mut t = task(0, 0, 1);
    t.inner.set_mutex_id(3);
    t.inner.set_unlock_mutex_id(4);
    t.inner.set_semaphore_id(5);
    t.inner_exclusive_access().set_up_semaphore_id(6);
    assert_eq!(t.inner.mutex_id, 3);
    assert_eq!(t.inner.unlock_mutex_id, 4);
    assert_eq!(t.inner.semaphore_id, 5);
    assert_eq!(t.inner.unlock_semaphore_id, 6);
    assert_eq!(t.inner.pass, 0);
    assert_eq!(t.inner.alloc_vec_mutex, vec![0; 20]);
}

#[test]
fn fetch_on_empty_queue_returns_nothing() {
    let mut m = TaskManager::new();
    let mut tasks = vec![task(0, 0, 1)];
    assert_eq!(m.fetch(&mut tasks), None);
    assert_eq!(m.len(), 0);
    assert_eq!(tasks[0].inner.pass, 0);
}

#[test]
fn add_appends_to_the_tail() {
    let mut m = TaskManager::new();
    m.add(2);
    m.add(0);
    m.add(1);
    assert_eq!(queue_of(&m), vec![2, 0, 1]);
}

#[test]
fn fetch_takes_the_least_pass_and_charges_it_once() {
    let mut tasks = vec![task(0, 30, 7), task(1, 10, 5), task(2, 20, 3)];
    let mut m = TaskManager { ready_queue: VecDeque::from(vec![0, 1, 2]) };
    assert_eq!(m.fetch(&mut tasks), Some(1));
    assert_eq!(tasks[1].inner.pass, 15);
    assert_eq!(tasks[0].inner.pass, 30);
    assert_eq!(tasks[2].inner.pass, 20);
    assert_eq!(queue_of(&m), vec![0, 2]);
}

#[test]
fn deposed_candidates_are_requeued_out_of_turn() {
    let mut tasks = vec![task(0, 30, 1), task(1, 40, 1), task(2, 20, 1), task(3, 10, 1)];
    let mut m = TaskManager { ready_queue: VecDeque::from(vec![0, 1, 2, 3]) };
    assert_eq!(m.fetch(&mut tasks), Some(3));
    assert_eq!(queue_of(&m), vec![1, 0, 2]);
}

#[test]
fn ties_keep_the_task_met_first() {
    let mut tasks = vec![task(0, 10, 4), task(1, 10, 4), task(2, 10, 4)];
    let mut m = TaskManager { ready_queue: VecDeque::from(vec![1, 0, 2]) };
    assert_eq!(m.fetch(&mut tasks), Some(1));
    assert_eq!(queue_of(&m), vec![0, 2]);
    assert_eq!(tasks[1].inner.pass, 14);
}

#[test]
fn single_task_is_fetched() {
    let mut tasks = vec![task(0, -5, 4)];
    let mut m = TaskManager { ready_queue: VecDeque::from(vec![0]) };
    assert_eq!(m.fetch(&mut tasks), Some(0));
    assert_eq!(tasks[0].inner.pass, -1);
    assert_eq!(m.len(), 0);
}

#[test]
fn wakeup_makes_ready_and_queues() {
    let mut tasks = vec![task(0, 0, 1), task(1, 0, 1)];
    tasks[1].inner.task_status = TaskStatus::Blocked;
    let mut m = TaskManager::new();
    m.add(0);
    wakeup_task(&mut tasks, &mut m, 1);
    assert_eq!(tasks[1].inner.task_status, TaskStatus::Ready);
    assert_eq!(queue_of(&m), vec![0, 1]);
}

fn kernel_with_two_tasks() -> Kernel {
    let mut k = Kernel::new();
    let p = k.add_process(ProcessControlBlock::new(0, 0));
    let a = TaskControlBlock::new(p, TaskUserRes { tid: 0, ustack_base: 0 }, PhysPageNum(0), KernelStack(0));
    let b = TaskControlBlock::new(p, TaskUserRes { tid: 1, ustack_base: 0 }, PhysPageNum(0), KernelStack(1));
    k.add_task(a);
    k.add_task(b);
    k
}

#[test]
fn priority_sets_the_stride() {
    let mut k = kernel_with_two_tasks();
    assert_eq!(k.run_next(), Some(0));
    assert_eq!(sys_set_priority(&mut k, 2), 2);
    assert_eq!(k.tasks[0].inner.stride, BIG_STRIDE / 2);
    assert_eq!(sys_set_priority(&mut k, 4), 4);
    assert_eq!(k.tasks[0].inner.stride, BIG_STRIDE / 4);
    assert_eq!(k.tasks[0].inner.stride, 16384);
    assert_eq!(sys_set_priority(&mut k, isize::MAX), isize::MAX);
    assert_eq!(k.tasks[0].inner.stride, 0);
}

#[test]
fn priority_below_two_is_refused() {
    let mut k = kernel_with_two_tasks();
    assert_eq!(k.run_next(), Some(0));
    assert_eq!(sys_set_priority(&mut k, 4), 4);
    assert_eq!(sys_set_priority(&mut k, 1), -1);
    assert_eq!(k.tasks[0].inner.stride, BIG_STRIDE / 4);
    assert_eq!(sys_set_priority(&mut k, 0), -1);
    assert_eq!(sys_set_priority(&mut k, -3), -1);
    assert_eq!(k.tasks[0].inner.stride, BIG_STRIDE / 4);
    assert_eq!(k.tasks[1].inner.stride, BIG_STRIDE / 16);
}

#[test]
fn priority_four_runs_twice_as_often_as_priority_two() {
    let mut tasks = vec![task(0, 0, BIG_STRIDE / 2), task(1, 0, BIG_STRIDE / 4)];
    let mut m = TaskManager::new();
    m.add(0);
    m.add(1);
    let mut chosen = [0i64; 2];
    for round in 1..=3000i64 {
        let w = m.fetch(&mut tasks).unwrap();
        chosen[w] += 1;
        m.add(w);
        let gap = (tasks[0].inner.pass - tasks[1].inner.pass).abs();
        assert!(gap <= BIG_STRIDE / 2);
        assert_eq!(chosen[0] + chosen[1], round);
        assert!((chosen[1] - 2 * chosen[0]).abs() <= 4);
    }
    assert_eq!(chosen, [1000, 2000]);
}

#[test]
fn stride_window_is_fair_from_uneven_passes() {
    let mut tasks = vec![task(0, 900, 300), task(1, 1000, 700)];
    let mut m = TaskManager::new();
    m.add(1);
    m.add(0);
    let mut chosen = [0isize; 2];
    for _ in 0..500 {
        let w = m.fetch(&mut tasks).unwrap();
        chosen[w] += 1;
        m.add(w);
        assert!((chosen[0] * 300 - chosen[1] * 700).abs() <= 2 * 700);
    }
    assert_eq!(tasks[0].inner.pass, 900 + chosen[0] * 300);
    assert_eq!(tasks[1].inner.pass, 1000 + chosen[1] * 700);
}
