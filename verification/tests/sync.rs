use kernel_core::address::PhysPageNum;
use kernel_core::manager::TaskManager;
use kernel_core::mutex::{LockOutcome, Mutex, MutexBlocking, MutexSpin};
use kernel_core::process::ProcessControlBlock;
use kernel_core::semaphore::Semaphore;
use kernel_core::task::{KernelStack, TaskControlBlock, TaskStatus, TaskUserRes};

fn tasks(n: usize) -> Vec<TaskControlBlock> {
    (0..n)
        .map(|tid| {
            let mut t = TaskControlBlock::new(
                0,
                TaskUserRes { tid, ustack_base: 0 },
                PhysPageNum(0),
                KernelStack(tid),
            );
            t.inner.task_status = TaskStatus::Running;
            t
        })
        .collect()
}

fn process_with(slot: usize, mutexes: usize, semaphores: usize) -> ProcessControlBlock {
    let mut p = ProcessControlBlock::new(0, 0);
    p.inner.mutex_available_vec[slot] = mutexes;
    p.inner.semaphore_available_vec[slot] = semaphores;
    p
}

fn waiting(q: &std::collections::VecDeque<usize>) -> Vec<usize> {
    q.iter().copied().collect()
}

fn mutex_balance(p: &ProcessControlBlock, ts: &[TaskControlBlock], slot: usize) -> usize {
    p.inner.mutex_available_vec[slot] + ts.iter().map(|t| t.inner.alloc_vec_mutex[slot]).sum::<usize>()
}

fn semaphore_balance(p: &ProcessControlBlock, ts: &[TaskControlBlock], slot: usize) -> usize {
    p.inner.semaphore_available_vec[slot]
        + ts.iter().map(|t| t.inner.alloc_vec_semaphore[slot]).sum::<usize>()
}

#[test]
fn new_process_has_no_instances() {
    let p = ProcessControlBlock::new(7, 42);
    assert_eq!(p.getpid(), 7);
    assert_eq!(p.inner.token, 42);
    assert!(!p.inner.is_zombie);
    assert!(p.inner.children.is_empty());
    assert_eq!(p.inner.mutex_available_vec, vec![0; 20]);
    assert_eq!(p.inner.semaphore_available_vec, vec![0; 20]);
}

#[test]
fn spin_mutex_tells_contender_to_retry() {
    let mut ts = tasks(2);
    let mut p = process_with(0, 1, 0);
    let mut ready = TaskManager::new();
    let mut m = MutexSpin::new();
    assert!(!m.locked);
    assert_eq!(m.lock(&mut ts, 0, &mut p.inner), LockOutcome::Acquired);
    assert!(m.locked);
    assert_eq!(m.lock(&mut ts, 1, &mut p.inner), LockOutcome::Retry);
    assert!(m.locked);
    m.unlock(&mut ts, 0, &mut p.inner, &mut ready);
    assert!(!m.locked);
    assert_eq!(m.lock(&mut ts, 1, &mut p.inner), LockOutcome::Acquired);
    assert_eq!(p.inner.mutex_available_vec[0], 1);
    assert_eq!(ts[0].inner.alloc_vec_mutex[0], 0);
    assert_eq!(ready.len(), 0);
}

#[test]
fn free_mutex_is_taken_at_once() {
    let mut ts = tasks(1);
    let mut p = process_with(3, 1, 0);
    let mut m = MutexBlocking::new();
    ts[0].inner.set_mutex_id(3);
    assert_eq!(m.lock(&mut ts, 0, &mut p.inner), LockOutcome::Acquired);
    assert!(m.inner.locked);
    assert!(m.inner.wait_queue.is_empty());
    assert_eq!(p.inner.mutex_available_vec[3], 0);
    assert_eq!(ts[0].inner.alloc_vec_mutex[3], 1);
    assert_eq!(ts[0].inner.need_vec_mutex[3], 0);
    assert_eq!(ts[0].inner.task_status, TaskStatus::Running);
}

#[test]
fn held_mutex_parks_the_caller() {
    let mut ts = tasks(2);
    let mut p = process_with(3, 1, 0);
    let mut m = MutexBlocking::new();
    ts[0].inner.set_mutex_id(3);
    ts[1].inner.set_mutex_id(3);
    m.lock(&mut ts, 0, &mut p.inner);
    assert_eq!(m.lock(&mut ts, 1, &mut p.inner), LockOutcome::Blocked);
    assert_eq!(waiting(&m.inner.wait_queue), vec![1]);
    assert_eq!(ts[1].inner.need_vec_mutex[3], 1);
    assert_eq!(ts[1].inner.alloc_vec_mutex[3], 0);
    assert_eq!(ts[1].inner.task_status, TaskStatus::Blocked);
    assert_eq!(p.inner.mutex_available_vec[3], 0);
}

#[test]
fn unlock_without_waiter_frees_the_mutex() {
    let mut ts = tasks(1);
    let mut p = process_with(2, 1, 0);
    let mut ready = TaskManager::new();
    let mut m = MutexBlocking::new();
    ts[0].inner.set_mutex_id(2);
    ts[0].inner.set_unlock_mutex_id(2);
    m.lock(&mut ts, 0, &mut p.inner);
    m.unlock(&mut ts, 0, &mut p.inner, &mut ready);
    assert!(!m.inner.locked);
    assert_eq!(p.inner.mutex_available_vec[2], 1);
    assert_eq!(ts[0].inner.alloc_vec_mutex[2], 0);
    assert_eq!(ready.len(), 0);
}

#[test]
fn unlock_hands_the_mutex_to_the_waiter() {
    let mut ts = tasks(2);
    let mut p = process_with(2, 1, 0);
    let mut ready = TaskManager::new();
    let mut m = MutexBlocking::new();
    for t in ts.iter_mut() {
        t.inner.set_mutex_id(2);
        t.inner.set_unlock_mutex_id(2);
    }
    m.lock(&mut ts, 0, &mut p.inner);
    m.lock(&mut ts, 1, &mut p.inner);
    m.unlock(&mut ts, 0, &mut p.inner, &mut ready);
    assert!(m.inner.locked);
    assert!(m.inner.wait_queue.is_empty());
    assert_eq!(p.inner.mutex_available_vec[2], 0);
    assert_eq!(ts[0].inner.alloc_vec_mutex[2], 0);
    assert_eq!(ts[1].inner.alloc_vec_mutex[2], 1);
    assert_eq!(ts[1].inner.need_vec_mutex[2], 0);
    assert_eq!(ts[1].inner.task_status, TaskStatus::Ready);
    assert_eq!(waiting(&ready.ready_queue), vec![1]);
}

#[test]
fn waiters_are_woken_first_come_first_served() {
    let mut ts = tasks(3);
    let mut p = process_with(0, 1, 0);
    let mut ready = TaskManager::new();
    let mut m = MutexBlocking::new();
    m.lock(&mut ts, 2, &mut p.inner);
    assert_eq!(m.lock(&mut ts, 0, &mut p.inner), LockOutcome::Blocked);
    assert_eq!(m.lock(&mut ts, 1, &mut p.inner), LockOutcome::Blocked);
    assert_eq!(waiting(&m.inner.wait_queue), vec![0, 1]);
    m.unlock(&mut ts, 2, &mut p.inner, &mut ready);
    assert_eq!(waiting(&ready.ready_queue), vec![0]);
    assert_eq!(waiting(&m.inner.wait_queue), vec![1]);
    m.unlock(&mut ts, 0, &mut p.inner, &mut ready);
    assert_eq!(waiting(&ready.ready_queue), vec![0, 1]);
    assert!(m.inner.wait_queue.is_empty());
    assert!(m.inner.locked);
    m.unlock(&mut ts, 1, &mut p.inner, &mut ready);
    assert!(!m.inner.locked);
}

#[test]
fn mutex_calls_conserve_instances() {
    let mut ts = tasks(3);
    let mut p = process_with(0, 1, 0);
    let mut ready = TaskManager::new();
    let mut m = MutexBlocking::new();
    let total = mutex_balance(&p, &ts, 0);
    assert_eq!(total, 1);
    m.lock(&mut ts, 0, &mut p.inner);
    assert_eq!(mutex_balance(&p, &ts, 0), total);
    m.lock(&mut ts, 1, &mut p.inner);
    assert_eq!(mutex_balance(&p, &ts, 0), total);
    m.lock(&mut ts, 2, &mut p.inner);
    assert_eq!(mutex_balance(&p, &ts, 0), total);
    m.unlock(&mut ts, 0, &mut p.inner, &mut ready);
    assert_eq!(mutex_balance(&p, &ts, 0), total);
    m.unlock(&mut ts, 1, &mut p.inner, &mut ready);
    assert_eq!(mutex_balance(&p, &ts, 0), total);
    m.unlock(&mut ts, 2, &mut p.inner, &mut ready);
    assert_eq!(mutex_balance(&p, &ts, 0), total);
    assert_eq!(p.inner.mutex_available_vec[0], 1);
    assert_eq!(mutex_balance(&p, &ts, 1), 0);
}

#[test]
fn semaphore_starts_with_its_count() {
    let s = Semaphore::new(3);
    assert_eq!(s.inner.count, 3);
    assert!(s.inner.wait_queue.is_empty());
    assert_eq!(Semaphore::new(0).inner.count, 0);
}

#[test]
fn second_down_blocks_and_up_wakes_it() {
    let mut ts = tasks(2);
    let mut p = process_with(1, 0, 1);
    let mut ready = TaskManager::new();
    let mut s = Semaphore::new(1);
    for t in ts.iter_mut() {
        t.inner.set_semaphore_id(1);
        t.inner.set_up_semaphore_id(1);
    }
    assert_eq!(s.down(&mut ts, 0, &mut p.inner), LockOutcome::Acquired);
    assert_eq!(s.inner.count, 0);
    assert_eq!(ts[0].inner.alloc_vec_semaphore[1], 1);
    assert_eq!(p.inner.semaphore_available_vec[1], 0);
    assert_eq!(s.down(&mut ts, 1, &mut p.inner), LockOutcome::Blocked);
    assert_eq!(s.inner.count, -1);
    assert_eq!(waiting(&s.inner.wait_queue), vec![1]);
    assert_eq!(ts[1].inner.need_vec_semaphore[1], 1);
    assert_eq!(ts[1].inner.task_status, TaskStatus::Blocked);
    s.up(&mut ts, 0, &mut p.inner, &mut ready);
    assert_eq!(s.inner.count, 0);
    assert!(s.inner.wait_queue.is_empty());
    assert_eq!(waiting(&ready.ready_queue), vec![1]);
    assert_eq!(ts[0].inner.alloc_vec_semaphore[1], 0);
    assert_eq!(ts[1].inner.alloc_vec_semaphore[1], 1);
    assert_eq!(ts[1].inner.need_vec_semaphore[1], 0);
    assert_eq!(ts[1].inner.task_status, TaskStatus::Ready);
    assert_eq!(p.inner.semaphore_available_vec[1], 0);
}

#[test]
fn up_without_waiter_makes_an_instance_available() {
    let mut ts = tasks(1);
    let mut p = process_with(0, 0, 2);
    let mut ready = TaskManager::new();
    let mut s = Semaphore::new(2);
    s.down(&mut ts, 0, &mut p.inner);
    assert_eq!(s.inner.count, 1);
    assert_eq!(p.inner.semaphore_available_vec[0], 1);
    s.up(&mut ts, 0, &mut p.inner, &mut ready);
    assert_eq!(s.inner.count, 2);
    assert_eq!(p.inner.semaphore_available_vec[0], 2);
    assert_eq!(ts[0].inner.alloc_vec_semaphore[0], 0);
    assert_eq!(ready.len(), 0);
}

#[test]
fn semaphore_is_not_capped_at_its_initial_count() {
    let mut ts = tasks(1);
    let mut p = process_with(0, 0, 1);
    let mut ready = TaskManager::new();
    let mut s = Semaphore::new(1);
    ts[0].inner.alloc_vec_semaphore[0] = 2;
    s.up(&mut ts, 0, &mut p.inner, &mut ready);
    s.up(&mut ts, 0, &mut p.inner, &mut ready);
    assert_eq!(s.inner.count, 3);
    assert_eq!(p.inner.semaphore_available_vec[0], 3);
    assert_eq!(ts[0].inner.alloc_vec_semaphore[0], 0);
}

#[test]
fn semaphore_waiters_are_woken_in_order() {
    let mut ts = tasks(4);
    let mut p = process_with(0, 0, 1);
    let mut ready = TaskManager::new();
    let mut s = Semaphore::new(1);
    s.down(&mut ts, 3, &mut p.inner);
    s.down(&mut ts, 1, &mut p.inner);
    s.down(&mut ts, 0, &mut p.inner);
    s.down(&mut ts, 2, &mut p.inner);
    assert_eq!(s.inner.count, -3);
    assert_eq!(waiting(&s.inner.wait_queue), vec![1, 0, 2]);
    s.up(&mut ts, 3, &mut p.inner, &mut ready);
    s.up(&mut ts, 1, &mut p.inner, &mut ready);
    s.up(&mut ts, 0, &mut p.inner, &mut ready);
    assert_eq!(waiting(&ready.ready_queue), vec![1, 0, 2]);
    assert_eq!(s.inner.count, 0);
}

#[test]
fn semaphore_calls_conserve_instances() {
    let mut ts = tasks(3);
    let mut p = process_with(0, 0, 2);
    let mut ready = TaskManager::new();
    let mut s = Semaphore::new(2);
    let total = semaphore_balance(&p, &ts, 0);
    assert_eq!(total, 2);
    s.down(&mut ts, 0, &mut p.inner);
    assert_eq!(semaphore_balance(&p, &ts, 0), total);
    s.down(&mut ts, 1, &mut p.inner);
    assert_eq!(semaphore_balance(&p, &ts, 0), total);
    s.down(&mut ts, 2, &mut p.inner);
    assert_eq!(semaphore_balance(&p, &ts, 0), total);
    s.up(&mut ts, 0, &mut p.inner, &mut ready);
    assert_eq!(semaphore_balance(&p, &ts, 0), total);
    s.up(&mut ts, 1, &mut p.inner, &mut ready);
    assert_eq!(semaphore_balance(&p, &ts, 0), total);
    s.up(&mut ts, 2, &mut p.inner, &mut ready);
    assert_eq!(semaphore_balance(&p, &ts, 0), total);
    assert_eq!(p.inner.semaphore_available_vec[0], 2);
    assert_eq!(s.inner.count, 2);
}

#[test]
fn release_by_a_task_that_holds_nothing_is_not_refused() {
    let mut ts = tasks(2);
    let mut p = process_with(4, 0, 0);
    let mut ready = TaskManager::new();
    let mut s = Semaphore::new(0);
    ts[0].inner.set_up_semaphore_id(4);
    assert_eq!(ts[0].inner.alloc_vec_semaphore[4], 0);
    s.up(&mut ts, 0, &mut p.inner, &mut ready);
    assert_eq!(s.inner.count, 1);
    assert_eq!(p.inner.semaphore_available_vec[4], 1);
    assert_eq!(ts[0].inner.alloc_vec_semaphore[4], 0);
    assert_eq!(ready.len(), 0);
    assert!(s.inner.wait_queue.is_empty());
    s.up(&mut ts, 0, &mut p.inner, &mut ready);
    assert_eq!(s.inner.count, 2);
    assert_eq!(p.inner.semaphore_available_vec[4], 2);
    assert_eq!(ts[0].inner.alloc_vec_semaphore[4], 0);
    ts[1].inner.set_semaphore_id(4);
    assert_eq!(s.down(&mut ts, 1, &mut p.inner), LockOutcome::Acquired);
    assert_eq!(ts[1].inner.alloc_vec_semaphore[4], 1);
    assert_eq!(p.inner.semaphore_available_vec[4], 1);
}

#[test]
fn signal_without_holding_wakes_the_waiter() {
    let mut ts = tasks(2);
    let mut p = process_with(0, 0, 0);
    let mut ready = TaskManager::new();
    let mut s = Semaphore::new(0);
    assert_eq!(s.down(&mut ts, 1, &mut p.inner), LockOutcome::Blocked);
    assert_eq!(s.inner.count, -1);
    s.up(&mut ts, 0, &mut p.inner, &mut ready);
    assert_eq!(s.inner.count, 0);
    assert_eq!(waiting(&ready.ready_queue), vec![1]);
    assert_eq!(ts[0].inner.alloc_vec_semaphore[0], 0);
    assert_eq!(ts[1].inner.alloc_vec_semaphore[0], 1);
    assert_eq!(ts[1].inner.need_vec_semaphore[0], 0);
    assert_eq!(p.inner.semaphore_available_vec[0], 0);
}
