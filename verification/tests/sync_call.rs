use kernel_core::address::PhysPageNum;
use kernel_core::kernel::Kernel;
use kernel_core::mutex::{LockOutcome, MutexBlocking};
use kernel_core::process::ProcessControlBlock;
use kernel_core::semaphore::Semaphore;
use kernel_core::slots::find_free;
use kernel_core::sync_call::{
    sys_mutex_create, sys_mutex_lock, sys_mutex_unlock, sys_semaphore_create, sys_semaphore_down,
    sys_semaphore_up,
};
use kernel_core::syscall::sys_yield;
use kernel_core::task::{KernelStack, TaskControlBlock, TaskStatus, TaskUserRes};

fn boot(tasks: usize) -> Kernel {
    let mut k = Kernel::new();
    let p = k.add_process(ProcessControlBlock::new(0, 0));
    for tid in 0..tasks {
        let t = TaskControlBlock::new(
            p,
            TaskUserRes { tid, ustack_base: 0 },
            PhysPageNum(0),
            KernelStack(tid),
        );
        k.add_task(t);
    }
    assert_eq!(k.run_next(), Some(0));
    k
}

fn ready(k: &Kernel) -> Vec<usize> {
    k.manager.ready_queue.iter().copied().collect()
}

#[test]
fn find_free_takes_the_least_free_slot() {
    assert_eq!(find_free::<u8>(&vec![]), 0);
    assert_eq!(find_free(&vec![Some(1), None, None]), 1);
    assert_eq!(find_free(&vec![Some(1), Some(2)]), 2);
}

#[test]
fn created_mutex_has_one_instance() {
    let mut k = boot(1);
    let mut mutexes: Vec<Option<MutexBlocking>> = Vec::new();
    assert_eq!(sys_mutex_create(&mut mutexes, &mut k.processes[0].inner), 0);
    assert_eq!(sys_mutex_create(&mut mutexes, &mut k.processes[0].inner), 1);
    assert_eq!(mutexes.len(), 2);
    assert!(!mutexes[1].as_ref().unwrap().inner.locked);
    assert_eq!(&k.processes[0].inner.mutex_available_vec[0..3], &[1, 1, 0]);
    mutexes[0] = None;
    assert_eq!(sys_mutex_create(&mut mutexes, &mut k.processes[0].inner), 0);
    assert_eq!(mutexes.len(), 2);
}

#[test]
fn mutex_table_is_bounded_by_the_bookkeeping() {
    let mut k = boot(1);
    let mut mutexes: Vec<Option<MutexBlocking>> = Vec::new();
    for id in 0..20 {
        assert_eq!(sys_mutex_create(&mut mutexes, &mut k.processes[0].inner), id);
    }
    assert_eq!(sys_mutex_create(&mut mutexes, &mut k.processes[0].inner), -1);
    assert_eq!(mutexes.len(), 20);
    let mut semaphores: Vec<Option<Semaphore>> = Vec::new();
    assert_eq!(sys_semaphore_create(&mut semaphores, &mut k.processes[0].inner, usize::MAX), -1);
    assert!(semaphores.is_empty());
}

#[test]
fn contended_mutex_parks_and_hands_over() {
    let mut k = boot(2);
    let mut mutexes: Vec<Option<MutexBlocking>> = Vec::new();
    let id = sys_mutex_create(&mut mutexes, &mut k.processes[0].inner) as usize;
    let m = mutexes[id].as_mut().unwrap();
    assert_eq!(sys_mutex_lock(&mut k, m, id), LockOutcome::Acquired);
    assert_eq!(k.current, Some(0));
    assert_eq!(k.tasks[0].inner.mutex_id, id);
    assert_eq!(k.processes[0].inner.mutex_available_vec[id], 0);
    sys_yield(&mut k);
    assert_eq!(k.current, Some(1));
    assert_eq!(sys_mutex_lock(&mut k, m, id), LockOutcome::Blocked);
    assert_eq!(k.tasks[1].inner.task_status, TaskStatus::Blocked);
    assert_eq!(k.tasks[1].inner.need_vec_mutex[id], 1);
    assert_eq!(k.current, Some(0));
    assert_eq!(k.tasks[0].inner.task_status, TaskStatus::Running);
    assert!(ready(&k).is_empty());
    assert_eq!(sys_mutex_unlock(&mut k, m, id), 0);
    assert!(m.inner.locked);
    assert_eq!(ready(&k), vec![1]);
    assert_eq!(k.tasks[1].inner.task_status, TaskStatus::Ready);
    assert_eq!(k.tasks[1].inner.alloc_vec_mutex[id], 1);
    assert_eq!(k.tasks[1].inner.need_vec_mutex[id], 0);
    assert_eq!(k.tasks[0].inner.alloc_vec_mutex[id], 0);
    assert_eq!(k.processes[0].inner.mutex_available_vec[id], 0);
    sys_yield(&mut k);
    assert_eq!(k.current, Some(1));
    assert_eq!(sys_mutex_unlock(&mut k, m, id), 0);
    assert!(!m.inner.locked);
    assert_eq!(k.processes[0].inner.mutex_available_vec[id], 1);
}

#[test]
fn parked_task_leaves_the_processor_idle_when_alone() {
    let mut k = boot(1);
    let mut m = MutexBlocking::new();
    k.processes[0].inner.mutex_available_vec[0] = 1;
    m.inner.locked = true;
    assert_eq!(sys_mutex_lock(&mut k, &mut m, 0), LockOutcome::Blocked);
    assert_eq!(k.current, None);
    assert!(ready(&k).is_empty());
}

#[test]
fn semaphore_of_one_serves_two_tasks_in_turn() {
    let mut k = boot(2);
    let mut semaphores: Vec<Option<Semaphore>> = Vec::new();
    let id = sys_semaphore_create(&mut semaphores, &mut k.processes[0].inner, 1) as usize;
    assert_eq!(id, 0);
    assert_eq!(k.processes[0].inner.semaphore_available_vec[id], 1);
    let s = semaphores[id].as_mut().unwrap();
    assert_eq!(sys_semaphore_down(&mut k, s, id), LockOutcome::Acquired);
    assert_eq!(s.inner.count, 0);
    sys_yield(&mut k);
    assert_eq!(k.current, Some(1));
    assert_eq!(sys_semaphore_down(&mut k, s, id), LockOutcome::Blocked);
    assert_eq!(s.inner.count, -1);
    assert_eq!(k.current, Some(0));
    assert_eq!(sys_semaphore_up(&mut k, s, id), 0);
    assert_eq!(s.inner.count, 0);
    assert!(s.inner.wait_queue.is_empty());
    assert_eq!(ready(&k), vec![1]);
    assert_eq!(k.tasks[0].inner.alloc_vec_semaphore[id], 0);
    assert_eq!(k.tasks[1].inner.alloc_vec_semaphore[id], 1);
    assert_eq!(k.tasks[1].inner.need_vec_semaphore[id], 0);
    assert_eq!(k.processes[0].inner.semaphore_available_vec[id], 0);
    assert_eq!(k.tasks[0].inner.unlock_semaphore_id, id);
}

fn ready_queue_is_exact(k: &Kernel) -> bool {
    let q = ready(k);
    let distinct = q.iter().all(|t| q.iter().filter(|u| *u == t).count() == 1);
    let all_ready = q.iter().all(|t| k.tasks[*t].inner.task_status == TaskStatus::Ready);
    let none_missing = (0..k.tasks.len())
        .all(|t| k.tasks[t].inner.task_status != TaskStatus::Ready || q.contains(&t));
    let running = k.current.map_or(true, |c| k.tasks[c].inner.task_status == TaskStatus::Running);
    distinct && all_ready && none_missing && running
}

#[test]
fn ready_queue_holds_exactly_the_ready_tasks() {
    let mut k = boot(3);
    assert!(ready_queue_is_exact(&k));
    let mut m = MutexBlocking::new();
    k.processes[0].inner.mutex_available_vec[0] = 1;
    assert_eq!(sys_mutex_lock(&mut k, &mut m, 0), LockOutcome::Acquired);
    assert!(ready_queue_is_exact(&k));
    sys_yield(&mut k);
    assert!(ready_queue_is_exact(&k));
    assert_eq!(sys_mutex_lock(&mut k, &mut m, 0), LockOutcome::Blocked);
    assert!(ready_queue_is_exact(&k));
    assert_eq!(sys_mutex_lock(&mut k, &mut m, 0), LockOutcome::Blocked);
    assert!(ready_queue_is_exact(&k));
    assert_eq!(k.current, Some(0));
    sys_mutex_unlock(&mut k, &mut m, 0);
    assert!(ready_queue_is_exact(&k));
    kernel_core::syscall::sys_exit(&mut k, 0);
    assert!(ready_queue_is_exact(&k));
    assert_eq!(k.run_next(), Some(1));
    assert!(ready_queue_is_exact(&k));
    sys_mutex_unlock(&mut k, &mut m, 0);
    assert!(ready_queue_is_exact(&k));
    assert_eq!(ready(&k), vec![2]);
}
