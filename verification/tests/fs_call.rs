use kernel_core::address::{PhysPageNum, VirtPageNum};
use kernel_core::frame::PhysMemory;
use kernel_core::fs_call::{
    name_matches, next_transfer, sys_close, sys_fstat, sys_linkat, sys_open, sys_read, sys_unlinkat,
    sys_write, FdTable, FileRequest, TransferStep,
};
use kernel_core::kernel::Kernel;
use kernel_core::page_table::{PTEFlags, PageTable};
use kernel_core::process::ProcessControlBlock;
use kernel_core::syscall::{sys_exec, sys_getpid, sys_spawn};
use kernel_core::task::{KernelStack, TaskControlBlock, TaskUserRes};
use kernel_core::user_memory::{buffer_mapped, PhysRange};

fn space() -> (PhysMemory, PageTable) {
    let mut mem = PhysMemory::new(64);
    let mut pt = PageTable::new(&mut mem);
    pt.map(&mut mem, VirtPageNum(1), PhysPageNum(100), PTEFlags { bits: PTEFlags::R });
    (mem, pt)
}

#[test]
fn open_takes_the_least_free_descriptor() {
    let mut t = FdTable::new();
    assert_eq!(sys_open(&mut t, Some(10)), 0);
    assert_eq!(sys_open(&mut t, Some(11)), 1);
    assert_eq!(sys_open(&mut t, Some(12)), 2);
    assert_eq!(sys_close(&mut t, 1), 0);
    assert_eq!(t.entries, vec![Some(10), None, Some(12)]);
    assert_eq!(sys_open(&mut t, Some(13)), 1);
    assert_eq!(t.entries, vec![Some(10), Some(13), Some(12)]);
    assert_eq!(sys_open(&mut t, None), -1);
    assert_eq!(t.entries.len(), 3);
}

#[test]
fn alloc_fd_extends_a_full_table() {
    let mut t = FdTable { entries: vec![Some(1), Some(2)] };
    assert_eq!(t.alloc_fd(), 2);
    assert_eq!(t.entries, vec![Some(1), Some(2), None]);
    assert_eq!(t.alloc_fd(), 2);
    assert_eq!(t.entries.len(), 3);
}

#[test]
fn close_refuses_what_is_not_open() {
    let mut t = FdTable { entries: vec![Some(1), None] };
    assert_eq!(sys_close(&mut t, 2), -1);
    assert_eq!(sys_close(&mut t, 1), -1);
    assert_eq!(sys_close(&mut t, 0), 0);
    assert_eq!(sys_close(&mut t, 0), -1);
    assert_eq!(t.entries, vec![None, None]);
}

#[test]
fn read_and_write_resolve_descriptor_and_buffer() {
    let (mem, pt) = space();
    let t = FdTable { entries: vec![None, Some(7)] };
    let ranges = vec![PhysRange { ppn: PhysPageNum(100), start: 16, end: 48 }];
    assert_eq!(
        sys_read(&mem, pt.token(), &t, 1, 4096 + 16, 32),
        FileRequest::Transfer { file: 7, buffers: ranges.clone() }
    );
    assert_eq!(
        sys_write(&mem, pt.token(), &t, 1, 4096 + 16, 32),
        FileRequest::Transfer { file: 7, buffers: ranges }
    );
    assert_eq!(sys_read(&mem, pt.token(), &t, 0, 4096, 8), FileRequest::BadDescriptor);
    assert_eq!(sys_write(&mem, pt.token(), &t, 2, 4096, 8), FileRequest::BadDescriptor);
    assert!(!buffer_mapped(&mem, pt.token(), 4096 + 4090, 8));
    assert_eq!(sys_write(&mem, pt.token(), &t, 0, 0, 8), FileRequest::BadDescriptor);
    assert_eq!(t.file_of(1), Some(7));
    assert_eq!(t.file_of(0), None);
    assert_eq!(t.file_of(2), None);
}

#[test]
fn fstat_stores_inode_kind_and_links() {
    let (mem, pt) = space();
    let t = FdTable { entries: vec![None, Some(7)] };
    let r = sys_fstat(&mem, pt.token(), &t, 1, 4096 + 8, 0x0102, 0o100000, 3);
    assert_eq!(r.result, 0);
    let w = r.write.unwrap();
    assert_eq!(w.ranges, vec![PhysRange { ppn: PhysPageNum(100), start: 8, end: 32 }]);
    let mut expected = 0u64.to_le_bytes().to_vec();
    expected.extend_from_slice(&0x0102u64.to_le_bytes());
    expected.extend_from_slice(&0o100000u32.to_le_bytes());
    expected.extend_from_slice(&3u32.to_le_bytes());
    assert_eq!(w.bytes, expected);
    let r = sys_fstat(&mem, pt.token(), &t, 0, 0, 1, 2, 3);
    assert_eq!(r.result, -1);
    assert!(r.write.is_none());
    assert_eq!(sys_fstat(&mem, pt.token(), &t, 9, 4096, 1, 2, 3).result, -1);
}

#[test]
fn link_and_unlink_need_the_file() {
    assert_eq!(sys_linkat(Some(4), 0), 0);
    assert_eq!(sys_linkat(Some(4), -1), -1);
    assert_eq!(sys_linkat(None, 0), -1);
    assert_eq!(sys_unlinkat(Some(4), 0), 0);
    assert_eq!(sys_unlinkat(Some(4), -1), -1);
    assert_eq!(sys_unlinkat(None, 0), -1);
}

#[test]
fn transfer_ends_when_nothing_moves_or_the_buffer_is_full() {
    assert_eq!(next_transfer(10, 0, 4), TransferStep::Continue(4));
    assert_eq!(next_transfer(10, 4, 6), TransferStep::Done(10));
    assert_eq!(next_transfer(10, 4, 0), TransferStep::Done(4));
    assert_eq!(next_transfer(1, 0, 1), TransferStep::Done(1));
}

#[test]
fn lookup_accepts_the_program_suffix() {
    let name = b"hello".to_vec();
    assert!(name_matches(&b"hello".to_vec(), &name));
    assert!(name_matches(&b"hello.elf".to_vec(), &name));
    assert!(!name_matches(&b"hello.exe".to_vec(), &name));
    assert!(!name_matches(&b"hellp.elf".to_vec(), &name));
    assert!(!name_matches(&b"hell".to_vec(), &name));
    assert!(!name_matches(&b"hello.elf2".to_vec(), &name));
    assert!(name_matches(&b".elf".to_vec(), &vec![]));
    assert!(name_matches(&vec![], &vec![]));
}

fn boot() -> Kernel {
    let mut k = Kernel::new();
    let p = k.add_process(ProcessControlBlock::new(0, 5));
    let t = TaskControlBlock::new(p, TaskUserRes { tid: 0, ustack_base: 0 }, PhysPageNum(0), KernelStack(0));
    k.add_task(t);
    k.run_next();
    k
}

#[test]
fn spawn_needs_a_program() {
    let mut k = boot();
    let res = TaskUserRes { tid: 0, ustack_base: 0 };
    let r = sys_spawn(&mut k, None, res, PhysPageNum(1), KernelStack(1));
    assert_eq!(r.result, -1);
    assert!(r.write.is_none());
    assert_eq!(k.processes.len(), 1);
    assert_eq!(k.tasks.len(), 1);
    let r = sys_spawn(&mut k, Some(9), res, PhysPageNum(1), KernelStack(1));
    assert_eq!(r.result, 1);
    assert!(r.result != sys_getpid(&k));
    let w = r.write.unwrap();
    assert_eq!(w.ranges, vec![PhysRange { ppn: PhysPageNum(1), start: 80, end: 88 }]);
    assert_eq!(w.bytes, vec![0u8; 8]);
    assert_eq!(k.processes[1].inner.token, 9);
    assert_eq!(k.processes[0].inner.children, vec![1]);
    assert_eq!(k.manager.ready_queue.iter().copied().collect::<Vec<_>>(), vec![1]);
    assert_eq!(sys_getpid(&k), 0);
}

#[test]
fn exec_replaces_the_address_space() {
    let mut k = boot();
    assert_eq!(sys_exec(&mut k, None), -1);
    assert_eq!(k.processes[0].inner.token, 5);
    assert_eq!(sys_exec(&mut k, Some(77)), 0);
    assert_eq!(k.processes[0].inner.token, 77);
    assert_eq!(k.processes[0].getpid(), 0);
}
