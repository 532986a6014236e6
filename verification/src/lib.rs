//! Kernel core of a small teaching operating system for a RISC-V class
//! machine: address translation, stride scheduling, and blocking
//! synchronisation primitives with per-task and per-process resource
//! bookkeeping.
//!
//! The kernel state is held in plain tables. A task is named by its index
//! in the task table, a process by its index in the process table, and
//! every operation takes the tables it works on by exclusive reference,
//! so that no two kernel paths can touch them at once.
//!
//! * [`address`], [`frame`], [`page_table`]: page numbers, the frames that
//!   hold page tables, and the three-level address translator.
//! * [`isolation`]: mapping or unmapping a page leaves all others alone.
//! * [`user_memory`], [`memory`]: access to buffers of a user program
//!   across page boundaries, and mapping of regions on request.
//! * [`task`], [`process`], [`manager`], [`kernel`]: task control blocks,
//!   process state, the ready queue with stride selection, and the state
//!   of the kernel as a whole.
//! * [`stride`], [`lifecycle`]: what selection guarantees, and what every
//!   step keeps true of the ready queue and the wait queues.
//! * [`mutex`], [`semaphore`], [`accounting`]: the primitives, and the
//!   conservation of the instances they hand out.
//! * [`syscall`], [`sync_call`], [`fs_call`], [`slots`]: the system calls.
//! * [`ramfs`]: a file system that lives in memory.
//! * [`config`]: the constants.

pub mod accounting;
pub mod address;
pub mod config;
pub mod frame;
pub mod fs_call;
pub mod isolation;
pub mod kernel;
pub mod lifecycle;
pub mod manager;
pub mod memory;
pub mod mutex;
pub mod page_table;
pub mod process;
pub mod ramfs;
pub mod semaphore;
pub mod slots;
pub mod stride;
pub mod sync_call;
pub mod syscall;
pub mod task;
pub mod user_memory;
