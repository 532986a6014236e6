//! Constants shared by the whole kernel core.

use vstd::prelude::*;

verus! {

/// Number of bits of the offset inside a page.
pub const PAGE_SIZE_BITS: usize = 12;

/// Size of a page in bytes.
pub const PAGE_SIZE: usize = 4096;

/// Number of entries in one page-table frame.
pub const PTE_PER_FRAME: usize = 512;

/// Number of system calls whose use is counted per task.
pub const MAX_SYSCALL_NUM: usize = 500;

/// The stride of a task is this value divided by its priority.
pub const BIG_STRIDE: isize = 65536;

/// Smallest priority a task may ask for.
pub const MIN_PRIORITY: isize = 2;

/// Number of resource slots each bookkeeping vector is created with.
pub const RESOURCE_SLOTS: usize = 20;

} // verus!
