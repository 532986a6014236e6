//! The part of the file system calls that the kernel core decides: which
//! open file a descriptor names, and where in physical memory the buffer
//! of the caller lies.

use vstd::prelude::*;
use vstd::bytes::{spec_u32_to_le_bytes, spec_u64_to_le_bytes, u32_to_le_bytes, u64_to_le_bytes};
use crate::frame::PhysMemory;
use crate::page_table::{table_wf, token_root};
use crate::slots::{find_free, first_free};
use crate::syscall::SyscallWrite;
use crate::user_memory::{byte_ranges, translated_byte_buffer, PhysRange, UserWrite};

verus! {

/// The open files of a process. Entry `fd` holds the handle of the file
/// that descriptor `fd` names, or nothing if the descriptor is free.
pub struct FdTable {
    pub entries: Vec<Option<usize>>,
}

/// What is to be done for a read or a write.
#[derive(Debug, PartialEq, Eq)]
pub enum FileRequest {
    /// The descriptor names no open file.
    BadDescriptor,
    /// Transfer between the file and these physical ranges, in order.
    Transfer { file: usize, buffers: Vec<PhysRange> },
}

/// The table after descriptor `fd` has been given `value`; a descriptor
/// just past the end extends the table.
pub open spec fn with_entry(entries: Seq<Option<usize>>, fd: int, value: Option<usize>) -> Seq<
    Option<usize>,
> {
    if fd == entries.len() {
        entries.push(value)
    } else {
        entries.update(fd, value)
    }
}

impl FdTable {
    /// A table without descriptors.
    pub fn new() -> (r: Self)
        ensures
            r.entries@.len() == 0,
    {
        FdTable { entries: Vec::new() }
    }

    /// Finds the least free descriptor, extending the table by a free
    /// one if all are taken.
    pub fn alloc_fd(&mut self) -> (fd: usize)
        ensures
            fd == first_free(old(self).entries@, 0),
            fd <= old(self).entries@.len(),
            fd < old(self).entries@.len() ==> old(self).entries@[fd as int] is None,
            forall|k: int| 0 <= k < fd ==> old(self).entries@[k] is Some,
            fd < final(self).entries@.len(),
            final(self).entries@ == with_entry(old(self).entries@, fd as int, None),
    {
        let fd: usize = find_free(&self.entries);
        if fd < self.entries.len() {
            assert(self.entries@ =~= with_entry(self.entries@, fd as int, None));
            return fd;
        }
        self.entries.push(None);
        fd
    }
}

/// Enters a file that has been opened into the table. `inode` is the
/// handle of the file, or nothing if it could not be opened. Returns the
/// least free descriptor, which then names the file, or -1 if there is no
/// file.
pub fn sys_open(fd_table: &mut FdTable, inode: Option<usize>) -> (r: isize)
    requires
        old(fd_table).entries@.len() < isize::MAX,
    ensures
        inode is None ==> r == -1 && final(fd_table).entries@ == old(fd_table).entries@,
        inode is Some ==> r == first_free(old(fd_table).entries@, 0) && final(fd_table).entries@
            == with_entry(old(fd_table).entries@, r as int, inode),
{
    match inode {
        Some(file) => {
            let ghost before = fd_table.entries@;
            let fd: usize = fd_table.alloc_fd();
            fd_table.entries[fd] = Some(file);
            assert(fd_table.entries@ =~= with_entry(before, fd as int, inode));
            fd as isize
        },
        None => -1,
    }
}

/// Closes descriptor `fd`. Returns 0 and frees the descriptor if it named
/// an open file; returns -1 and changes nothing otherwise.
pub fn sys_close(fd_table: &mut FdTable, fd: usize) -> (r: isize)
    ensures
        fd < old(fd_table).entries@.len() && old(fd_table).entries@[fd as int] is Some ==> r == 0
            && final(fd_table).entries@ == old(fd_table).entries@.update(fd as int, None),
        !(fd < old(fd_table).entries@.len() && old(fd_table).entries@[fd as int] is Some) ==> r == -1
            && final(fd_table).entries@ == old(fd_table).entries@,
{
    if fd >= fd_table.entries.len() {
        return -1;
    }
    if fd_table.entries[fd].is_none() {
        return -1;
    }
    fd_table.entries[fd] = None;
    0
}

/// Whether descriptor `fd` names an open file.
pub open spec fn is_open(entries: Seq<Option<usize>>, fd: usize) -> bool {
    fd < entries.len() && entries[fd as int] is Some
}

impl FdTable {
    /// The file that descriptor `fd` names, if it names one.
    pub fn file_of(&self, fd: usize) -> (r: Option<usize>)
        ensures
            r == (if is_open(self.entries@, fd) {
                self.entries@[fd as int]
            } else {
                None
            }),
    {
        if fd >= self.entries.len() {
            return None;
        }
        self.entries[fd]
    }
}

/// Resolves descriptor and buffer of a read or write.
fn resolve(mem: &PhysMemory, token: u64, fd_table: &FdTable, fd: usize, buf: usize, len: usize) -> (r:
    FileRequest)
    requires
        mem.wf(),
        table_wf(mem@, token_root(token)),
        buf + len <= usize::MAX,
        is_open(fd_table.entries@, fd) ==> byte_ranges(mem@, token_root(token), buf as int, buf + len) is Some,
    ensures
        match r {
            FileRequest::BadDescriptor => !is_open(fd_table.entries@, fd),
            FileRequest::Transfer { file, buffers } => {
                &&& is_open(fd_table.entries@, fd)
                &&& Some(file) == fd_table.entries@[fd as int]
                &&& Some(buffers@) == byte_ranges(mem@, token_root(token), buf as int, buf + len)
            },
        },
{
    match fd_table.file_of(fd) {
        Some(file) => FileRequest::Transfer { file, buffers: translated_byte_buffer(mem, token, buf, len) },
        None => FileRequest::BadDescriptor,
    }
}

/// Prepares a read from descriptor `fd` into the `len` bytes at `buf` of
/// the address space named by `token`: the file to read from and the
/// physical ranges to fill. A descriptor that names no open file is
/// refused. For one that does, the buffer must be mapped.
pub fn sys_read(mem: &PhysMemory, token: u64, fd_table: &FdTable, fd: usize, buf: usize, len: usize) -> (r:
    FileRequest)
    requires
        mem.wf(),
        table_wf(mem@, token_root(token)),
        buf + len <= usize::MAX,
        is_open(fd_table.entries@, fd) ==> byte_ranges(mem@, token_root(token), buf as int, buf + len) is Some,
    ensures
        match r {
            FileRequest::BadDescriptor => !is_open(fd_table.entries@, fd),
            FileRequest::Transfer { file, buffers } => {
                &&& is_open(fd_table.entries@, fd)
                &&& Some(file) == fd_table.entries@[fd as int]
                &&& Some(buffers@) == byte_ranges(mem@, token_root(token), buf as int, buf + len)
            },
        },
{
    resolve(mem, token, fd_table, fd, buf, len)
}

/// Prepares a write to descriptor `fd` of the `len` bytes at `buf` of the
/// address space named by `token`: the file to write to and the physical
/// ranges to take the bytes from. A descriptor that names no open file is
/// refused. For one that does, the buffer must be mapped.
pub fn sys_write(mem: &PhysMemory, token: u64, fd_table: &FdTable, fd: usize, buf: usize, len: usize) -> (r:
    FileRequest)
    requires
        mem.wf(),
        table_wf(mem@, token_root(token)),
        buf + len <= usize::MAX,
        is_open(fd_table.entries@, fd) ==> byte_ranges(mem@, token_root(token), buf as int, buf + len) is Some,
    ensures
        match r {
            FileRequest::BadDescriptor => !is_open(fd_table.entries@, fd),
            FileRequest::Transfer { file, buffers } => {
                &&& is_open(fd_table.entries@, fd)
                &&& Some(file) == fd_table.entries@[fd as int]
                &&& Some(buffers@) == byte_ranges(mem@, token_root(token), buf as int, buf + len)
            },
        },
{
    resolve(mem, token, fd_table, fd, buf, len)
}

/// The size in bytes of the part of a file's status that is stored: the
/// device, the inode number, the kind and the number of links.
pub const STAT_SIZE: usize = 24;

/// The status of a file as it is stored: device 0 and the inode number,
/// one little-endian 64-bit word each, then the kind and the number of
/// links, one little-endian 32-bit word each.
pub open spec fn stat_bytes(ino: u64, mode: u32, nlink: u32) -> Seq<u8> {
    spec_u64_to_le_bytes(0) + spec_u64_to_le_bytes(ino) + spec_u32_to_le_bytes(mode) + spec_u32_to_le_bytes(
        nlink,
    )
}

/// Stores the status of the file that descriptor `fd` names at address
/// `st` of the address space named by `token`. `ino`, `mode` and `nlink`
/// are the inode number, the kind and the number of links of that file.
/// Returns -1 without a store if the descriptor names no open file; else
/// 0 with the store to be carried out, for which the destination must be
/// mapped.
pub fn sys_fstat(
    mem: &PhysMemory,
    token: u64,
    fd_table: &FdTable,
    fd: usize,
    st: usize,
    ino: u64,
    mode: u32,
    nlink: u32,
) -> (r: SyscallWrite)
    requires
        mem.wf(),
        table_wf(mem@, token_root(token)),
        st + STAT_SIZE <= usize::MAX,
        is_open(fd_table.entries@, fd) ==> byte_ranges(mem@, token_root(token), st as int, st + STAT_SIZE) is Some,
    ensures
        !is_open(fd_table.entries@, fd) ==> r.result == -1 && r.write is None,
        is_open(fd_table.entries@, fd) ==> {
            &&& r.result == 0
            &&& r.write is Some
            &&& Some(r.write.unwrap().ranges@) == byte_ranges(
                mem@,
                token_root(token),
                st as int,
                st + STAT_SIZE,
            )
            &&& r.write.unwrap().bytes@ == stat_bytes(ino, mode, nlink)
        },
{
    if fd_table.file_of(fd).is_none() {
        return SyscallWrite { result: -1, write: None };
    }
    let ranges = translated_byte_buffer(mem, token, st, STAT_SIZE);
    let mut bytes = u64_to_le_bytes(0);
    let mut ino_word = u64_to_le_bytes(ino);
    bytes.append(&mut ino_word);
    let mut mode_word = u32_to_le_bytes(mode);
    bytes.append(&mut mode_word);
    let mut nlink_word = u32_to_le_bytes(nlink);
    bytes.append(&mut nlink_word);
    SyscallWrite { result: 0, write: Some(UserWrite { ranges, bytes }) }
}

/// Gives a file a second name. `found` is the file that bears the old
/// name, if there is one, and `linked` what the file system answered to
/// the request to link, which is made only if the file was found. Returns
/// that answer, or -1 if no file bears the old name.
pub fn sys_linkat(found: Option<usize>, linked: isize) -> (r: isize)
    ensures
        r == (if found is Some {
            linked
        } else {
            -1isize
        }),
{
    match found {
        Some(_) => linked,
        None => -1,
    }
}

/// Takes a name from a file. `found` is the file that bears the name, if
/// there is one, and `unlinked` what the file system answered to the
/// request to unlink, which is made only if the file was found. Returns
/// that answer, or -1 if no file bears the name.
pub fn sys_unlinkat(found: Option<usize>, unlinked: isize) -> (r: isize)
    ensures
        r == (if found is Some {
            unlinked
        } else {
            -1isize
        }),
{
    match found {
        Some(_) => unlinked,
        None => -1,
    }
}

/// How a transfer that is made piece by piece goes on.
#[derive(Clone, Copy, Debug, PartialEq, Eq, Structural)]
pub enum TransferStep {
    /// The transfer is over; so many bytes were moved in all.
    Done(usize),
    /// So many bytes have been moved in all; ask for the rest.
    Continue(usize),
}

/// Decides how a transfer of `buf_len` bytes goes on after `done` bytes
/// had been moved and the last request moved `moved` more: it is over
/// when a request moves nothing or the buffer is used up.
pub fn next_transfer(buf_len: usize, done: usize, moved: usize) -> (r: TransferStep)
    requires
        done < buf_len,
        moved <= buf_len - done,
    ensures
        r == (if moved == 0 {
            TransferStep::Done(done)
        } else if done + moved < buf_len {
            TransferStep::Continue((done + moved) as usize)
        } else {
            TransferStep::Done((done + moved) as usize)
        }),
{
    if moved == 0 {
        TransferStep::Done(done)
    } else if done + moved < buf_len {
        TransferStep::Continue(done + moved)
    } else {
        TransferStep::Done(done + moved)
    }
}

/// The suffix under which a program may be stored.
pub open spec fn program_suffix() -> Seq<u8> {
    seq![46u8, 101u8, 108u8, 102u8]
}

/// Whether a directory entry named `entry` is what a lookup of `name`
/// finds: the names are equal, or the entry has the program suffix
/// `.elf` after the name.
pub fn name_matches(entry: &Vec<u8>, name: &Vec<u8>) -> (r: bool)
    requires
        name@.len() + 4 <= usize::MAX,
    ensures
        r == (entry@ == name@ || entry@ == name@ + program_suffix()),
{
    let n: usize = name.len();
    if entry.len() != n && entry.len() != n + 4 {
        return false;
    }
    let mut i: usize = 0;
    while i < n
        invariant
            i <= n,
            n == name@.len(),
            entry@.len() == n || entry@.len() == n + 4,
            forall|k: int| 0 <= k < i ==> entry@[k] == name@[k],
        decreases n - i,
    {
        if entry[i] != name[i] {
            assert(entry@ != name@);
            assert((name@ + program_suffix())[i as int] == name@[i as int]);
            return false;
        }
        i = i + 1;
    }
    if entry.len() == n {
        assert(entry@ =~= name@);
        return true;
    }
    let ok = entry[n] == 46 && entry[n + 1] == 101 && entry[n + 2] == 108 && entry[n + 3] == 102;
    proof {
        let want = name@ + program_suffix();
        if ok {
            assert(entry@ =~= want);
        } else {
            assert(want[n as int] == 46 && want[n + 1] == 101 && want[n + 2] == 108 && want[n + 3] == 102);
        }
    }
    ok
}

} // verus!
