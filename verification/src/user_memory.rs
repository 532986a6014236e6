//! Access to memory of another address space: a virtual byte range is
//! resolved, page by page, into the physical ranges that back it.

use vstd::prelude::*;
use vstd::bytes::{spec_u32_to_le_bytes, spec_u64_to_le_bytes, u32_to_le_bytes, u64_to_le_bytes};
use crate::address::{PhysPageNum, VirtAddr};
use crate::config::{MAX_SYSCALL_NUM, PAGE_SIZE};
use crate::frame::{FrameView, PhysMemory};
use crate::page_table::{table_wf, token_root, translation, PageTable, PageTableEntry};

verus! {

/// A run of bytes inside one physical frame: the bytes at offsets
/// `start..end` of frame `ppn`.
#[derive(Clone, Copy, Debug, PartialEq, Eq, Structural)]
pub struct PhysRange {
    pub ppn: PhysPageNum,
    pub start: usize,
    pub end: usize,
}

impl PhysRange {
    /// The number of bytes in the range.
    pub open spec fn spec_len(self) -> int {
        self.end - self.start
    }

    /// The number of bytes in the range.
    pub fn len(&self) -> (r: usize)
        requires
            self.start <= self.end,
        ensures
            r == self.spec_len(),
    {
        self.end - self.start
    }
}

/// The valid leaf entry that maps `vpn`; nothing if a table on the way is
/// absent or the leaf entry is not valid.
pub open spec fn mapping(m: Seq<FrameView>, root: u64, vpn: usize) -> Option<PageTableEntry> {
    match translation(m, root, vpn) {
        Some(e) => if e.spec_valid() {
            Some(e)
        } else {
            None
        },
        None => None,
    }
}

/// Where the chunk that begins at `start` ends: at the end of the page
/// that holds `start`, or at `end` if that comes first.
pub open spec fn chunk_end(start: int, end: int) -> int {
    let next = (start / 4096 + 1) * 4096;
    if next < end {
        next
    } else {
        end
    }
}

/// The physical ranges that back the virtual bytes `start..end`, in
/// ascending order of address and split at every page boundary; nothing if
/// one of the pages is not mapped.
#[verifier::opaque]
pub open spec fn byte_ranges(m: Seq<FrameView>, root: u64, start: int, end: int) -> Option<
    Seq<PhysRange>,
>
    decreases end - start,
{
    if start >= end || start < 0 {
        Some(Seq::empty())
    } else {
        let stop = chunk_end(start, end);
        match mapping(m, root, (start / 4096) as usize) {
            None => None,
            Some(e) => match byte_ranges(m, root, stop, end) {
                None => None,
                Some(rest) => Some(
                    seq![
                        PhysRange {
                            ppn: PhysPageNum(e.spec_ppn()),
                            start: (start % 4096) as usize,
                            end: (stop - (start / 4096) * 4096) as usize,
                        },
                    ] + rest,
                ),
            },
        }
    }
}

/// The number of bytes in a sequence of ranges.
pub open spec fn total_len(rs: Seq<PhysRange>) -> int
    decreases rs.len(),
{
    if rs.len() == 0 {
        0
    } else {
        rs[0].spec_len() + total_len(rs.drop_first())
    }
}

/// Resolves the `len` bytes at virtual address `ptr` of the address space
/// named by `token` into physical ranges, one per page touched; nothing if
/// one of the pages is not mapped.
fn resolve_byte_buffer(mem: &PhysMemory, token: u64, ptr: usize, len: usize) -> (r: Option<
    Vec<PhysRange>,
>)
    requires
        mem.wf(),
        table_wf(mem@, token_root(token)),
        ptr + len <= usize::MAX,
    ensures
        match r {
            Some(v) => byte_ranges(mem@, token_root(token), ptr as int, ptr + len) == Some(v@),
            None => byte_ranges(mem@, token_root(token), ptr as int, ptr + len) is None,
        },
{
    let page_table = PageTable::from_token(token);
    let ghost root = token_root(token);
    let mut start: usize = ptr;
    let end: usize = ptr + len;
    let mut v: Vec<PhysRange> = Vec::new();
    while start < end
        invariant
            mem.wf(),
            page_table.root_ppn.0 == root,
            root == token_root(token),
            table_wf(mem@, root),
            ptr <= start,
            end == ptr + len,
            byte_ranges(mem@, root, ptr as int, end as int) == (match byte_ranges(
                mem@,
                root,
                start as int,
                end as int,
            ) {
                None => None,
                Some(rest) => Some(v@ + rest),
            }),
        decreases end - start,
    {
        let start_va = VirtAddr(start);
        let vpn = start_va.floor();
        assert(vpn.0 == (start as int / 4096) as usize);
        let pte = match page_table.translate(mem, vpn) {
            Some(e) => e,
            None => {
                proof {
                    lemma_byte_ranges_fail(mem@, root, start as int, end as int);
                }
                return None;
            },
        };
        if !pte.is_valid() {
            proof {
                lemma_byte_ranges_fail(mem@, root, start as int, end as int);
            }
            return None;
        }
        assert(mapping(mem@, root, vpn.0) == Some(pte));
        let ppn = pte.ppn();
        let offset: usize = start_va.page_offset();
        let room: usize = PAGE_SIZE - offset;
        let left: usize = end - start;
        let take: usize = if room < left {
            room
        } else {
            left
        };
        let chunk = PhysRange { ppn, start: offset, end: offset + take };
        proof {
            lemma_byte_ranges_step(mem@, root, start as int, end as int, take as int);
            match byte_ranges(mem@, root, start + take, end as int) {
                None => {},
                Some(rest) => {
                    assert(v@ + (seq![chunk] + rest) =~= v@.push(chunk) + rest);
                },
            }
        }
        v.push(chunk);
        start = start + take;
    }
    proof {
        lemma_byte_ranges_empty(mem@, root, start as int, end as int);
        assert(v@ + Seq::<PhysRange>::empty() =~= v@);
    }
    Some(v)
}

/// Whether every page that the `len` bytes at virtual address `ptr` touch
/// is mapped in the address space named by `token`. A kernel path that is
/// about to reach into such a buffer asks this first: to translate a page
/// that is not mapped is a fault of the kernel, on which it halts.
pub fn buffer_mapped(mem: &PhysMemory, token: u64, ptr: usize, len: usize) -> (r: bool)
    requires
        mem.wf(),
        table_wf(mem@, token_root(token)),
        ptr + len <= usize::MAX,
    ensures
        r == byte_ranges(mem@, token_root(token), ptr as int, ptr + len) is Some,
{
    resolve_byte_buffer(mem, token, ptr, len).is_some()
}

/// Resolves the `len` bytes at virtual address `ptr` of the address space
/// named by `token` into physical ranges, one per page touched, in
/// ascending order of address. Every page of the buffer must be mapped.
pub fn translated_byte_buffer(mem: &PhysMemory, token: u64, ptr: usize, len: usize) -> (r: Vec<
    PhysRange,
>)
    requires
        mem.wf(),
        table_wf(mem@, token_root(token)),
        ptr + len <= usize::MAX,
        byte_ranges(mem@, token_root(token), ptr as int, ptr + len) is Some,
    ensures
        byte_ranges(mem@, token_root(token), ptr as int, ptr + len) == Some(r@),
        total_len(r@) == len,
{
    proof {
        lemma_byte_ranges_cover(mem@, token_root(token), ptr as int, ptr + len);
    }
    resolve_byte_buffer(mem, token, ptr, len).unwrap()
}

/// A chunk ends where the room left in its page, or the buffer, ends.
pub proof fn lemma_chunk_end(start: int, end: int)
    requires
        0 <= start < end,
    ensures
        start < chunk_end(start, end) <= end,
        chunk_end(start, end) - start == (if 4096 - start % 4096 < end - start {
            4096 - start % 4096
        } else {
            end - start
        }),
        chunk_end(start, end) - (start / 4096) * 4096 == start % 4096 + (chunk_end(start, end) - start),
{
}

/// The ranges of a buffer whose first page is mapped are the chunk that
/// lies in that page, followed by the ranges of what is left.
pub proof fn lemma_byte_ranges_step(m: Seq<FrameView>, root: u64, start: int, end: int, take: int)
    requires
        0 <= start < end,
        take == (if 4096 - start % 4096 < end - start {
            4096 - start % 4096
        } else {
            end - start
        }),
        mapping(m, root, (start / 4096) as usize) is Some,
    ensures
        byte_ranges(m, root, start, end) == (match byte_ranges(m, root, start + take, end) {
            None => None,
            Some(rest) => Some(
                seq![
                    PhysRange {
                        ppn: PhysPageNum(
                            mapping(m, root, (start / 4096) as usize).unwrap().spec_ppn(),
                        ),
                        start: (start % 4096) as usize,
                        end: (start % 4096 + take) as usize,
                    },
                ] + rest,
            ),
        }),
{
    reveal(byte_ranges);
    lemma_chunk_end(start, end);
}

/// A buffer whose first page is not mapped has no ranges.
pub proof fn lemma_byte_ranges_fail(m: Seq<FrameView>, root: u64, start: int, end: int)
    requires
        0 <= start < end,
        mapping(m, root, (start / 4096) as usize) is None,
    ensures
        byte_ranges(m, root, start, end) is None,
{
    reveal(byte_ranges);
}

/// An empty buffer has an empty sequence of ranges.
pub proof fn lemma_byte_ranges_empty(m: Seq<FrameView>, root: u64, start: int, end: int)
    requires
        start >= end,
    ensures
        byte_ranges(m, root, start, end) == Some(Seq::<PhysRange>::empty()),
{
    reveal(byte_ranges);
}

/// Splitting a buffer loses and invents no byte: the ranges of a mapped
/// buffer sum to its length, each range is non-empty and lies inside one
/// page, and when the buffer goes beyond the page it starts in, the first
/// range runs from the start offset to the end of that page.
pub proof fn lemma_byte_ranges_cover(m: Seq<FrameView>, root: u64, start: int, end: int)
    requires
        0 <= start <= end,
        byte_ranges(m, root, start, end) is Some,
    ensures
        total_len(byte_ranges(m, root, start, end).unwrap()) == end - start,
        forall|i: int|
            0 <= i < byte_ranges(m, root, start, end).unwrap().len() ==> {
                let c = #[trigger] byte_ranges(m, root, start, end).unwrap()[i];
                0 <= c.start < c.end <= PAGE_SIZE
            },
        start < end ==> byte_ranges(m, root, start, end).unwrap().len() >= 1
            && byte_ranges(m, root, start, end).unwrap()[0].start == start % 4096,
        end - start > PAGE_SIZE - start % 4096 ==> byte_ranges(m, root, start, end).unwrap()[0].spec_len()
            == PAGE_SIZE - start % 4096,
    decreases end - start,
{
    reveal(byte_ranges);
    if start < end {
        let stop = chunk_end(start, end);
        let e = mapping(m, root, (start / 4096) as usize).unwrap();
        let rest = byte_ranges(m, root, stop, end).unwrap();
        let first = PhysRange {
            ppn: PhysPageNum(e.spec_ppn()),
            start: (start % 4096) as usize,
            end: (stop - (start / 4096) * 4096) as usize,
        };
        let all = byte_ranges(m, root, start, end).unwrap();
        assert(all == seq![first] + rest);
        lemma_byte_ranges_cover(m, root, stop, end);
        assert(all.drop_first() =~= rest);
        assert(all[0] == first);
        assert forall|i: int| 0 <= i < all.len() implies {
            let c = #[trigger] all[i];
            0 <= c.start < c.end <= PAGE_SIZE
        } by {
            if i > 0 {
                assert(all[i] == rest[i - 1]);
            }
        }
    } else {
        assert(byte_ranges(m, root, start, end).unwrap() =~= Seq::<PhysRange>::empty());
    }
}

/// The `i`-th range of a mapped buffer lies in the frame that the `i`-th
/// page of the buffer is mapped to.
pub proof fn lemma_byte_ranges_frames(m: Seq<FrameView>, root: u64, start: int, end: int, i: int)
    requires
        0 <= start <= end,
        byte_ranges(m, root, start, end) is Some,
        0 <= i < byte_ranges(m, root, start, end).unwrap().len(),
    ensures
        mapping(m, root, (start / 4096 + i) as usize) is Some,
        byte_ranges(m, root, start, end).unwrap()[i].ppn.0 == mapping(
            m,
            root,
            (start / 4096 + i) as usize,
        ).unwrap().spec_ppn(),
    decreases end - start,
{
    reveal(byte_ranges);
    if start < end {
        let stop = chunk_end(start, end);
        let rest = byte_ranges(m, root, stop, end).unwrap();
        if i > 0 {
            assert(stop / 4096 == start / 4096 + 1) by {
                if stop < end {
                } else {
                    assert(rest =~= Seq::<PhysRange>::empty());
                }
            }
            lemma_byte_ranges_frames(m, root, stop, end, i - 1);
        }
    } else {
        assert(byte_ranges(m, root, start, end).unwrap() =~= Seq::<PhysRange>::empty());
    }
}

/// A buffer that is not empty has ranges exactly if every page it touches
/// is mapped.
pub proof fn lemma_byte_ranges_defined(m: Seq<FrameView>, root: u64, start: int, end: int)
    requires
        0 <= start < end,
    ensures
        byte_ranges(m, root, start, end) is Some <==> (forall|v: int|
            start / 4096 <= v <= (end - 1) / 4096 ==> (#[trigger] mapping(m, root, v as usize)) is Some),
    decreases end - start,
{
    reveal(byte_ranges);
    let stop = chunk_end(start, end);
    lemma_chunk_end(start, end);
    let first = start / 4096;
    if stop < end {
        assert(stop / 4096 == first + 1);
        lemma_byte_ranges_defined(m, root, stop, end);
        if byte_ranges(m, root, start, end) is Some {
            assert forall|v: int| first <= v <= (end - 1) / 4096 implies (#[trigger] mapping(
                m,
                root,
                v as usize,
            )) is Some by {
                if v > first {
                    assert(stop / 4096 <= v);
                }
            }
        } else {
            if mapping(m, root, first as usize) is Some {
                assert(byte_ranges(m, root, stop, end) is None);
                let v = choose|v: int|
                    stop / 4096 <= v <= (end - 1) / 4096 && !((#[trigger] mapping(m, root, v as usize)) is Some);
                assert(first <= v);
            }
        }
    } else {
        assert((end - 1) / 4096 == first);
        assert(byte_ranges(m, root, stop, end) == Some(Seq::<PhysRange>::empty()));
        if mapping(m, root, first as usize) is Some {
            assert forall|v: int| first <= v <= (end - 1) / 4096 implies (#[trigger] mapping(
                m,
                root,
                v as usize,
            )) is Some by {
                assert(v == first);
            }
        }
    }
}

/// Bytes to be stored in another address space: the physical ranges of
/// the destination, in ascending order of virtual address, and the bytes
/// that go into them one after the other.
pub struct UserWrite {
    pub ranges: Vec<PhysRange>,
    pub bytes: Vec<u8>,
}

/// The size in bytes of a time value: seconds and microseconds, one
/// machine word each.
pub const TIME_VAL_SIZE: usize = 16;

/// The size in bytes of a task snapshot: the system-call counters, the
/// running time and the status.
pub const TASK_INFO_SIZE: usize = 2016;

/// The status that a task snapshot reports: the task that asks is running.
pub const STATUS_RUNNING: u64 = 2;

/// A time of `us` microseconds as it is stored: the whole seconds, then
/// the microseconds left, each as a little-endian machine word.
pub open spec fn time_bytes(us: usize) -> Seq<u8> {
    spec_u64_to_le_bytes((us / 1_000_000) as u64) + spec_u64_to_le_bytes((us % 1_000_000) as u64)
}

/// The counters as they are stored: one little-endian 32-bit word each.
pub open spec fn counter_bytes(counts: Seq<u32>) -> Seq<u8>
    decreases counts.len(),
{
    if counts.len() == 0 {
        Seq::empty()
    } else {
        counter_bytes(counts.drop_last()) + spec_u32_to_le_bytes(counts.last())
    }
}

/// A task snapshot as it is stored: the counters, the running time, and
/// the status word.
pub open spec fn task_info_bytes(counts: Seq<u32>, time: usize) -> Seq<u8> {
    counter_bytes(counts) + spec_u64_to_le_bytes(time as u64) + spec_u64_to_le_bytes(STATUS_RUNNING)
}

/// The counters take four bytes each.
pub proof fn lemma_counter_bytes_len(counts: Seq<u32>)
    ensures
        counter_bytes(counts).len() == 4 * counts.len(),
    decreases counts.len(),
{
    if counts.len() > 0 {
        lemma_counter_bytes_len(counts.drop_last());
        vstd::bytes::lemma_auto_spec_u32_to_from_le_bytes();
    }
}

/// Prepares the store of a time of `us` microseconds at virtual address
/// `ptr` of the address space named by `token`: seconds first, then
/// microseconds. The destination may straddle a page boundary; every page
/// of it must be mapped.
pub fn translated_timeinfo(mem: &PhysMemory, token: u64, ptr: usize, us: usize) -> (r: UserWrite)
    requires
        mem.wf(),
        table_wf(mem@, token_root(token)),
        ptr + TIME_VAL_SIZE <= usize::MAX,
        byte_ranges(mem@, token_root(token), ptr as int, ptr + TIME_VAL_SIZE) is Some,
    ensures
        byte_ranges(mem@, token_root(token), ptr as int, ptr + TIME_VAL_SIZE) == Some(r.ranges@),
        r.bytes@ == time_bytes(us),
        total_len(r.ranges@) == r.bytes@.len() == TIME_VAL_SIZE,
{
    let sec: usize = us / 1_000_000;
    let usec: usize = us % 1_000_000;
    let ranges = translated_byte_buffer(mem, token, ptr, TIME_VAL_SIZE);
    let mut bytes = u64_to_le_bytes(sec as u64);
    let mut tail = u64_to_le_bytes(usec as u64);
    bytes.append(&mut tail);
    UserWrite { ranges, bytes }
}

/// Prepares the store of a task snapshot at virtual address `ptr` of the
/// address space named by `token`: the system-call counters, then the
/// running time, then the status. The destination may straddle a page
/// boundary; every page of it must be mapped.
pub fn translated_taskinfo(
    mem: &PhysMemory,
    token: u64,
    ptr: usize,
    syscall_times: &Vec<u32>,
    time: usize,
) -> (r: UserWrite)
    requires
        mem.wf(),
        table_wf(mem@, token_root(token)),
        ptr + TASK_INFO_SIZE <= usize::MAX,
        byte_ranges(mem@, token_root(token), ptr as int, ptr + TASK_INFO_SIZE) is Some,
        syscall_times@.len() == MAX_SYSCALL_NUM,
    ensures
        byte_ranges(mem@, token_root(token), ptr as int, ptr + TASK_INFO_SIZE) == Some(r.ranges@),
        r.bytes@ == task_info_bytes(syscall_times@, time),
        total_len(r.ranges@) == r.bytes@.len() == TASK_INFO_SIZE,
{
    let ranges = translated_byte_buffer(mem, token, ptr, TASK_INFO_SIZE);
    let mut bytes: Vec<u8> = Vec::new();
    let mut index: usize = 0;
    while index < MAX_SYSCALL_NUM
        invariant
            index <= MAX_SYSCALL_NUM,
            syscall_times@.len() == MAX_SYSCALL_NUM,
            bytes@ == counter_bytes(syscall_times@.subrange(0, index as int)),
        decreases MAX_SYSCALL_NUM - index,
    {
        let mut word = u32_to_le_bytes(syscall_times[index]);
        bytes.append(&mut word);
        proof {
            let upto = syscall_times@.subrange(0, index + 1);
            assert(upto.drop_last() =~= syscall_times@.subrange(0, index as int));
            assert(upto.last() == syscall_times@[index as int]);
        }
        index = index + 1;
    }
    proof {
        assert(syscall_times@.subrange(0, index as int) =~= syscall_times@);
        lemma_counter_bytes_len(syscall_times@);
    }
    let mut time_word = u64_to_le_bytes(time as u64);
    bytes.append(&mut time_word);
    let mut status_word = u64_to_le_bytes(STATUS_RUNNING);
    bytes.append(&mut status_word);
    UserWrite { ranges, bytes }
}

} // verus!
