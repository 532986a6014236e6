//! Mapping and unmapping of regions of an address space on request of a
//! user program.

use vstd::prelude::*;
use crate::address::{PhysPageNum, VirtAddr, VirtPageNum};
use crate::config::PAGE_SIZE;
use crate::frame::{mem_wf, zero_frame, FrameView, PhysMemory, DATA_LEVEL, lemma_push_zero_keeps_wf};
use crate::page_table::{
    child,
    leaf_slot,
    mapped,
    missing_tables,
    path_frames,
    set_leaf,
    table_wf,
    translation,
    PTEFlags,
    PageTable,
    PageTableEntry,
};
use crate::isolation::{
    lemma_entry_fields,
    lemma_leaf_write_keeps_others,
    lemma_map_keeps_other_pages,
    lemma_set_leaf,
    lemma_with_path,
    same_page,
};
use crate::page_table::{with_path, PPN_LIMIT};
use crate::user_memory::mapping;

verus! {

/// An address space as plain values: the frames of the machine and the
/// table frames that the translator of the space owns.
pub struct SpaceView {
    pub mem: Seq<FrameView>,
    pub owned: Seq<PhysPageNum>,
}

/// Whether a request to map is well formed: the start is page-aligned, the
/// permission asks for at least one of read, write and execute and for
/// nothing else, and the region does not run past the end of the address
/// range.
pub open spec fn mmap_request_ok(start: usize, len: usize, port: usize) -> bool {
    &&& start % PAGE_SIZE == 0
    &&& port < 8
    &&& port != 0
    &&& start + len <= usize::MAX
}

/// The flags of a page mapped with permission `port`: read, write and
/// execute as asked for, and accessible from user mode.
pub open spec fn user_flags(port: usize) -> PTEFlags {
    PTEFlags { bits: (port * 2 + 16) as u8 }
}

/// The number of pages that a region of `len` bytes starting at a page
/// boundary touches.
pub open spec fn pages_of(len: usize) -> nat {
    ((len + PAGE_SIZE - 1) / PAGE_SIZE as int) as nat
}

/// Whether page `vpn` can be given a fresh frame: it is not mapped, and
/// the frames for the page and for the tables that are absent on the way
/// to it are still to be had.
pub open spec fn can_add_page(s: SpaceView, limit: usize, root: u64, vpn: usize) -> bool {
    mapping(s.mem, root, vpn) is None && s.mem.len() + 1 + missing_tables(s.mem, root, vpn) <= limit
}

/// The address space after page `vpn` has been mapped to a fresh, cleared
/// frame with the given flags.
pub open spec fn page_added(s: SpaceView, root: u64, vpn: usize, flags: PTEFlags) -> SpaceView {
    let m1 = s.mem.push(zero_frame(DATA_LEVEL));
    SpaceView {
        mem: mapped(
            m1,
            root,
            vpn,
            PageTableEntry::spec_new(
                PhysPageNum(s.mem.len() as u64),
                PTEFlags { bits: flags.bits | 1 },
            ),
        ),
        owned: s.owned + path_frames(m1, root, vpn),
    }
}

/// The address space after the `n` pages from `vpn` on have been mapped
/// one after the other, and whether all of them could be. Mapping stops
/// at the first page that cannot be added; the pages before it stay
/// mapped.
pub open spec fn pages_added(s: SpaceView, limit: usize, root: u64, vpn: usize, n: nat, flags: PTEFlags) -> (
    SpaceView,
    bool,
)
    decreases n,
{
    if n == 0 {
        (s, true)
    } else if !can_add_page(s, limit, root, vpn) {
        (s, false)
    } else {
        pages_added(page_added(s, root, vpn, flags), limit, root, (vpn + 1) as usize, (n - 1) as nat, flags)
    }
}

/// The memory after the `n` pages from `vpn` on have been unmapped one
/// after the other, and whether all of them could be. Unmapping stops at
/// the first page that is not mapped; the pages before it stay unmapped.
pub open spec fn pages_removed(m: Seq<FrameView>, root: u64, vpn: usize, n: nat) -> (Seq<FrameView>, bool)
    decreases n,
{
    if n == 0 {
        (m, true)
    } else if mapping(m, root, vpn) is None {
        (m, false)
    } else {
        pages_removed(
            set_leaf(m, root, vpn, PageTableEntry { bits: 0 }),
            root,
            (vpn + 1) as usize,
            (n - 1) as nat,
        )
    }
}

/// A frame appended to the memory changes no walk from a root that was
/// there before.
pub proof fn lemma_push_keeps_walk(m: Seq<FrameView>, fr: FrameView, root: u64, vpn: usize)
    requires
        mem_wf(m),
        table_wf(m, root),
    ensures
        table_wf(m.push(fr), root),
        leaf_slot(m.push(fr), root, vpn) == leaf_slot(m, root, vpn),
        translation(m.push(fr), root, vpn) == translation(m, root, vpn),
        missing_tables(m.push(fr), root, vpn) == missing_tables(m, root, vpn),
{
    let m2 = m.push(fr);
    let i0 = crate::address::spec_index(vpn, 0);
    let i1 = crate::address::spec_index(vpn, 1);
    assert(m[root as int].entries.len() == 512);
    assert(m2[root as int] == m[root as int]);
    if m[root as int].entries[i0 as int].spec_valid() {
        let l1 = child(m, root, i0).unwrap();
        assert(m[l1 as int].entries.len() == 512);
        assert(m2[l1 as int] == m[l1 as int]);
        if m[l1 as int].entries[i1 as int].spec_valid() {
            let l2 = child(m, l1, i1).unwrap();
            assert(m2[l2 as int] == m[l2 as int]);
        }
    }
}

/// The number of pages that a region of `len` bytes touches.
fn page_count(len: usize) -> (n: usize)
    ensures
        n == pages_of(len),
{
    if len % PAGE_SIZE == 0 {
        len / PAGE_SIZE
    } else {
        len / PAGE_SIZE + 1
    }
}

/// Maps the region of `len` bytes at `start` to fresh, cleared frames with
/// permission `port` (bit 0 read, bit 1 write, bit 2 execute). Returns 0
/// if every page of the region was mapped. Returns -1, and changes
/// nothing, if the request is not well formed. Returns -1 also when a
/// page of the region is mapped already or no frame is left for it; the
/// pages before that one are then mapped.
pub fn sys_mmap(mem: &mut PhysMemory, page_table: &mut PageTable, start: usize, len: usize, port: usize) -> (r:
    isize)
    requires
        old(mem).wf(),
        old(page_table).wf(old(mem)),
    ensures
        final(mem).wf(),
        final(mem).limit == old(mem).limit,
        final(page_table).wf(final(mem)),
        final(page_table).root_ppn == old(page_table).root_ppn,
        !mmap_request_ok(start, len, port) ==> r == -1 && final(mem)@ == old(mem)@
            && final(page_table).frames@ == old(page_table).frames@,
        mmap_request_ok(start, len, port) ==> ({
            let out = pages_added(
                SpaceView { mem: old(mem)@, owned: old(page_table).frames@ },
                old(mem).limit,
                old(page_table).root_ppn.0,
                (start / PAGE_SIZE) as usize,
                pages_of(len),
                user_flags(port),
            );
            &&& final(mem)@ == out.0.mem
            &&& final(page_table).frames@ == out.0.owned
            &&& r == (if out.1 {
                0isize
            } else {
                -1isize
            })
        }),
{
    if !VirtAddr(start).aligned() || port >= 8 || port == 0 || len > usize::MAX - start {
        return -1;
    }
    let flags = PTEFlags { bits: (port * 2 + 16) as u8 };
    let count: usize = page_count(len);
    let first: usize = start / PAGE_SIZE;
    let ghost root = page_table.root_ppn.0;
    let ghost limit = mem.limit;
    let ghost goal = pages_added(
        SpaceView { mem: mem@, owned: page_table.frames@ },
        limit,
        root,
        first,
        count as nat,
        flags,
    );
    let mut done: usize = 0;
    while done < count
        invariant
            done <= count,
            first + count <= usize::MAX / PAGE_SIZE + 1,
            mem.wf(),
            mem.limit == limit,
            page_table.wf(mem),
            page_table.root_ppn.0 == root,
            flags == user_flags(port),
            limit == old(mem).limit,
            root == old(page_table).root_ppn.0,
            mmap_request_ok(start, len, port),
            goal == pages_added(
                SpaceView { mem: old(mem)@, owned: old(page_table).frames@ },
                old(mem).limit,
                old(page_table).root_ppn.0,
                (start / PAGE_SIZE) as usize,
                pages_of(len),
                user_flags(port),
            ),
            goal == pages_added(
                SpaceView { mem: mem@, owned: page_table.frames@ },
                limit,
                root,
                (first + done) as usize,
                (count - done) as nat,
                flags,
            ),
        decreases count - done,
    {
        let vpn = VirtPageNum(first + done);
        let ghost before = SpaceView { mem: mem@, owned: page_table.frames@ };
        let taken = match page_table.translate(mem, vpn) {
            Some(pte) => pte.is_valid(),
            None => false,
        };
        if taken {
            return -1;
        }
        let needed: usize = page_table.missing(mem, vpn) + 1;
        if needed > mem.limit - mem.frame_count() {
            return -1;
        }
        proof {
            lemma_push_keeps_walk(mem@, zero_frame(DATA_LEVEL), root, vpn.0);
        }
        let frame = mem.frame_alloc(DATA_LEVEL).unwrap();
        page_table.map(mem, vpn, frame, flags);
        assert(SpaceView { mem: mem@, owned: page_table.frames@ } == page_added(
            before,
            root,
            vpn.0,
            flags,
        ));
        done = done + 1;
    }
    0
}

/// Whether a request to unmap is well formed: the start is page-aligned
/// and the region does not run past the end of the address range.
pub open spec fn munmap_request_ok(start: usize, len: usize) -> bool {
    start % PAGE_SIZE == 0 && start + len <= usize::MAX
}

/// Unmaps the region of `len` bytes at `start`. Returns 0 if every page of
/// the region was mapped and has been unmapped. Returns -1, and changes
/// nothing, if the request is not well formed. Returns -1 also when a
/// page of the region is not mapped; the pages before that one are then
/// unmapped.
pub fn sys_munmap(mem: &mut PhysMemory, page_table: &mut PageTable, start: usize, len: usize) -> (r: isize)
    requires
        old(mem).wf(),
        old(page_table).wf(old(mem)),
    ensures
        final(mem).wf(),
        final(mem).limit == old(mem).limit,
        final(page_table).wf(final(mem)),
        final(page_table).root_ppn == old(page_table).root_ppn,
        final(page_table).frames@ == old(page_table).frames@,
        !munmap_request_ok(start, len) ==> r == -1 && final(mem)@ == old(mem)@,
        munmap_request_ok(start, len) ==> ({
            let out = pages_removed(
                old(mem)@,
                old(page_table).root_ppn.0,
                (start / PAGE_SIZE) as usize,
                pages_of(len),
            );
            &&& final(mem)@ == out.0
            &&& r == (if out.1 {
                0isize
            } else {
                -1isize
            })
        }),
{
    if !VirtAddr(start).aligned() || len > usize::MAX - start {
        return -1;
    }
    let count: usize = page_count(len);
    let first: usize = start / PAGE_SIZE;
    let ghost root = page_table.root_ppn.0;
    let ghost limit = mem.limit;
    let ghost frames = page_table.frames@;
    let ghost goal = pages_removed(mem@, root, first, count as nat);
    let mut done: usize = 0;
    while done < count
        invariant
            done <= count,
            first + count <= usize::MAX / PAGE_SIZE + 1,
            mem.wf(),
            mem.limit == limit,
            page_table.wf(mem),
            page_table.root_ppn.0 == root,
            page_table.frames@ == frames,
            frames == old(page_table).frames@,
            limit == old(mem).limit,
            root == old(page_table).root_ppn.0,
            munmap_request_ok(start, len),
            goal == pages_removed(
                old(mem)@,
                old(page_table).root_ppn.0,
                (start / PAGE_SIZE) as usize,
                pages_of(len),
            ),
            goal == pages_removed(mem@, root, (first + done) as usize, (count - done) as nat),
        decreases count - done,
    {
        let vpn = VirtPageNum(first + done);
        let mapped_now = match page_table.translate(mem, vpn) {
            Some(pte) => pte.is_valid(),
            None => false,
        };
        if !mapped_now {
            return -1;
        }
        page_table.unmap(mem, vpn);
        done = done + 1;
    }
    0
}

/// The number of pages of an address space.
pub const VPN_LIMIT: usize = 0x800_0000;

/// Two different page numbers of an address space name different leaf
/// entries.
pub proof fn lemma_distinct_pages(root: u64, v1: usize, v2: usize)
    requires
        v1 < VPN_LIMIT,
        v2 < VPN_LIMIT,
        v1 != v2,
    ensures
        !same_page(root, v1, root, v2),
{
    assert(v1 == (v1 / 262144) * 262144 + ((v1 / 512) % 512) * 512 + v1 % 512);
    assert(v2 == (v2 / 262144) * 262144 + ((v2 / 512) % 512) * 512 + v2 % 512);
    assert(v1 / 262144 < 512 && v2 / 262144 < 512);
}

/// The address space after one page has been added is valid again, the
/// page is mapped to the fresh frame with the flags asked for, and every
/// other page is as before.
pub proof fn lemma_page_added(s: SpaceView, limit: usize, root: u64, vpn: usize, flags: PTEFlags, root2: u64, vpn2: usize)
    requires
        mem_wf(s.mem),
        table_wf(s.mem, root),
        table_wf(s.mem, root2),
        limit <= PPN_LIMIT,
        can_add_page(s, limit, root, vpn),
    ensures
        mem_wf(page_added(s, root, vpn, flags).mem),
        table_wf(page_added(s, root, vpn, flags).mem, root),
        table_wf(page_added(s, root, vpn, flags).mem, root2),
        page_added(s, root, vpn, flags).mem.len() == s.mem.len() + 1 + missing_tables(s.mem, root, vpn),
        page_added(s, root, vpn, flags).mem.len() <= limit,
        mapping(page_added(s, root, vpn, flags).mem, root, vpn) == Some(
            PageTableEntry::spec_new(PhysPageNum(s.mem.len() as u64), PTEFlags { bits: flags.bits | 1 }),
        ),
        !same_page(root, vpn, root2, vpn2) ==> mapping(page_added(s, root, vpn, flags).mem, root2, vpn2)
            == mapping(s.mem, root2, vpn2),
{
    let fr = zero_frame(DATA_LEVEL);
    let m1 = s.mem.push(fr);
    let e = PageTableEntry::spec_new(PhysPageNum(s.mem.len() as u64), PTEFlags { bits: flags.bits | 1 });
    lemma_push_zero_keeps_wf(s.mem, DATA_LEVEL);
    lemma_push_keeps_walk(s.mem, fr, root, vpn);
    lemma_push_keeps_walk(s.mem, fr, root2, vpn2);
    lemma_with_path(m1, root, vpn, root2, vpn2);
    lemma_set_leaf(with_path(m1, root, vpn), root, vpn, e);
    lemma_entry_fields(s.mem.len() as u64, PTEFlags { bits: flags.bits | 1 });
    let fb = flags.bits;
    assert((fb | 1u8) % 2 == 1) by (bit_vector);
    if !same_page(root, vpn, root2, vpn2) {
        lemma_map_keeps_other_pages(m1, root, vpn, e, root2, vpn2);
    }
}

/// What mapping a region does. Pages outside the region, in this address
/// space and in every other, are as before, whether all pages could be
/// mapped or not. If all could be, none of them was mapped before, and
/// each is now mapped to a frame that did not exist before, with exactly
/// the flags asked for and Valid.
pub proof fn lemma_pages_added(
    s: SpaceView,
    limit: usize,
    root: u64,
    vpn: usize,
    n: nat,
    flags: PTEFlags,
    root2: u64,
    vpn2: usize,
)
    requires
        mem_wf(s.mem),
        table_wf(s.mem, root),
        table_wf(s.mem, root2),
        limit <= PPN_LIMIT,
        vpn + n <= VPN_LIMIT,
        root2 != root || vpn2 < VPN_LIMIT,
    ensures
        ({
            let out = pages_added(s, limit, root, vpn, n, flags);
            &&& mem_wf(out.0.mem)
            &&& table_wf(out.0.mem, root)
            &&& table_wf(out.0.mem, root2)
            &&& out.0.mem.len() >= s.mem.len()
            &&& (root2 != root || vpn2 < vpn || vpn2 >= vpn + n) ==> mapping(out.0.mem, root2, vpn2)
                == mapping(s.mem, root2, vpn2)
            &&& out.1 && root2 == root && vpn <= vpn2 < vpn + n ==> {
                &&& mapping(s.mem, root, vpn2) is None
                &&& mapping(out.0.mem, root, vpn2) is Some
                &&& mapping(out.0.mem, root, vpn2).unwrap().spec_valid()
                &&& mapping(out.0.mem, root, vpn2).unwrap().spec_flags().bits == flags.bits | 1
                &&& mapping(out.0.mem, root, vpn2).unwrap().spec_ppn() >= s.mem.len()
            }
        }),
    decreases n,
{
    if n > 0 && can_add_page(s, limit, root, vpn) {
        let s1 = page_added(s, root, vpn, flags);
        lemma_page_added(s, limit, root, vpn, flags, root2, vpn2);
        lemma_pages_added(s1, limit, root, (vpn + 1) as usize, (n - 1) as nat, flags, root2, vpn2);
        lemma_entry_fields(s.mem.len() as u64, PTEFlags { bits: flags.bits | 1 });
        if root2 == root && vpn2 != vpn {
            lemma_distinct_pages(root, vpn, vpn2);
        }
    }
}

/// What unmapping a region does. Pages outside the region, in this
/// address space and in every other, are as before, whether all pages
/// could be unmapped or not. If all could be, each of them was mapped
/// before and none is now.
pub proof fn lemma_pages_removed(m: Seq<FrameView>, root: u64, vpn: usize, n: nat, root2: u64, vpn2: usize)
    requires
        mem_wf(m),
        table_wf(m, root),
        table_wf(m, root2),
        vpn + n <= VPN_LIMIT,
        root2 != root || vpn2 < VPN_LIMIT,
    ensures
        ({
            let out = pages_removed(m, root, vpn, n);
            &&& mem_wf(out.0)
            &&& table_wf(out.0, root)
            &&& table_wf(out.0, root2)
            &&& (root2 != root || vpn2 < vpn || vpn2 >= vpn + n) ==> mapping(out.0, root2, vpn2) == mapping(
                m,
                root2,
                vpn2,
            )
            &&& out.1 && root2 == root && vpn <= vpn2 < vpn + n ==> {
                &&& mapping(m, root, vpn2) is Some
                &&& mapping(out.0, root, vpn2) is None
            }
        }),
    decreases n,
{
    if n > 0 && mapping(m, root, vpn) is Some {
        let zero = PageTableEntry { bits: 0 };
        let m1 = set_leaf(m, root, vpn, zero);
        lemma_set_leaf(m, root, vpn, zero);
        if root2 != root || vpn2 != vpn {
            if root2 == root {
                lemma_distinct_pages(root, vpn, vpn2);
            }
            lemma_leaf_write_keeps_others(m, root, vpn, zero, root2, vpn2);
        }
        lemma_pages_removed(m1, root, (vpn + 1) as usize, (n - 1) as nat, root2, vpn2);
    }
}

/// When mapping a region succeeds: if none of its pages is mapped and
/// three frames per page are still to be had, every page is mapped.
pub proof fn lemma_pages_added_succeeds(s: SpaceView, limit: usize, root: u64, vpn: usize, n: nat, flags: PTEFlags)
    requires
        mem_wf(s.mem),
        table_wf(s.mem, root),
        limit <= PPN_LIMIT,
        vpn + n <= VPN_LIMIT,
        s.mem.len() + 3 * n <= limit,
        forall|v: usize| vpn <= v < vpn + n ==> (#[trigger] mapping(s.mem, root, v)) is None,
    ensures
        pages_added(s, limit, root, vpn, n, flags).1,
    decreases n,
{
    if n > 0 {
        assert(mapping(s.mem, root, vpn) is None);
        let s1 = page_added(s, root, vpn, flags);
        lemma_page_added(s, limit, root, vpn, flags, root, vpn);
        assert forall|v: usize| vpn + 1 <= v < vpn + n implies (#[trigger] mapping(s1.mem, root, v)) is None by {
            lemma_distinct_pages(root, vpn, v);
            lemma_page_added(s, limit, root, vpn, flags, root, v);
            assert(mapping(s.mem, root, v) is None);
        }
        lemma_pages_added_succeeds(s1, limit, root, (vpn + 1) as usize, (n - 1) as nat, flags);
    }
}

/// When unmapping a region succeeds: if each of its pages is mapped, every
/// page is unmapped.
pub proof fn lemma_pages_removed_succeeds(m: Seq<FrameView>, root: u64, vpn: usize, n: nat)
    requires
        mem_wf(m),
        table_wf(m, root),
        vpn + n <= VPN_LIMIT,
        forall|v: usize| vpn <= v < vpn + n ==> (#[trigger] mapping(m, root, v)) is Some,
    ensures
        pages_removed(m, root, vpn, n).1,
    decreases n,
{
    if n > 0 {
        assert(mapping(m, root, vpn) is Some);
        let zero = PageTableEntry { bits: 0 };
        let m1 = set_leaf(m, root, vpn, zero);
        lemma_set_leaf(m, root, vpn, zero);
        assert forall|v: usize| vpn + 1 <= v < vpn + n implies (#[trigger] mapping(m1, root, v)) is Some by {
            lemma_distinct_pages(root, vpn, v);
            lemma_leaf_write_keeps_others(m, root, vpn, zero, root, v);
            assert(mapping(m, root, v) is Some);
        }
        lemma_pages_removed_succeeds(m1, root, (vpn + 1) as usize, (n - 1) as nat);
    }
}

} // verus!
