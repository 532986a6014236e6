//! Mapping and unmapping one page leaves every other page alone, in the
//! same address space and in every other one.

use vstd::prelude::*;
use crate::address::{spec_index, PhysPageNum};
use crate::frame::{
    lemma_push_zero_keeps_wf,
    lemma_set_entry_keeps_wf,
    mem_wf,
    zero_frame,
    FrameView,
};
use crate::page_table::{
    child,
    leaf_slot,
    lemma_fresh_frame_has_no_parent,
    link_entry,
    mapped,
    missing_tables,
    set_leaf,
    table_wf,
    translation,
    with_child,
    with_path,
    PTEFlags,
    PageTableEntry,
    PPN_LIMIT,
};
use crate::user_memory::mapping;

verus! {

/// Whether two page numbers of two address spaces name the same leaf
/// entry: the spaces are the same, and the page numbers select the same
/// index at each level.
pub open spec fn same_page(root: u64, vpn: usize, root2: u64, vpn2: usize) -> bool {
    &&& root == root2
    &&& spec_index(vpn, 0) == spec_index(vpn2, 0)
    &&& spec_index(vpn, 1) == spec_index(vpn2, 1)
    &&& spec_index(vpn, 2) == spec_index(vpn2, 2)
}

/// An entry made of a frame number that fits and of flags gives both
/// back, and is valid exactly if the flags hold Valid.
pub proof fn lemma_entry_fields(ppn: u64, flags: PTEFlags)
    requires
        ppn < PPN_LIMIT,
    ensures
        PageTableEntry::spec_new(PhysPageNum(ppn), flags).spec_ppn() == ppn,
        PageTableEntry::spec_new(PhysPageNum(ppn), flags).spec_flags() == flags,
        PageTableEntry::spec_new(PhysPageNum(ppn), flags).spec_valid() == (flags.bits % 2 == 1),
{
    let b = ppn * 1024 + flags.bits;
    assert(b / 1024 == ppn);
    assert(b % 256 == flags.bits as int);
    assert(b % 2 == flags.bits as int % 2);
}

/// Making the table below an entry exist keeps the memory valid, links
/// the parent to a table one level down, and keeps every root a root.
pub proof fn lemma_with_child(m: Seq<FrameView>, frame: u64, idx: usize)
    requires
        mem_wf(m),
        frame < m.len(),
        m[frame as int].level < 2,
        idx < 512,
        child(m, frame, idx) is Some || m.len() < PPN_LIMIT,
    ensures
        mem_wf(with_child(m, frame, idx)),
        with_child(m, frame, idx).len() >= m.len(),
        child(with_child(m, frame, idx), frame, idx) is Some,
        child(with_child(m, frame, idx), frame, idx).unwrap() < with_child(m, frame, idx).len(),
        with_child(m, frame, idx)[child(with_child(m, frame, idx), frame, idx).unwrap() as int].level
            == m[frame as int].level + 1,
        forall|r: u64| table_wf(m, r) ==> table_wf(with_child(m, frame, idx), r),
        with_child(m, frame, idx).len() == m.len() + (if child(m, frame, idx) is Some {
            0int
        } else {
            1int
        }),
{
    assert(m[frame as int].entries.len() == 512);
    if child(m, frame, idx) is Some {
        assert(m[frame as int].entries[idx as int].spec_valid());
    } else {
        let fr = zero_frame((m[frame as int].level + 1) as usize);
        let m1 = m.push(fr);
        let link = link_entry(m.len() as u64);
        lemma_entry_fields(m.len() as u64, PTEFlags { bits: 1 });
        lemma_push_zero_keeps_wf(m, fr.level);
        lemma_fresh_frame_has_no_parent(m, fr);
        lemma_set_entry_keeps_wf(m1, frame, idx, link);
    }
}

/// Making the table below an entry exist maps and unmaps no page.
pub proof fn lemma_with_child_keeps_mappings(m: Seq<FrameView>, frame: u64, idx: usize, root2: u64, vpn2: usize)
    requires
        mem_wf(m),
        frame < m.len(),
        m[frame as int].level < 2,
        idx < 512,
        child(m, frame, idx) is Some || m.len() < PPN_LIMIT,
        table_wf(m, root2),
    ensures
        mapping(with_child(m, frame, idx), root2, vpn2) == mapping(m, root2, vpn2),
{
    if child(m, frame, idx) is None {
        let m2 = with_child(m, frame, idx);
        let fresh = m.len() as u64;
        let i0 = spec_index(vpn2, 0);
        let i1 = spec_index(vpn2, 1);
        let i2 = spec_index(vpn2, 2);
        lemma_entry_fields(fresh, PTEFlags { bits: 1 });
        assert(m[root2 as int].entries.len() == 512);
        assert(m[frame as int].entries.len() == 512);
        assert(m2[fresh as int].entries[i1 as int] == (PageTableEntry { bits: 0 }));
        assert(m2[fresh as int].entries[i2 as int] == (PageTableEntry { bits: 0 }));
        if root2 == frame && i0 == idx {
        } else {
            assert(m2[root2 as int].entries[i0 as int] == m[root2 as int].entries[i0 as int]);
            if m[root2 as int].entries[i0 as int].spec_valid() {
                let l1 = child(m, root2, i0).unwrap();
                assert(m[l1 as int].entries.len() == 512);
                if l1 == frame && i1 == idx {
                } else {
                    assert(m2[l1 as int].entries[i1 as int] == m[l1 as int].entries[i1 as int]);
                    if m[l1 as int].entries[i1 as int].spec_valid() {
                        let l2 = child(m, l1, i1).unwrap();
                        assert(m[l2 as int].level == 2);
                        assert(m2[l2 as int] == m[l2 as int]);
                    }
                }
            }
        }
    }
}

/// Making the tables on the way to a page exist keeps the memory valid,
/// keeps every root a root, and maps and unmaps no page.
pub proof fn lemma_with_path(m: Seq<FrameView>, root: u64, vpn: usize, root2: u64, vpn2: usize)
    requires
        mem_wf(m),
        table_wf(m, root),
        table_wf(m, root2),
        m.len() + missing_tables(m, root, vpn) <= PPN_LIMIT,
    ensures
        mem_wf(with_path(m, root, vpn)),
        table_wf(with_path(m, root, vpn), root),
        table_wf(with_path(m, root, vpn), root2),
        leaf_slot(with_path(m, root, vpn), root, vpn) is Some,
        with_path(m, root, vpn).len() == m.len() + missing_tables(m, root, vpn),
        mapping(with_path(m, root, vpn), root2, vpn2) == mapping(m, root2, vpn2),
{
    let i0 = spec_index(vpn, 0);
    let i1 = spec_index(vpn, 1);
    assert(m[root as int].entries.len() == 512);
    lemma_with_child(m, root, i0);
    lemma_with_child_keeps_mappings(m, root, i0, root2, vpn2);
    let m1 = with_child(m, root, i0);
    let l1 = child(m1, root, i0).unwrap();
    assert(m1[l1 as int].entries.len() == 512);
    if child(m, root, i0) is None {
        assert(m1[l1 as int].entries[i1 as int] == (PageTableEntry { bits: 0 }));
    } else {
        assert(m1 == m);
    }
    lemma_with_child(m1, l1, i1);
    lemma_with_child_keeps_mappings(m1, l1, i1, root2, vpn2);
    let m2 = with_child(m1, l1, i1);
    if child(m1, l1, i1) is None {
        assert(m2[root as int].entries[i0 as int] == m1[root as int].entries[i0 as int]);
    }
}

/// Writing the leaf entry of a page whose tables exist keeps the memory
/// valid and every root a root, adds no frame, and makes the page
/// translate to the entry written.
pub proof fn lemma_set_leaf(m: Seq<FrameView>, root: u64, vpn: usize, e: PageTableEntry)
    requires
        mem_wf(m),
        table_wf(m, root),
        leaf_slot(m, root, vpn) is Some,
    ensures
        mem_wf(set_leaf(m, root, vpn, e)),
        set_leaf(m, root, vpn, e).len() == m.len(),
        forall|r: u64| table_wf(m, r) ==> table_wf(set_leaf(m, root, vpn, e), r),
        translation(set_leaf(m, root, vpn, e), root, vpn) == Some(e),
{
    let s = leaf_slot(m, root, vpn).unwrap();
    let i0 = spec_index(vpn, 0);
    let i1 = spec_index(vpn, 1);
    assert(m[root as int].entries.len() == 512);
    assert(m[root as int].entries[i0 as int].spec_valid());
    let l1 = child(m, root, i0).unwrap();
    assert(m[l1 as int].entries.len() == 512);
    assert(m[l1 as int].entries[i1 as int].spec_valid());
    assert(m[s.frame.0 as int].entries.len() == 512);
    lemma_set_entry_keeps_wf(m, s.frame.0, s.index, e);
    crate::page_table::lemma_leaf_write(m, root, vpn, e);
}

/// Writing the leaf entry of one page changes the translation of no other
/// page, of the same address space or of another.
pub proof fn lemma_leaf_write_keeps_others(
    m: Seq<FrameView>,
    root: u64,
    vpn: usize,
    e: PageTableEntry,
    root2: u64,
    vpn2: usize,
)
    requires
        mem_wf(m),
        table_wf(m, root),
        table_wf(m, root2),
        leaf_slot(m, root, vpn) is Some,
        !same_page(root, vpn, root2, vpn2),
    ensures
        mem_wf(set_leaf(m, root, vpn, e)),
        table_wf(set_leaf(m, root, vpn, e), root2),
        translation(set_leaf(m, root, vpn, e), root2, vpn2) == translation(m, root2, vpn2),
{
    let s = leaf_slot(m, root, vpn).unwrap();
    let m2 = set_leaf(m, root, vpn, e);
    let i0 = spec_index(vpn, 0);
    let i1 = spec_index(vpn, 1);
    let j0 = spec_index(vpn2, 0);
    let j1 = spec_index(vpn2, 1);
    let j2 = spec_index(vpn2, 2);
    assert(m[root as int].entries.len() == 512);
    assert(m[root2 as int].entries.len() == 512);
    assert(m[root as int].entries[i0 as int].spec_valid());
    let l1 = child(m, root, i0).unwrap();
    assert(m[l1 as int].entries.len() == 512);
    assert(m[l1 as int].entries[i1 as int].spec_valid());
    assert(m[s.frame.0 as int].level == 2);
    assert(m[s.frame.0 as int].entries.len() == 512);
    lemma_set_entry_keeps_wf(m, s.frame.0, s.index, e);
    assert(m2[root2 as int] == m[root2 as int]);
    if m[root2 as int].entries[j0 as int].spec_valid() {
        let k1 = child(m, root2, j0).unwrap();
        assert(m[k1 as int].entries.len() == 512);
        assert(m2[k1 as int] == m[k1 as int]);
        if m[k1 as int].entries[j1 as int].spec_valid() {
            let k2 = child(m, k1, j1).unwrap();
            assert(m[k2 as int].entries.len() == 512);
            if k2 == s.frame.0 && j2 == s.index {
                if root != root2 || i0 != j0 {
                    assert(l1 != k1);
                } else {
                    assert(l1 == k1);
                    assert(i1 != j1);
                }
                assert(false);
            }
        }
    }
}

/// Mapping one page maps and unmaps no other page, of the same address
/// space or of another.
pub proof fn lemma_map_keeps_other_pages(
    m: Seq<FrameView>,
    root: u64,
    vpn: usize,
    e: PageTableEntry,
    root2: u64,
    vpn2: usize,
)
    requires
        mem_wf(m),
        table_wf(m, root),
        table_wf(m, root2),
        m.len() + missing_tables(m, root, vpn) <= PPN_LIMIT,
        !same_page(root, vpn, root2, vpn2),
    ensures
        mem_wf(mapped(m, root, vpn, e)),
        table_wf(mapped(m, root, vpn, e), root2),
        mapping(mapped(m, root, vpn, e), root2, vpn2) == mapping(m, root2, vpn2),
{
    lemma_with_path(m, root, vpn, root2, vpn2);
    lemma_leaf_write_keeps_others(with_path(m, root, vpn), root, vpn, e, root2, vpn2);
}

/// Unmapping one page maps and unmaps no other page, of the same address
/// space or of another.
pub proof fn lemma_unmap_keeps_other_pages(m: Seq<FrameView>, root: u64, vpn: usize, root2: u64, vpn2: usize)
    requires
        mem_wf(m),
        table_wf(m, root),
        table_wf(m, root2),
        leaf_slot(m, root, vpn) is Some,
        !same_page(root, vpn, root2, vpn2),
    ensures
        mem_wf(set_leaf(m, root, vpn, PageTableEntry { bits: 0 })),
        mapping(set_leaf(m, root, vpn, PageTableEntry { bits: 0 }), root2, vpn2) == mapping(m, root2, vpn2),
{
    lemma_leaf_write_keeps_others(m, root, vpn, PageTableEntry { bits: 0 }, root2, vpn2);
}

} // verus!
