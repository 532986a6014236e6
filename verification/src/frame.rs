//! The physical frames that hold page tables, and the allocator that hands
//! them out.

use vstd::prelude::*;
use crate::address::PhysPageNum;
use crate::config::PTE_PER_FRAME;
use crate::page_table::{PageTableEntry, PPN_LIMIT};

verus! {

/// One frame of 512 words: a page table, with its level in the tree (0 is
/// a root, 2 holds leaf entries), or, at level 3, a page of data.
pub struct TableFrame {
    pub level: usize,
    pub entries: Vec<PageTableEntry>,
}

/// What a table frame holds, as plain values.
pub struct FrameView {
    pub level: usize,
    pub entries: Seq<PageTableEntry>,
}

impl View for TableFrame {
    type V = FrameView;

    open spec fn view(&self) -> FrameView {
        FrameView { level: self.level, entries: self.entries@ }
    }
}

/// The table frames of the machine. Frame numbers are handed out in
/// ascending order, and at most `limit` frames exist.
pub struct PhysMemory {
    pub frames: Vec<TableFrame>,
    pub limit: usize,
}

impl View for PhysMemory {
    type V = Seq<FrameView>;

    open spec fn view(&self) -> Seq<FrameView> {
        self.frames@.map_values(|f: TableFrame| f@)
    }
}

/// A freshly allocated frame of the given level: 512 clear entries.
pub open spec fn zero_frame(level: usize) -> FrameView {
    FrameView { level, entries: Seq::new(512, |i: int| PageTableEntry { bits: 0 }) }
}

/// The level of a frame that holds a page of data.
pub const DATA_LEVEL: usize = 3;

/// No table has two parents: two different valid entries of root or
/// middle tables name different frames.
pub open spec fn no_alias(m: Seq<FrameView>) -> bool {
    forall|f1: int, i1: int, f2: int, i2: int|
        0 <= f1 < m.len() && 0 <= i1 < 512 && 0 <= f2 < m.len() && 0 <= i2 < 512 && m[f1].level < 2
            && m[f2].level < 2 && (#[trigger] m[f1].entries[i1]).spec_valid() && (
        #[trigger] m[f2].entries[i2]).spec_valid() && (f1 != f2 || i1 != i2) ==> m[f1].entries[i1].spec_ppn()
            != m[f2].entries[i2].spec_ppn()
}

/// Whether a valid entry of a root or middle table names frame `ppn`.
pub open spec fn has_parent(m: Seq<FrameView>, ppn: u64) -> bool {
    exists|f: int, i: int|
        0 <= f < m.len() && 0 <= i < 512 && m[f].level < 2 && (#[trigger] m[f].entries[i]).spec_valid()
            && m[f].entries[i].spec_ppn() == ppn
}

/// Every frame has 512 entries and a level, every valid entry of a root
/// or middle table names an existing table one level further down, and no
/// table has two parents.
pub open spec fn mem_wf(m: Seq<FrameView>) -> bool {
    &&& no_alias(m)
    &&& m.len() <= PPN_LIMIT
    &&& forall|f: int| 0 <= f < m.len() ==> (#[trigger] m[f]).entries.len() == 512 && m[f].level <= 3
    &&& forall|f: int, i: int|
        0 <= f < m.len() && 0 <= i < 512 && m[f].level < 2 && (#[trigger] m[f].entries[i]).spec_valid()
            ==> m[f].entries[i].spec_ppn() < m.len() && m[m[f].entries[i].spec_ppn() as int].level
            == m[f].level + 1
}

/// The memory with one entry replaced.
pub open spec fn set_entry(m: Seq<FrameView>, frame: u64, idx: usize, e: PageTableEntry) -> Seq<
    FrameView,
> {
    m.update(
        frame as int,
        FrameView {
            level: m[frame as int].level,
            entries: m[frame as int].entries.update(idx as int, e),
        },
    )
}

impl PhysMemory {
    /// The validity of the memory as a whole.
    pub open spec fn wf(&self) -> bool {
        &&& mem_wf(self@)
        &&& self@.len() <= self.limit <= PPN_LIMIT
    }

    /// A memory with room for `limit` table frames and none allocated.
    pub fn new(limit: usize) -> (r: Self)
        requires
            limit <= PPN_LIMIT,
        ensures
            r@ == Seq::<FrameView>::empty(),
            r.limit == limit,
            r.wf(),
    {
        let r = PhysMemory { frames: Vec::new(), limit };
        assert(r@ =~= Seq::<FrameView>::empty());
        r
    }

    /// The number of frames allocated so far.
    pub fn frame_count(&self) -> (r: usize)
        ensures
            r == self@.len(),
    {
        self.frames.len()
    }

    /// Allocates a cleared frame of the given level. Returns nothing
    /// when every frame is in use, and then changes nothing.
    pub fn frame_alloc(&mut self, level: usize) -> (r: Option<PhysPageNum>)
        requires
            old(self).wf(),
            level <= 3,
        ensures
            final(self).limit == old(self).limit,
            match r {
                Some(p) => {
                    &&& old(self)@.len() < old(self).limit
                    &&& p.0 == old(self)@.len()
                    &&& final(self)@ == old(self)@.push(zero_frame(level))
                },
                None => old(self)@.len() == old(self).limit && final(self)@ == old(self)@,
            },
            final(self).wf(),
    {
        if self.frames.len() >= self.limit {
            return None;
        }
        let mut entries: Vec<PageTableEntry> = Vec::new();
        let mut i: usize = 0;
        while i < PTE_PER_FRAME
            invariant
                i <= PTE_PER_FRAME,
                entries@.len() == i,
                forall|k: int| 0 <= k < i ==> entries@[k] == (PageTableEntry { bits: 0 }),
            decreases PTE_PER_FRAME - i,
        {
            entries.push(PageTableEntry::empty());
            i = i + 1;
        }
        let n: usize = self.frames.len();
        let ghost before = self@;
        self.frames.push(TableFrame { level, entries });
        proof {
            assert(entries@ =~= zero_frame(level).entries);
            assert(self@ =~= before.push(zero_frame(level)));
            lemma_push_zero_keeps_wf(before, level);
        }
        Some(PhysPageNum(n as u64))
    }

    /// Reads one entry of a table frame.
    pub fn read(&self, frame: PhysPageNum, idx: usize) -> (r: PageTableEntry)
        requires
            frame.0 < self@.len(),
            idx < self@[frame.0 as int].entries.len(),
        ensures
            r == self@[frame.0 as int].entries[idx as int],
    {
        let n: usize = self.frames.len();
        assert(self@.len() == n);
        assert(self@[frame.0 as int] == self.frames@[frame.0 as int]@);
        let f: usize = frame.0 as usize;
        self.frames[f].entries[idx]
    }

    /// Replaces one entry of a table frame.
    pub fn write(&mut self, frame: PhysPageNum, idx: usize, e: PageTableEntry)
        requires
            frame.0 < old(self)@.len(),
            idx < old(self)@[frame.0 as int].entries.len(),
        ensures
            final(self)@ == set_entry(old(self)@, frame.0, idx, e),
            final(self).limit == old(self).limit,
    {
        let ghost before = self@;
        let n: usize = self.frames.len();
        assert(self@.len() == n);
        assert(self@[frame.0 as int] == self.frames@[frame.0 as int]@);
        let f: usize = frame.0 as usize;
        self.frames[f].entries[idx] = e;
        assert(self@ =~= set_entry(before, frame.0, idx, e));
    }
}

/// Appending a cleared frame keeps a valid memory valid, as long as frame
/// numbers still fit.
pub proof fn lemma_push_zero_keeps_wf(m: Seq<FrameView>, level: usize)
    requires
        mem_wf(m),
        m.len() < PPN_LIMIT,
        level <= 3,
    ensures
        mem_wf(m.push(zero_frame(level))),
{
    let m2 = m.push(zero_frame(level));
    assert forall|f: int, i: int|
        0 <= f < m2.len() && 0 <= i < 512 && m2[f].level < 2 && (#[trigger] m2[f].entries[i]).spec_valid()
            implies m2[f].entries[i].spec_ppn() < m2.len() && m2[m2[f].entries[i].spec_ppn() as int].level
        == m2[f].level + 1 by {
        if f < m.len() {
            assert(m2[f] == m[f]);
            assert(m[f].entries[i].spec_valid());
        }
    }
    assert forall|f1: int, i1: int, f2: int, i2: int|
        0 <= f1 < m2.len() && 0 <= i1 < 512 && 0 <= f2 < m2.len() && 0 <= i2 < 512 && m2[f1].level < 2
            && m2[f2].level < 2 && (#[trigger] m2[f1].entries[i1]).spec_valid() && (
        #[trigger] m2[f2].entries[i2]).spec_valid() && (f1 != f2 || i1 != i2) implies m2[f1].entries[i1].spec_ppn()
        != m2[f2].entries[i2].spec_ppn() by {
        assert(m2[f1] == m[f1]);
        assert(m2[f2] == m[f2]);
        assert(m[f1].entries[i1].spec_valid());
        assert(m[f2].entries[i2].spec_valid());
    }
}

/// Writing any entry into a leaf table or a page of data, an entry that
/// is not valid into any table, or a valid entry that names an existing
/// table one level down which has no parent yet into a root or middle
/// table, keeps a valid memory valid.
pub proof fn lemma_set_entry_keeps_wf(m: Seq<FrameView>, frame: u64, idx: usize, e: PageTableEntry)
    requires
        mem_wf(m),
        frame < m.len(),
        idx < 512,
        m[frame as int].level >= 2 || !e.spec_valid() || (e.spec_ppn() < m.len() && m[e.spec_ppn() as int].level
            == m[frame as int].level + 1 && !has_parent(m, e.spec_ppn())),
    ensures
        mem_wf(set_entry(m, frame, idx, e)),
{
    let m2 = set_entry(m, frame, idx, e);
    assert forall|f: int| 0 <= f < m2.len() implies (#[trigger] m2[f]).entries.len() == 512 && m2[f].level
        <= 3 by {
        assert(m[f].entries.len() == 512);
    }
    assert forall|f: int, i: int|
        0 <= f < m2.len() && 0 <= i < 512 && m2[f].level < 2 && (#[trigger] m2[f].entries[i]).spec_valid()
            implies m2[f].entries[i].spec_ppn() < m2.len() && m2[m2[f].entries[i].spec_ppn() as int].level
        == m2[f].level + 1 by {
        assert(m[f].entries.len() == 512);
        if f == frame && i == idx {
        } else {
            assert(m2[f].entries[i] == m[f].entries[i]);
            assert(m[f].entries[i].spec_valid());
        }
    }
    assert forall|f1: int, i1: int, f2: int, i2: int|
        0 <= f1 < m2.len() && 0 <= i1 < 512 && 0 <= f2 < m2.len() && 0 <= i2 < 512 && m2[f1].level < 2
            && m2[f2].level < 2 && (#[trigger] m2[f1].entries[i1]).spec_valid() && (
        #[trigger] m2[f2].entries[i2]).spec_valid() && (f1 != f2 || i1 != i2) implies m2[f1].entries[i1].spec_ppn()
        != m2[f2].entries[i2].spec_ppn() by {
        assert(m[f1].entries.len() == 512);
        assert(m[f2].entries.len() == 512);
        let new1 = f1 == frame && i1 == idx;
        let new2 = f2 == frame && i2 == idx;
        if !new1 {
            assert(m2[f1].entries[i1] == m[f1].entries[i1]);
            assert(m[f1].entries[i1].spec_valid());
        }
        if !new2 {
            assert(m2[f2].entries[i2] == m[f2].entries[i2]);
            assert(m[f2].entries[i2].spec_valid());
        }
    }
}

} // verus!
