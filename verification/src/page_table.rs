//! Page-table entries, the frames that hold page tables, and the
//! three-level address translator built on them.

use vstd::prelude::*;
use crate::address::{spec_index, PhysPageNum, VirtPageNum};
use crate::frame::{mem_wf, set_entry, zero_frame, FrameView, PhysMemory, lemma_set_entry_keeps_wf};

verus! {

/// Frame numbers are 44 bits wide; this is the first value that does not fit.
pub const PPN_LIMIT: u64 = 0x1000_0000_0000;

/// The paging-mode tag that a token carries in its top four bits.
pub const MODE_TAG: u64 = 0x8000_0000_0000_0000;

/// Mask that keeps the frame number of a token.
pub const PPN_MASK: u64 = 0xfff_ffff_ffff;

/// The eight status and permission bits of a page-table entry.
#[derive(Clone, Copy, Debug, PartialEq, Eq, Structural)]
pub struct PTEFlags {
    pub bits: u8,
}

impl PTEFlags {
    /// Valid.
    pub const V: u8 = 1;
    /// Readable.
    pub const R: u8 = 2;
    /// Writable.
    pub const W: u8 = 4;
    /// Executable.
    pub const X: u8 = 8;
    /// Accessible from user mode.
    pub const U: u8 = 16;
    /// Global.
    pub const G: u8 = 32;
    /// Accessed.
    pub const A: u8 = 64;
    /// Dirty.
    pub const D: u8 = 128;

    /// The set that holds no flag.
    pub fn empty() -> (r: Self)
        ensures
            r.bits == 0,
    {
        PTEFlags { bits: 0 }
    }

    /// The set with exactly the given bits; every bit pattern is a set of
    /// known flags, so this never fails.
    pub fn from_bits(bits: u8) -> (r: Option<Self>)
        ensures
            r == Some(PTEFlags { bits }),
    {
        Some(PTEFlags { bits })
    }

    /// The raw bits.
    pub fn bits(&self) -> (r: u8)
        ensures
            r == self.bits,
    {
        self.bits
    }

    /// The flags that are in either set.
    pub fn union(self, other: PTEFlags) -> (r: Self)
        ensures
            r.bits == self.bits | other.bits,
    {
        PTEFlags { bits: self.bits | other.bits }
    }

    /// The flags that are in both sets.
    pub fn intersection(self, other: PTEFlags) -> (r: Self)
        ensures
            r.bits == self.bits & other.bits,
    {
        PTEFlags { bits: self.bits & other.bits }
    }

    /// Whether no flag is set.
    pub fn is_empty(&self) -> (r: bool)
        ensures
            r == (self.bits == 0),
    {
        self.bits == 0
    }

    /// Whether the flag with the given bit is in the set.
    pub open spec fn has(self, flag: u8) -> bool {
        self.bits & flag != 0
    }

    /// Whether every flag of `other` is in this set.
    pub fn contains(&self, other: PTEFlags) -> (r: bool)
        ensures
            r == (self.bits & other.bits == other.bits),
    {
        self.bits & other.bits == other.bits
    }
}

/// A page-table entry: a 44-bit frame number above two reserved bits and
/// the eight flag bits.
#[derive(Clone, Copy, Debug, PartialEq, Eq, Structural)]
pub struct PageTableEntry {
    pub bits: u64,
}

impl PageTableEntry {
    /// The frame number that the entry holds.
    pub open spec fn spec_ppn(self) -> u64 {
        (self.bits / 1024) % 0x1000_0000_0000
    }

    /// The flag bits that the entry holds.
    pub open spec fn spec_flags(self) -> PTEFlags {
        PTEFlags { bits: (self.bits % 256) as u8 }
    }

    /// Whether the Valid flag is set.
    pub open spec fn spec_valid(self) -> bool {
        self.bits % 2 == 1
    }

    /// The entry made of a frame number below `PPN_LIMIT` and a set of flags.
    pub open spec fn spec_new(ppn: PhysPageNum, flags: PTEFlags) -> PageTableEntry {
        PageTableEntry { bits: (ppn.0 * 1024 + flags.bits) as u64 }
    }

    /// Builds an entry from a frame number and flags.
    pub fn new(ppn: PhysPageNum, flags: PTEFlags) -> (r: Self)
        requires
            ppn.0 < PPN_LIMIT,
        ensures
            r == Self::spec_new(ppn, flags),
            r.spec_ppn() == ppn.0,
            r.spec_flags() == flags,
            r.spec_valid() == flags.has(PTEFlags::V),
    {
        let p: u64 = ppn.0;
        let f: u64 = flags.bits as u64;
        let fb: u8 = flags.bits;
        let bits: u64 = (p << 10) | f;
        assert(p < 0x1000_0000_0000 && f < 256 ==> bits == p * 1024 + f && (bits / 1024) % 0x1000_0000_0000
            == p && bits % 256 == f) by (bit_vector)
            requires
                bits == (p << 10) | f,
        ;
        assert((f % 2 == 1) == (fb & 1 != 0)) by (bit_vector)
            requires
                f == fb as u64,
        ;
        PageTableEntry { bits }
    }

    /// The entry with every bit clear.
    pub fn empty() -> (r: Self)
        ensures
            r.bits == 0,
            !r.spec_valid(),
    {
        PageTableEntry { bits: 0 }
    }

    /// The frame number of the entry.
    pub fn ppn(&self) -> (r: PhysPageNum)
        ensures
            r.0 == self.spec_ppn(),
            r.0 < PPN_LIMIT,
    {
        let b: u64 = self.bits;
        let p: u64 = (b >> 10) & PPN_MASK;
        assert(p == (b / 1024) % 0x1000_0000_0000 && p < 0x1000_0000_0000) by (bit_vector)
            requires
                p == (b >> 10) & 0xfff_ffff_ffff,
        ;
        PhysPageNum(p)
    }

    /// The flags of the entry.
    pub fn flags(&self) -> (r: PTEFlags)
        ensures
            r == self.spec_flags(),
    {
        let b: u64 = self.bits;
        let f: u64 = b & 0xff;
        assert(f == b % 256) by (bit_vector)
            requires
                f == b & 0xff,
        ;
        PTEFlags { bits: f as u8 }
    }

    /// Whether the entry is valid.
    pub fn is_valid(&self) -> (r: bool)
        ensures
            r == self.spec_valid(),
    {
        let b: u64 = self.bits;
        assert((b & 1 != 0) == (b % 2 == 1)) by (bit_vector);
        b & 1 != 0
    }

    /// Whether the page may be read.
    pub fn readable(&self) -> (r: bool)
        ensures
            r == self.spec_flags().has(PTEFlags::R),
    {
        let b: u64 = self.bits;
        assert((b & 2 != 0) == (((b % 256) as u8) & 2 != 0)) by (bit_vector);
        b & 2 != 0
    }

    /// Whether the page may be written.
    pub fn writable(&self) -> (r: bool)
        ensures
            r == self.spec_flags().has(PTEFlags::W),
    {
        let b: u64 = self.bits;
        assert((b & 4 != 0) == (((b % 256) as u8) & 4 != 0)) by (bit_vector);
        b & 4 != 0
    }

    /// Whether instructions may be fetched from the page.
    pub fn executable(&self) -> (r: bool)
        ensures
            r == self.spec_flags().has(PTEFlags::X),
    {
        let b: u64 = self.bits;
        assert((b & 8 != 0) == (((b % 256) as u8) & 8 != 0)) by (bit_vector);
        b & 8 != 0
    }
}

/// The place of one page-table entry: a table frame and an index in it.
#[derive(Clone, Copy, Debug, PartialEq, Eq, Structural)]
pub struct PteSlot {
    pub frame: PhysPageNum,
    pub index: usize,
}

/// The table that a valid entry of a root or middle table points to.
pub open spec fn child(m: Seq<FrameView>, frame: u64, idx: usize) -> Option<u64> {
    let e = m[frame as int].entries[idx as int];
    if e.spec_valid() {
        Some(e.spec_ppn())
    } else {
        None
    }
}

/// The slot of the leaf entry for `vpn`, found by walking from `root`;
/// nothing if a table on the way is absent.
pub open spec fn leaf_slot(m: Seq<FrameView>, root: u64, vpn: usize) -> Option<PteSlot> {
    match child(m, root, spec_index(vpn, 0)) {
        None => None,
        Some(l1) => match child(m, l1, spec_index(vpn, 1)) {
            None => None,
            Some(l2) => Some(PteSlot { frame: PhysPageNum(l2), index: spec_index(vpn, 2) }),
        },
    }
}

/// The leaf entry for `vpn`, valid or not; nothing if a table on the way
/// is absent.
pub open spec fn translation(m: Seq<FrameView>, root: u64, vpn: usize) -> Option<PageTableEntry> {
    match leaf_slot(m, root, vpn) {
        None => None,
        Some(s) => Some(m[s.frame.0 as int].entries[s.index as int]),
    }
}

/// How many tables are absent on the way from `root` to the leaf entry
/// for `vpn`.
pub open spec fn missing_tables(m: Seq<FrameView>, root: u64, vpn: usize) -> nat {
    match child(m, root, spec_index(vpn, 0)) {
        None => 2,
        Some(l1) => match child(m, l1, spec_index(vpn, 1)) {
            None => 1,
            Some(l2) => 0,
        },
    }
}

/// The entry that links a parent table to a new table in frame `ppn`.
pub open spec fn link_entry(ppn: u64) -> PageTableEntry {
    PageTableEntry::spec_new(PhysPageNum(ppn), PTEFlags { bits: 1 })
}

/// The memory after the table below entry `idx` of `frame` has been made
/// to exist: unchanged if it was there, else with a cleared frame appended
/// and linked.
pub open spec fn with_child(m: Seq<FrameView>, frame: u64, idx: usize) -> Seq<FrameView> {
    if child(m, frame, idx) is Some {
        m
    } else {
        set_entry(
            m.push(zero_frame((m[frame as int].level + 1) as usize)),
            frame,
            idx,
            link_entry(m.len() as u64),
        )
    }
}

/// The memory after every table on the way from `root` to the leaf entry
/// for `vpn` has been made to exist.
pub open spec fn with_path(m: Seq<FrameView>, root: u64, vpn: usize) -> Seq<FrameView> {
    let m1 = with_child(m, root, spec_index(vpn, 0));
    with_child(m1, child(m1, root, spec_index(vpn, 0)).unwrap(), spec_index(vpn, 1))
}

/// The frames that `with_path` appends, in the order of allocation.
pub open spec fn path_frames(m: Seq<FrameView>, root: u64, vpn: usize) -> Seq<PhysPageNum> {
    Seq::new(missing_tables(m, root, vpn), |k: int| PhysPageNum((m.len() + k) as u64))
}

/// The memory after `vpn` has been mapped to the entry `e`.
pub open spec fn mapped(m: Seq<FrameView>, root: u64, vpn: usize, e: PageTableEntry) -> Seq<
    FrameView,
> {
    let m2 = with_path(m, root, vpn);
    let s = leaf_slot(m2, root, vpn).unwrap();
    set_entry(m2, s.frame.0, s.index, e)
}

/// The memory after the leaf entry for `vpn`, whose tables exist, has been
/// replaced by `e`.
pub open spec fn set_leaf(m: Seq<FrameView>, root: u64, vpn: usize, e: PageTableEntry) -> Seq<FrameView> {
    let s = leaf_slot(m, root, vpn).unwrap();
    set_entry(m, s.frame.0, s.index, e)
}

/// `root` is the root table of an address space in `m`.
pub open spec fn table_wf(m: Seq<FrameView>, root: u64) -> bool {
    root < m.len() && m[root as int].level == 0
}

/// The token of the address space rooted at `root`.
pub open spec fn spec_token(root: u64) -> u64 {
    MODE_TAG | root
}

/// The root that a token names.
pub open spec fn token_root(token: u64) -> u64 {
    token & PPN_MASK
}

/// Whether `root` is the root table of an address space in `mem`.
pub fn is_root_table(mem: &PhysMemory, root: PhysPageNum) -> (r: bool)
    ensures
        r == table_wf(mem@, root.0),
{
    let n: usize = mem.frame_count();
    if root.0 >= n as u64 {
        return false;
    }
    assert(mem@[root.0 as int] == mem.frames@[root.0 as int]@);
    mem.frames[root.0 as usize].level == 0
}

/// An address translator: the root table of one address space and the
/// frames it has allocated for its tables.
pub struct PageTable {
    pub root_ppn: PhysPageNum,
    pub frames: Vec<PhysPageNum>,
}

impl PageTable {
    /// The translator's root is a root table of `mem`.
    pub open spec fn wf(&self, mem: &PhysMemory) -> bool {
        table_wf(mem@, self.root_ppn.0)
    }

    /// Creates an empty address space with a root table of its own.
    pub fn new(mem: &mut PhysMemory) -> (r: Self)
        requires
            old(mem).wf(),
            old(mem)@.len() < old(mem).limit,
        ensures
            final(mem)@ == old(mem)@.push(zero_frame(0)),
            final(mem).limit == old(mem).limit,
            final(mem).wf(),
            r.root_ppn.0 == old(mem)@.len(),
            r.frames@ == seq![r.root_ppn],
            r.wf(final(mem)),
    {
        let frame = mem.frame_alloc(0).unwrap();
        let mut frames: Vec<PhysPageNum> = Vec::new();
        frames.push(frame);
        PageTable { root_ppn: frame, frames }
    }

    /// The translator for the address space that a token names. It owns no
    /// frame.
    pub fn from_token(satp: u64) -> (r: Self)
        ensures
            r.root_ppn.0 == token_root(satp),
            r.frames@ == Seq::<PhysPageNum>::empty(),
    {
        PageTable { root_ppn: PhysPageNum(satp & PPN_MASK), frames: Vec::new() }
    }

    /// The token of this address space: the paging-mode tag and the root
    /// frame number.
    pub fn token(&self) -> (r: u64)
        ensures
            r == spec_token(self.root_ppn.0),
    {
        MODE_TAG | self.root_ppn.0
    }

    /// Makes sure that the table below entry `idx` of `frame` exists, and
    /// returns its frame number.
    fn ensure_child(&mut self, mem: &mut PhysMemory, frame: PhysPageNum, idx: usize) -> (r:
        PhysPageNum)
        requires
            old(mem).wf(),
            frame.0 < old(mem)@.len(),
            old(mem)@[frame.0 as int].level < 2,
            idx < 512,
            child(old(mem)@, frame.0, idx) is Some || old(mem)@.len() < old(mem).limit,
        ensures
            final(mem)@ == with_child(old(mem)@, frame.0, idx),
            child(final(mem)@, frame.0, idx) == Some(r.0),
            final(mem).wf(),
            final(mem).limit == old(mem).limit,
            r.0 < final(mem)@.len(),
            final(mem)@[r.0 as int].level == old(mem)@[frame.0 as int].level + 1,
            final(mem)@.len() >= old(mem)@.len(),
            forall|f: int|
                0 <= f < old(mem)@.len() ==> (#[trigger] final(mem)@[f]).level == old(mem)@[f].level,
            forall|f: int|
                0 <= f < old(mem)@.len() && f != frame.0 ==> #[trigger] final(mem)@[f] == old(mem)@[f],
            child(old(mem)@, frame.0, idx) is None ==> r.0 == old(mem)@.len() && final(mem)@[r.0 as int]
                == zero_frame((old(mem)@[frame.0 as int].level + 1) as usize),
            final(self).root_ppn == old(self).root_ppn,
            final(self).frames@ == (if child(old(mem)@, frame.0, idx) is Some {
                old(self).frames@
            } else {
                old(self).frames@.push(r)
            }),
    {
        let ghost m0 = mem@;
        let pte = mem.read(frame, idx);
        if pte.is_valid() {
            return pte.ppn();
        }
        let level: usize = mem.frames[frame.0 as usize].level;
        assert(level == m0[frame.0 as int].level);
        let fresh = mem.frame_alloc(level + 1).unwrap();
        let link = PageTableEntry::new(fresh, PTEFlags { bits: PTEFlags::V });
        assert(1u8 & 1u8 != 0) by (bit_vector);
        proof {
            lemma_fresh_frame_has_no_parent(m0, zero_frame((level + 1) as usize));
            lemma_set_entry_keeps_wf(mem@, frame.0, idx, link);
        }
        mem.write(frame, idx, link);
        self.frames.push(fresh);
        fresh
    }

    /// Finds the slot of the leaf entry for `vpn`, creating the tables on
    /// the way that are absent. The leaf entry itself is left as it is.
    pub fn find_pte_create(&mut self, mem: &mut PhysMemory, vpn: VirtPageNum) -> (r: Option<PteSlot>)
        requires
            old(mem).wf(),
            old(self).wf(old(mem)),
            old(mem)@.len() + missing_tables(old(mem)@, old(self).root_ppn.0, vpn.0) <= old(mem).limit,
        ensures
            final(mem)@ == with_path(old(mem)@, old(self).root_ppn.0, vpn.0),
            r is Some,
            r == leaf_slot(final(mem)@, old(self).root_ppn.0, vpn.0),
            final(mem).wf(),
            final(mem).limit == old(mem).limit,
            final(mem)@.len() == old(mem)@.len() + missing_tables(
                old(mem)@,
                old(self).root_ppn.0,
                vpn.0,
            ),
            final(self).root_ppn == old(self).root_ppn,
            final(self).wf(final(mem)),
            final(self).frames@ == old(self).frames@ + path_frames(
                old(mem)@,
                old(self).root_ppn.0,
                vpn.0,
            ),
            r.unwrap().frame.0 < final(mem)@.len(),
            r.unwrap().index < 512,
            final(mem)@[r.unwrap().frame.0 as int].level == 2,
            translation(final(mem)@, old(self).root_ppn.0, vpn.0) == (match translation(
                old(mem)@,
                old(self).root_ppn.0,
                vpn.0,
            ) {
                Some(e) => Some(e),
                None => Some(PageTableEntry { bits: 0 }),
            }),
    {
        let ghost m0 = mem@;
        let ghost f0 = self.frames@;
        let root = self.root_ppn;
        let idxs = vpn.indexes();
        let l1 = self.ensure_child(mem, root, idxs[0]);
        let ghost m1 = mem@;
        assert(m1[l1.0 as int].entries.len() == 512);
        let l2 = self.ensure_child(mem, l1, idxs[1]);
        let ghost m2 = mem@;
        proof {
            assert(m2[root.0 as int] == m1[root.0 as int]);
            assert(child(m2, root.0, idxs[0]) == Some(l1.0));
            assert(self.frames@ =~= f0 + path_frames(m0, root.0, vpn.0));
            assert(m2[l2.0 as int].entries.len() == 512);
        }
        Some(PteSlot { frame: l2, index: idxs[2] })
    }

    /// Finds the slot of the leaf entry for `vpn`; nothing if a table on
    /// the way is absent. Nothing is allocated.
    pub fn find_pte(&self, mem: &PhysMemory, vpn: VirtPageNum) -> (r: Option<PteSlot>)
        requires
            mem.wf(),
            self.wf(mem),
        ensures
            r == leaf_slot(mem@, self.root_ppn.0, vpn.0),
            r is Some ==> r.unwrap().frame.0 < mem@.len() && r.unwrap().index < 512 && mem@[r.unwrap().frame.0 as int].level
                == 2,
    {
        let idxs = vpn.indexes();
        let e0 = mem.read(self.root_ppn, idxs[0]);
        if !e0.is_valid() {
            return None;
        }
        let l1 = e0.ppn();
        let e1 = mem.read(l1, idxs[1]);
        if !e1.is_valid() {
            return None;
        }
        Some(PteSlot { frame: e1.ppn(), index: idxs[2] })
    }

    /// How many tables are absent on the way to the leaf entry for `vpn`.
    pub fn missing(&self, mem: &PhysMemory, vpn: VirtPageNum) -> (r: usize)
        requires
            mem.wf(),
            self.wf(mem),
        ensures
            r == missing_tables(mem@, self.root_ppn.0, vpn.0),
            r <= 2,
    {
        let idxs = vpn.indexes();
        let e0 = mem.read(self.root_ppn, idxs[0]);
        if !e0.is_valid() {
            return 2;
        }
        let e1 = mem.read(e0.ppn(), idxs[1]);
        if !e1.is_valid() {
            return 1;
        }
        0
    }

    /// Installs a leaf entry for `vpn` that names frame `ppn` with the
    /// given flags and the Valid flag. The page must not be mapped yet.
    pub fn map(&mut self, mem: &mut PhysMemory, vpn: VirtPageNum, ppn: PhysPageNum, flags: PTEFlags)
        requires
            old(mem).wf(),
            old(self).wf(old(mem)),
            ppn.0 < PPN_LIMIT,
            old(mem)@.len() + missing_tables(old(mem)@, old(self).root_ppn.0, vpn.0) <= old(mem).limit,
            match translation(old(mem)@, old(self).root_ppn.0, vpn.0) {
                Some(e) => !e.spec_valid(),
                None => true,
            },
        ensures
            final(mem)@ == mapped(
                old(mem)@,
                old(self).root_ppn.0,
                vpn.0,
                PageTableEntry::spec_new(ppn, PTEFlags { bits: flags.bits | 1 }),
            ),
            translation(final(mem)@, old(self).root_ppn.0, vpn.0) == Some(
                PageTableEntry::spec_new(ppn, PTEFlags { bits: flags.bits | 1 }),
            ),
            translation(final(mem)@, old(self).root_ppn.0, vpn.0).unwrap().spec_valid(),
            translation(final(mem)@, old(self).root_ppn.0, vpn.0).unwrap().spec_ppn() == ppn.0,
            final(mem).wf(),
            final(mem).limit == old(mem).limit,
            final(self).root_ppn == old(self).root_ppn,
            final(self).wf(final(mem)),
            final(self).frames@ == old(self).frames@ + path_frames(
                old(mem)@,
                old(self).root_ppn.0,
                vpn.0,
            ),
    {
        let slot = self.find_pte_create(mem, vpn).unwrap();
        let ghost m2 = mem@;
        let fb: u8 = flags.bits;
        assert((fb | 1u8) & 1u8 != 0) by (bit_vector);
        let pte = PageTableEntry::new(ppn, flags.union(PTEFlags { bits: PTEFlags::V }));
        proof {
            lemma_set_entry_keeps_wf(m2, slot.frame.0, slot.index, pte);
            lemma_leaf_write(m2, self.root_ppn.0, vpn.0, pte);
        }
        mem.write(slot.frame, slot.index, pte);
    }

    /// Clears the leaf entry for `vpn`. The page must be mapped.
    pub fn unmap(&mut self, mem: &mut PhysMemory, vpn: VirtPageNum)
        requires
            old(mem).wf(),
            old(self).wf(old(mem)),
            translation(old(mem)@, old(self).root_ppn.0, vpn.0) is Some,
            translation(old(mem)@, old(self).root_ppn.0, vpn.0).unwrap().spec_valid(),
        ensures
            final(mem)@ == set_leaf(old(mem)@, old(self).root_ppn.0, vpn.0, PageTableEntry { bits: 0 }),
            translation(final(mem)@, old(self).root_ppn.0, vpn.0) == Some(PageTableEntry { bits: 0 }),
            final(mem).wf(),
            final(mem).limit == old(mem).limit,
            final(self).root_ppn == old(self).root_ppn,
            final(self).frames@ == old(self).frames@,
            final(self).wf(final(mem)),
    {
        let slot = self.find_pte(mem, vpn).unwrap();
        let pte = PageTableEntry::empty();
        proof {
            lemma_set_entry_keeps_wf(mem@, slot.frame.0, slot.index, pte);
            lemma_leaf_write(mem@, self.root_ppn.0, vpn.0, pte);
        }
        mem.write(slot.frame, slot.index, pte);
    }

    /// The leaf entry for `vpn`, valid or not; nothing if a table on the
    /// way is absent. The result is a function of the memory and the page
    /// number alone, so asking again without a change in between gives
    /// the same entry.
    pub fn translate(&self, mem: &PhysMemory, vpn: VirtPageNum) -> (r: Option<PageTableEntry>)
        requires
            mem.wf(),
            self.wf(mem),
        ensures
            r == translation(mem@, self.root_ppn.0, vpn.0),
    {
        match self.find_pte(mem, vpn) {
            Some(slot) => Some(mem.read(slot.frame, slot.index)),
            None => None,
        }
    }
}

/// A token names the root it was made of and carries the paging-mode tag
/// in its top four bits.
pub proof fn lemma_token_names_root(root: u64)
    requires
        root < PPN_LIMIT,
    ensures
        token_root(spec_token(root)) == root,
        spec_token(root) == 8 * 0x1000_0000_0000_0000 + root,
        spec_token(root) >> 60 == 8,
{
    assert(root < 0x1000_0000_0000 ==> ((0x8000_0000_0000_0000u64 | root) & 0xfff_ffff_ffff) == root && (
    0x8000_0000_0000_0000u64 | root) == 0x8000_0000_0000_0000u64 + root && ((0x8000_0000_0000_0000u64 | root)
        >> 60) == 8) by (bit_vector);
}

/// A frame that has just been appended to a valid memory has no parent.
pub proof fn lemma_fresh_frame_has_no_parent(m: Seq<FrameView>, fr: FrameView)
    requires
        mem_wf(m),
        fr == zero_frame(fr.level),
    ensures
        !crate::frame::has_parent(m.push(fr), m.len() as u64),
{
    let m2 = m.push(fr);
    assert forall|f: int, i: int|
        0 <= f < m2.len() && 0 <= i < 512 && m2[f].level < 2 && (#[trigger] m2[f].entries[i]).spec_valid()
            implies m2[f].entries[i].spec_ppn() != m.len() by {
        if f < m.len() {
            assert(m2[f] == m[f]);
            assert(m[f].entries[i].spec_valid());
        }
    }
}

/// Writing the leaf entry of a page whose tables exist changes no table
/// on the way to it, so the page then translates to the entry written.
pub proof fn lemma_leaf_write(m: Seq<FrameView>, root: u64, vpn: usize, e: PageTableEntry)
    requires
        mem_wf(m),
        table_wf(m, root),
        leaf_slot(m, root, vpn) is Some,
    ensures
        ({
            let s = leaf_slot(m, root, vpn).unwrap();
            let m2 = set_entry(m, s.frame.0, s.index, e);
            &&& leaf_slot(m2, root, vpn) == Some(s)
            &&& translation(m2, root, vpn) == Some(e)
        }),
{
    let i0 = spec_index(vpn, 0);
    let i1 = spec_index(vpn, 1);
    assert(m[root as int].entries.len() == 512);
    assert(m[root as int].entries[i0 as int].spec_valid());
    let l1 = child(m, root, i0).unwrap();
    assert(m[l1 as int].entries.len() == 512);
    assert(m[l1 as int].entries[i1 as int].spec_valid());
    let s = leaf_slot(m, root, vpn).unwrap();
    assert(m[s.frame.0 as int].entries.len() == 512);
}

} // verus!
