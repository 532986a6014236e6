//! Addresses and page numbers of the 39-bit, three-level paging scheme.

use vstd::prelude::*;
use crate::config::PAGE_SIZE;

verus! {

/// A physical page (frame) number.
#[derive(Clone, Copy, Debug, PartialEq, Eq, Structural)]
pub struct PhysPageNum(pub u64);

/// A virtual page number.
#[derive(Clone, Copy, Debug, PartialEq, Eq, Structural)]
pub struct VirtPageNum(pub usize);

/// A virtual address.
#[derive(Clone, Copy, Debug, PartialEq, Eq, Structural)]
pub struct VirtAddr(pub usize);

/// The index that `vpn` selects in the table of the given level
/// (0 is the root, 2 the leaf level).
pub open spec fn spec_index(vpn: usize, level: int) -> usize {
    if level == 0 {
        (vpn / 262144) % 512
    } else if level == 1 {
        (vpn / 512) % 512
    } else {
        vpn % 512
    }
}

impl VirtPageNum {
    /// The three table indexes of this page number, root level first.
    pub fn indexes(&self) -> (r: [usize; 3])
        ensures
            forall|l: int| 0 <= l < 3 ==> r[l] == spec_index(self.0, l),
            forall|l: int| 0 <= l < 3 ==> r[l] < 512,
    {
        let v: usize = self.0;
        [(v / 262144) % 512, (v / 512) % 512, v % 512]
    }

    /// Advances to the next page.
    pub fn step(&mut self)
        requires
            old(self).0 < usize::MAX,
        ensures
            final(self).0 == old(self).0 + 1,
    {
        self.0 = self.0 + 1;
    }
}

impl VirtAddr {
    /// The page that holds this address.
    pub fn floor(&self) -> (r: VirtPageNum)
        ensures
            r.0 == self.0 / PAGE_SIZE,
    {
        VirtPageNum(self.0 / PAGE_SIZE)
    }

    /// The offset of this address inside its page.
    pub fn page_offset(&self) -> (r: usize)
        ensures
            r == self.0 % PAGE_SIZE,
    {
        self.0 % PAGE_SIZE
    }

    /// Whether this address is the first of its page.
    pub fn aligned(&self) -> (r: bool)
        ensures
            r == (self.0 % PAGE_SIZE == 0),
    {
        self.page_offset() == 0
    }
}

} // verus!
