use kernel_core::address::{PhysPageNum, VirtAddr, VirtPageNum};
use kernel_core::frame::PhysMemory;
use kernel_core::page_table::{PTEFlags, PageTable, PageTableEntry};

fn fresh() -> (PhysMemory, PageTable) {
    let mut mem = PhysMemory::new(64);
    let pt = PageTable::new(&mut mem);
    (mem, pt)
}

#[test]
fn entry_keeps_frame_number_and_flags() {
    let flags = PTEFlags { bits: PTEFlags::V | PTEFlags::R | PTEFlags::W };
    let pte = PageTableEntry::new(PhysPageNum(0x12345), flags);
    assert_eq!(pte.bits, (0x12345u64 << 10) | 7);
    assert_eq!(pte.ppn(), PhysPageNum(0x12345));
    assert_eq!(pte.flags(), flags);
    assert!(pte.is_valid());
    assert!(pte.readable());
    assert!(pte.writable());
    assert!(!pte.executable());
}

#[test]
fn entry_with_largest_frame_number() {
    let top = (1u64 << 44) - 1;
    let pte = PageTableEntry::new(PhysPageNum(top), PTEFlags { bits: PTEFlags::X });
    assert_eq!(pte.ppn(), PhysPageNum(top));
    assert!(!pte.is_valid());
    assert!(pte.executable());
    assert!(!pte.readable());
}

#[test]
fn empty_entry_is_not_valid() {
    let pte = PageTableEntry::empty();
    assert_eq!(pte.bits, 0);
    assert!(!pte.is_valid());
    assert_eq!(pte.ppn(), PhysPageNum(0));
    assert!(pte.flags().is_empty());
}

#[test]
fn flag_sets_combine() {
    let rw = PTEFlags { bits: PTEFlags::R }.union(PTEFlags { bits: PTEFlags::W });
    assert_eq!(rw.bits(), 6);
    assert!(rw.contains(PTEFlags { bits: PTEFlags::R }));
    assert!(!rw.contains(PTEFlags { bits: PTEFlags::X }));
    assert_eq!(rw.intersection(PTEFlags { bits: PTEFlags::W | PTEFlags::X }).bits(), 4);
    assert_eq!(PTEFlags::from_bits(0xff), Some(PTEFlags { bits: 0xff }));
    assert!(PTEFlags::empty().is_empty());
}

#[test]
fn page_number_splits_into_three_indexes() {
    assert_eq!(VirtPageNum((1 << 18) + (2 << 9) + 3).indexes(), [1, 2, 3]);
    assert_eq!(VirtPageNum(0x7ff_ffff).indexes(), [511, 511, 511]);
    assert_eq!(VirtPageNum(0).indexes(), [0, 0, 0]);
    assert_eq!(VirtPageNum(1 << 27).indexes(), [0, 0, 0]);
}

#[test]
fn address_splits_into_page_and_offset() {
    let va = VirtAddr(0x1234_5678);
    assert_eq!(va.floor(), VirtPageNum(0x12345));
    assert_eq!(va.page_offset(), 0x678);
    assert!(!va.aligned());
    assert!(VirtAddr(0x3000).aligned());
    let mut vpn = VirtPageNum(7);
    vpn.step();
    assert_eq!(vpn, VirtPageNum(8));
}

#[test]
fn new_table_has_a_root_of_its_own() {
    let (mem, pt) = fresh();
    assert_eq!(mem.frame_count(), 1);
    assert_eq!(pt.root_ppn, PhysPageNum(0));
    assert_eq!(pt.frames, vec![PhysPageNum(0)]);
}

#[test]
fn map_then_translate() {
    let (mut mem, mut pt) = fresh();
    pt.map(&mut mem, VirtPageNum(5), PhysPageNum(77), PTEFlags { bits: PTEFlags::R });
    let pte = pt.translate(&mem, VirtPageNum(5)).unwrap();
    assert_eq!(pte.ppn(), PhysPageNum(77));
    assert!(pte.is_valid());
    assert!(pte.readable());
    assert!(!pte.writable());
    assert_eq!(pte.flags().bits(), PTEFlags::R | PTEFlags::V);
    assert_eq!(mem.frame_count(), 3);
    assert_eq!(pt.frames, vec![PhysPageNum(0), PhysPageNum(1), PhysPageNum(2)]);
}

#[test]
fn translate_allocates_nothing() {
    let (mem, pt) = fresh();
    assert!(pt.translate(&mem, VirtPageNum(5)).is_none());
    assert!(pt.find_pte(&mem, VirtPageNum(5)).is_none());
    assert_eq!(mem.frame_count(), 1);
}

#[test]
fn neighbour_in_the_same_leaf_table_is_found_but_not_valid() {
    let (mut mem, mut pt) = fresh();
    pt.map(&mut mem, VirtPageNum(5), PhysPageNum(77), PTEFlags { bits: PTEFlags::R });
    let pte = pt.translate(&mem, VirtPageNum(6)).unwrap();
    assert!(!pte.is_valid());
    assert!(pt.translate(&mem, VirtPageNum(512)).is_none());
    assert!(pt.translate(&mem, VirtPageNum(1 << 18)).is_none());
}

#[test]
fn second_page_of_a_leaf_table_needs_no_frame() {
    let (mut mem, mut pt) = fresh();
    pt.map(&mut mem, VirtPageNum(5), PhysPageNum(77), PTEFlags { bits: PTEFlags::R });
    assert_eq!(pt.missing(&mem, VirtPageNum(6)), 0);
    assert_eq!(pt.missing(&mem, VirtPageNum(512)), 1);
    assert_eq!(pt.missing(&mem, VirtPageNum(1 << 18)), 2);
    pt.map(&mut mem, VirtPageNum(6), PhysPageNum(78), PTEFlags { bits: PTEFlags::W });
    assert_eq!(mem.frame_count(), 3);
    pt.map(&mut mem, VirtPageNum(512), PhysPageNum(79), PTEFlags { bits: PTEFlags::X });
    assert_eq!(mem.frame_count(), 4);
    assert_eq!(pt.translate(&mem, VirtPageNum(5)).unwrap().ppn(), PhysPageNum(77));
    assert_eq!(pt.translate(&mem, VirtPageNum(6)).unwrap().ppn(), PhysPageNum(78));
    assert_eq!(pt.translate(&mem, VirtPageNum(512)).unwrap().ppn(), PhysPageNum(79));
}

#[test]
fn translating_twice_gives_the_same_entry() {
    let (mut mem, mut pt) = fresh();
    pt.map(&mut mem, VirtPageNum(9), PhysPageNum(33), PTEFlags { bits: PTEFlags::R | PTEFlags::U });
    let first = pt.translate(&mem, VirtPageNum(9));
    let second = pt.translate(&mem, VirtPageNum(9));
    assert_eq!(first, second);
    assert_eq!(first.unwrap().ppn(), second.unwrap().ppn());
    assert_eq!(first.unwrap().flags(), second.unwrap().flags());
    assert_eq!(pt.translate(&mem, VirtPageNum(10)), pt.translate(&mem, VirtPageNum(10)));
}

#[test]
fn unmap_clears_the_entry() {
    let (mut mem, mut pt) = fresh();
    pt.map(&mut mem, VirtPageNum(5), PhysPageNum(77), PTEFlags { bits: PTEFlags::R });
    pt.unmap(&mut mem, VirtPageNum(5));
    assert_eq!(pt.translate(&mem, VirtPageNum(5)), Some(PageTableEntry::empty()));
    assert_eq!(mem.frame_count(), 3);
    pt.map(&mut mem, VirtPageNum(5), PhysPageNum(80), PTEFlags { bits: PTEFlags::W });
    assert_eq!(pt.translate(&mem, VirtPageNum(5)).unwrap().ppn(), PhysPageNum(80));
}

#[test]
fn find_pte_create_makes_the_tables_only() {
    let (mut mem, mut pt) = fresh();
    let slot = pt.find_pte_create(&mut mem, VirtPageNum((3 << 18) + (4 << 9) + 5)).unwrap();
    assert_eq!(slot.frame, PhysPageNum(2));
    assert_eq!(slot.index, 5);
    assert_eq!(mem.frame_count(), 3);
    assert_eq!(pt.find_pte(&mem, VirtPageNum((3 << 18) + (4 << 9) + 5)), Some(slot));
    assert!(!mem.read(slot.frame, slot.index).is_valid());
    assert!(mem.read(PhysPageNum(0), 3).is_valid());
    assert_eq!(mem.read(PhysPageNum(0), 3).ppn(), PhysPageNum(1));
    assert_eq!(mem.read(PhysPageNum(1), 4).ppn(), PhysPageNum(2));
}

#[test]
fn token_names_the_root() {
    let mut mem = PhysMemory::new(64);
    let _first = PageTable::new(&mut mem);
    let pt = PageTable::new(&mut mem);
    assert_eq!(pt.token(), (8u64 << 60) | 1);
    let view = PageTable::from_token(pt.token());
    assert_eq!(view.root_ppn, pt.root_ppn);
    assert!(view.frames.is_empty());
}

#[test]
fn translator_from_token_sees_the_same_mappings() {
    let (mut mem, mut pt) = fresh();
    pt.map(&mut mem, VirtPageNum(5), PhysPageNum(77), PTEFlags { bits: PTEFlags::R });
    let view = PageTable::from_token(pt.token());
    assert_eq!(view.translate(&mem, VirtPageNum(5)), pt.translate(&mem, VirtPageNum(5)));
}

#[test]
fn frames_run_out_at_the_limit() {
    let mut mem = PhysMemory::new(2);
    assert_eq!(mem.frame_alloc(0), Some(PhysPageNum(0)));
    assert_eq!(mem.frame_alloc(1), Some(PhysPageNum(1)));
    assert_eq!(mem.frame_alloc(1), None);
    assert_eq!(mem.frame_count(), 2);
}

#[test]
fn mapping_one_page_leaves_the_others_alone() {
    let mut mem = PhysMemory::new(64);
    let mut a = PageTable::new(&mut mem);
    let mut b = PageTable::new(&mut mem);
    a.map(&mut mem, VirtPageNum(5), PhysPageNum(50), PTEFlags { bits: PTEFlags::R });
    b.map(&mut mem, VirtPageNum(5), PhysPageNum(60), PTEFlags { bits: PTEFlags::W });
    let before_a = a.translate(&mem, VirtPageNum(5));
    let before_b = b.translate(&mem, VirtPageNum(5));
    a.map(&mut mem, VirtPageNum(6), PhysPageNum(51), PTEFlags { bits: PTEFlags::R });
    a.map(&mut mem, VirtPageNum(1 << 20), PhysPageNum(52), PTEFlags { bits: PTEFlags::R });
    assert_eq!(a.translate(&mem, VirtPageNum(5)), before_a);
    assert_eq!(b.translate(&mem, VirtPageNum(5)), before_b);
    assert!(!b.translate(&mem, VirtPageNum(6)).unwrap().is_valid());
    assert!(b.translate(&mem, VirtPageNum(1 << 20)).is_none());
    a.unmap(&mut mem, VirtPageNum(5));
    assert_eq!(b.translate(&mem, VirtPageNum(5)), before_b);
    assert_eq!(a.translate(&mem, VirtPageNum(6)).unwrap().ppn(), PhysPageNum(51));
    assert!(kernel_core::page_table::is_root_table(&mem, a.root_ppn));
    assert!(kernel_core::page_table::is_root_table(&mem, b.root_ppn));
    assert!(!kernel_core::page_table::is_root_table(&mem, PhysPageNum(2)));
    assert!(!kernel_core::page_table::is_root_table(&mem, PhysPageNum(1000)));
}
