use kernel_core::address::{PhysPageNum, VirtPageNum};
use kernel_core::frame::PhysMemory;
use kernel_core::memory::{sys_mmap, sys_munmap};
use kernel_core::page_table::{PTEFlags, PageTable};
use kernel_core::user_memory::{
    buffer_mapped, translated_byte_buffer, translated_taskinfo, translated_timeinfo, PhysRange,
};

fn space() -> (PhysMemory, PageTable) {
    let mut mem = PhysMemory::new(64);
    let mut pt = PageTable::new(&mut mem);
    pt.map(&mut mem, VirtPageNum(1), PhysPageNum(100), PTEFlags { bits: PTEFlags::R });
    pt.map(&mut mem, VirtPageNum(2), PhysPageNum(200), PTEFlags { bits: PTEFlags::R });
    pt.map(&mut mem, VirtPageNum(3), PhysPageNum(300), PTEFlags { bits: PTEFlags::R });
    (mem, pt)
}

#[test]
fn buffer_is_split_at_the_page_boundary() {
    let (mem, pt) = space();
    let v = translated_byte_buffer(&mem, pt.token(), 4096 + 4000, 200);
    assert_eq!(
        v,
        vec![
            PhysRange { ppn: PhysPageNum(100), start: 4000, end: 4096 },
            PhysRange { ppn: PhysPageNum(200), start: 0, end: 104 },
        ]
    );
    assert_eq!(v[0].len(), 4096 - 4000);
    assert_eq!(v.iter().map(|c| c.len()).sum::<usize>(), 200);
}

#[test]
fn buffer_over_three_pages() {
    let (mem, pt) = space();
    let v = translated_byte_buffer(&mem, pt.token(), 4096 + 10, 2 * 4096 + 5);
    assert_eq!(
        v,
        vec![
            PhysRange { ppn: PhysPageNum(100), start: 10, end: 4096 },
            PhysRange { ppn: PhysPageNum(200), start: 0, end: 4096 },
            PhysRange { ppn: PhysPageNum(300), start: 0, end: 15 },
        ]
    );
    assert_eq!(v.iter().map(|c| c.len()).sum::<usize>(), 2 * 4096 + 5);
    assert!(v.iter().all(|c| c.len() <= 4096));
}

#[test]
fn buffer_inside_one_page() {
    let (mem, pt) = space();
    let v = translated_byte_buffer(&mem, pt.token(), 2 * 4096 + 8, 16);
    assert_eq!(v, vec![PhysRange { ppn: PhysPageNum(200), start: 8, end: 24 }]);
}

#[test]
fn buffer_that_ends_with_its_page() {
    let (mem, pt) = space();
    let v = translated_byte_buffer(&mem, pt.token(), 4096 + 96, 4000);
    assert_eq!(v, vec![PhysRange { ppn: PhysPageNum(100), start: 96, end: 4096 }]);
}

#[test]
fn empty_buffer_has_no_range() {
    let (mem, pt) = space();
    assert_eq!(translated_byte_buffer(&mem, pt.token(), 4096, 0), vec![]);
    assert!(buffer_mapped(&mem, pt.token(), 0, 0));
    assert_eq!(translated_byte_buffer(&mem, pt.token(), 0, 0), vec![]);
}

#[test]
fn buffer_over_an_unmapped_page_is_not_mapped() {
    let (mut mem, mut pt) = space();
    assert!(buffer_mapped(&mem, pt.token(), 4096 + 4000, 200));
    assert!(buffer_mapped(&mem, pt.token(), 4096, 3 * 4096));
    assert!(!buffer_mapped(&mem, pt.token(), 4096, 3 * 4096 + 1));
    assert!(!buffer_mapped(&mem, pt.token(), 3 * 4096 + 4000, 200));
    assert!(!buffer_mapped(&mem, pt.token(), 0, 8));
    assert!(!buffer_mapped(&mem, pt.token(), 4095, 2));
    assert!(!buffer_mapped(&mem, pt.token(), 1 << 30, 8));
    pt.unmap(&mut mem, VirtPageNum(2));
    assert!(!buffer_mapped(&mem, pt.token(), 4096 + 4000, 200));
    assert!(!buffer_mapped(&mem, pt.token(), 2 * 4096, 1));
    assert!(buffer_mapped(&mem, pt.token(), 4096 + 4000, 96));
    assert_eq!(
        translated_byte_buffer(&mem, pt.token(), 4096 + 4000, 96),
        vec![PhysRange { ppn: PhysPageNum(100), start: 4000, end: 4096 }]
    );
}

#[test]
fn time_is_stored_as_seconds_and_microseconds() {
    let (mem, pt) = space();
    let w = translated_timeinfo(&mem, pt.token(), 4096 + 4088, 3_000_005);
    assert_eq!(
        w.ranges,
        vec![
            PhysRange { ppn: PhysPageNum(100), start: 4088, end: 4096 },
            PhysRange { ppn: PhysPageNum(200), start: 0, end: 8 },
        ]
    );
    let mut expected = 3u64.to_le_bytes().to_vec();
    expected.extend_from_slice(&5u64.to_le_bytes());
    assert_eq!(w.bytes, expected);
    assert!(!buffer_mapped(&mem, pt.token(), 0, 16));
}

#[test]
fn task_snapshot_is_stored_counters_first() {
    let (mem, pt) = space();
    let mut counts = vec![0u32; 500];
    counts[0] = 7;
    counts[499] = 0x0102_0304;
    let w = translated_taskinfo(&mem, pt.token(), 4096 + 3000, &counts, 1234);
    assert_eq!(w.bytes.len(), 2016);
    assert_eq!(&w.bytes[0..4], &[7, 0, 0, 0]);
    assert_eq!(&w.bytes[4..8], &[0, 0, 0, 0]);
    assert_eq!(&w.bytes[1996..2000], &[4, 3, 2, 1]);
    assert_eq!(&w.bytes[2000..2008], &1234u64.to_le_bytes());
    assert_eq!(&w.bytes[2008..2016], &2u64.to_le_bytes());
    assert_eq!(
        w.ranges,
        vec![
            PhysRange { ppn: PhysPageNum(100), start: 3000, end: 4096 },
            PhysRange { ppn: PhysPageNum(200), start: 0, end: 920 },
        ]
    );
    assert!(!buffer_mapped(&mem, pt.token(), 3 * 4096 + 3000, 2016));
}

#[test]
fn mmap_maps_fresh_frames() {
    let mut mem = PhysMemory::new(64);
    let mut pt = PageTable::new(&mut mem);
    assert_eq!(sys_mmap(&mut mem, &mut pt, 0x10000, 8192, 3), 0);
    let first = pt.translate(&mem, VirtPageNum(0x10)).unwrap();
    let second = pt.translate(&mem, VirtPageNum(0x11)).unwrap();
    assert!(first.is_valid() && second.is_valid());
    assert_eq!(first.flags().bits(), PTEFlags::V | PTEFlags::R | PTEFlags::W | PTEFlags::U);
    assert_eq!(first.ppn(), PhysPageNum(1));
    assert_eq!(second.ppn(), PhysPageNum(4));
    assert_eq!(mem.frame_count(), 5);
    assert!(!pt.translate(&mem, VirtPageNum(0x12)).unwrap().is_valid());
}

#[test]
fn mmap_rounds_the_length_up_to_pages() {
    let mut mem = PhysMemory::new(64);
    let mut pt = PageTable::new(&mut mem);
    assert_eq!(sys_mmap(&mut mem, &mut pt, 0x10000, 4097, 1), 0);
    assert!(pt.translate(&mem, VirtPageNum(0x11)).unwrap().is_valid());
    assert!(!pt.translate(&mem, VirtPageNum(0x12)).unwrap().is_valid());
    assert_eq!(sys_mmap(&mut mem, &mut pt, 0x20000, 0, 1), 0);
    assert!(!pt.translate(&mem, VirtPageNum(0x20)).unwrap().is_valid());
}

#[test]
fn mmap_refuses_bad_requests() {
    let mut mem = PhysMemory::new(64);
    let mut pt = PageTable::new(&mut mem);
    assert_eq!(sys_mmap(&mut mem, &mut pt, 0x10001, 4096, 3), -1);
    assert_eq!(sys_mmap(&mut mem, &mut pt, 0x10000, 4096, 0), -1);
    assert_eq!(sys_mmap(&mut mem, &mut pt, 0x10000, 4096, 8), -1);
    assert_eq!(sys_mmap(&mut mem, &mut pt, 0x10000, usize::MAX, 3), -1);
    assert_eq!(mem.frame_count(), 1);
    assert_eq!(sys_mmap(&mut mem, &mut pt, 0x10000, 4096, 7), 0);
    assert_eq!(sys_mmap(&mut mem, &mut pt, 0x10000, 4096, 7), -1);
    assert_eq!(sys_mmap(&mut mem, &mut pt, 0xf000, 8192, 7), -1);
    assert!(pt.translate(&mem, VirtPageNum(0xf)).unwrap().is_valid());
}

#[test]
fn mmap_fails_when_frames_run_out() {
    let mut mem = PhysMemory::new(3);
    let mut pt = PageTable::new(&mut mem);
    assert_eq!(sys_mmap(&mut mem, &mut pt, 0x10000, 4096, 3), -1);
    assert_eq!(mem.frame_count(), 1);
}

#[test]
fn munmap_unmaps_mapped_pages_only() {
    let mut mem = PhysMemory::new(64);
    let mut pt = PageTable::new(&mut mem);
    assert_eq!(sys_mmap(&mut mem, &mut pt, 0x10000, 8192, 3), 0);
    assert_eq!(sys_munmap(&mut mem, &mut pt, 0x10001, 4096), -1);
    assert_eq!(sys_munmap(&mut mem, &mut pt, 0x10000, 8192), 0);
    assert!(!pt.translate(&mem, VirtPageNum(0x10)).unwrap().is_valid());
    assert!(!pt.translate(&mem, VirtPageNum(0x11)).unwrap().is_valid());
    assert_eq!(sys_munmap(&mut mem, &mut pt, 0x10000, 4096), -1);
    assert_eq!(sys_munmap(&mut mem, &mut pt, 0x4000_0000, 4096), -1);
    assert_eq!(sys_mmap(&mut mem, &mut pt, 0x10000, 8192, 3), 0);
    assert_eq!(sys_munmap(&mut mem, &mut pt, 0x10000, 3 * 4096), -1);
    assert!(!pt.translate(&mem, VirtPageNum(0x11)).unwrap().is_valid());
}
