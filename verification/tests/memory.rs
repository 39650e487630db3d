use os4::config::PAGE_SIZE;
use os4::mm::address::VirtAddr;
use os4::mm::frame_allocator::FrameAllocator;
use os4::mm::memory_set::{MapPermission, MemorySet, PageEntry};
use os4::mm::page_table::{translated_byte_buffer, Access, TranslateError, Window};
use os4::mm::phys_mem::{read_windows, write_windows};

const RW: usize = 3;

/// A space with the pages 1, 5 and 2 mapped, in this order, so that the
/// neighbours 1 and 2 lie on the frames 0 and 2.
fn scattered_space() -> (MemorySet, FrameAllocator) {
    let mut frames = FrameAllocator::new(8);
    let mut space = MemorySet::new(9);
    assert_eq!(space.mmap(&mut frames, PAGE_SIZE, PAGE_SIZE, RW), 0);
    assert_eq!(space.mmap(&mut frames, 5 * PAGE_SIZE, PAGE_SIZE, RW), 0);
    assert_eq!(space.mmap(&mut frames, 2 * PAGE_SIZE, PAGE_SIZE, RW), 0);
    (space, frames)
}

#[test]
fn virt_addr_arithmetic() {
    let va = VirtAddr(3 * PAGE_SIZE + 17);
    assert_eq!(va.floor(), 3);
    assert_eq!(va.page_offset(), 17);
    assert!(!va.aligned());
    assert!(VirtAddr(0).aligned());
    assert!(VirtAddr(7 * PAGE_SIZE).aligned());
    assert_eq!(VirtAddr(PAGE_SIZE - 1).floor(), 0);
    assert_eq!(VirtAddr(usize::MAX).floor(), usize::MAX / PAGE_SIZE);
}

#[test]
fn frames_are_handed_out_lowest_first_and_reused_last_in_first_out() {
    let mut frames = FrameAllocator::new(3);
    assert_eq!(frames.available(), 3);
    assert_eq!(frames.frame_alloc(), Some(0));
    assert_eq!(frames.frame_alloc(), Some(1));
    frames.frame_dealloc(0);
    assert_eq!(frames.available(), 2);
    assert_eq!(frames.frame_alloc(), Some(0));
    assert_eq!(frames.frame_alloc(), Some(2));
    assert_eq!(frames.frame_alloc(), None);
    assert_eq!(frames.available(), 0);
}

#[test]
fn permissions_are_decoded_from_the_low_three_bits() {
    assert_eq!(
        MapPermission::from_port(1),
        MapPermission { read: true, write: false, execute: false }
    );
    assert_eq!(
        MapPermission::from_port(2),
        MapPermission { read: false, write: true, execute: false }
    );
    assert_eq!(
        MapPermission::from_port(4),
        MapPermission { read: false, write: false, execute: true }
    );
    assert_eq!(
        MapPermission::from_port(7),
        MapPermission { read: true, write: true, execute: true }
    );
}

#[test]
fn mmap_installs_whole_pages_on_fresh_frames() {
    let mut frames = FrameAllocator::new(8);
    let mut space = MemorySet::new(1);
    // 4097 bytes need two pages.
    assert_eq!(space.mmap(&mut frames, 4 * PAGE_SIZE, PAGE_SIZE + 1, 5), 0);
    assert_eq!(space.mapped_pages(), 2);
    assert_eq!(frames.available(), 6);
    let perm = MapPermission { read: true, write: false, execute: true };
    assert_eq!(space.translate(4), Some(PageEntry { ppn: 0, perm }));
    assert_eq!(space.translate(5), Some(PageEntry { ppn: 1, perm }));
    assert_eq!(space.translate(3), None);
    assert_eq!(space.translate(6), None);
    assert_eq!(space.token(), 1);
}

#[test]
fn mmap_of_no_bytes_maps_nothing() {
    let mut frames = FrameAllocator::new(2);
    let mut space = MemorySet::new(1);
    assert_eq!(space.mmap(&mut frames, PAGE_SIZE, 0, 1), 0);
    assert_eq!(space.mapped_pages(), 0);
    assert_eq!(frames.available(), 2);
    assert_eq!(space.munmap(&mut frames, PAGE_SIZE, 0), 0);
}

#[test]
fn mmap_then_munmap_leaves_the_range_free_for_a_new_mmap() {
    let mut frames = FrameAllocator::new(4);
    let mut space = MemorySet::new(1);
    let a = 16 * PAGE_SIZE;
    let l = 3 * PAGE_SIZE;
    assert_eq!(space.mmap(&mut frames, a, l, RW), 0);
    assert_eq!(frames.available(), 1);
    assert_eq!(space.munmap(&mut frames, a, l), 0);
    assert_eq!(space.mapped_pages(), 0);
    assert_eq!(frames.available(), 4);
    for vpn in 16..19 {
        assert_eq!(space.translate(vpn), None);
    }
    assert_eq!(
        translated_byte_buffer(&space, a, 8, Access::Read),
        Err(TranslateError::UnmappedPage)
    );
    assert_eq!(space.mmap(&mut frames, a, l, RW), 0);
    assert_eq!(space.mapped_pages(), 3);
    // The frames come back in the order in which they were given up.
    assert_eq!(space.translate(16).unwrap().ppn, 2);
    assert_eq!(space.translate(17).unwrap().ppn, 1);
    assert_eq!(space.translate(18).unwrap().ppn, 0);
}

#[test]
fn overlapping_mmap_is_refused_and_changes_nothing() {
    let mut frames = FrameAllocator::new(8);
    let mut space = MemorySet::new(1);
    let a = 10 * PAGE_SIZE;
    assert_eq!(space.mmap(&mut frames, a, 2 * PAGE_SIZE, RW), 0);
    let overlapping = [
        (a, 2 * PAGE_SIZE),
        (a, 1),
        (a + PAGE_SIZE, PAGE_SIZE),
        (a - PAGE_SIZE, PAGE_SIZE + 1),
        (a - PAGE_SIZE, 4 * PAGE_SIZE),
        (a + PAGE_SIZE, 3 * PAGE_SIZE),
    ];
    for (start, len) in overlapping {
        assert_eq!(space.mmap(&mut frames, start, len, 1), -1);
        assert_eq!(space.mapped_pages(), 2);
        assert_eq!(frames.available(), 6);
        assert_eq!(space.translate(10).unwrap().ppn, 0);
        assert_eq!(space.translate(11).unwrap().ppn, 1);
        assert_eq!(space.translate(9), None);
        assert_eq!(space.translate(12), None);
    }
    // Ranges that only touch the mapped one are granted.
    assert_eq!(space.mmap(&mut frames, a - PAGE_SIZE, PAGE_SIZE, 1), 0);
    assert_eq!(space.mmap(&mut frames, a + 2 * PAGE_SIZE, 1, 1), 0);
}

#[test]
fn unaligned_start_is_refused_without_side_effects() {
    let mut frames = FrameAllocator::new(8);
    let mut space = MemorySet::new(1);
    assert_eq!(space.mmap(&mut frames, PAGE_SIZE, PAGE_SIZE, RW), 0);
    assert_eq!(space.mmap(&mut frames, 3 * PAGE_SIZE + 1, PAGE_SIZE, RW), -1);
    assert_eq!(space.mmap(&mut frames, 8, 8, RW), -1);
    assert_eq!(space.munmap(&mut frames, PAGE_SIZE + 8, PAGE_SIZE - 8), -1);
    assert_eq!(space.munmap(&mut frames, PAGE_SIZE - 1, 2), -1);
    assert_eq!(space.mapped_pages(), 1);
    assert_eq!(frames.available(), 7);
    assert_eq!(space.translate(1).unwrap().ppn, 0);
}

#[test]
fn invalid_permissions_are_refused() {
    let mut frames = FrameAllocator::new(8);
    let mut space = MemorySet::new(1);
    for port in [0usize, 8, 9, 16, usize::MAX] {
        assert_eq!(space.mmap(&mut frames, PAGE_SIZE, PAGE_SIZE, port), -1);
    }
    assert_eq!(space.mapped_pages(), 0);
    assert_eq!(frames.available(), 8);
    for port in 1usize..8 {
        assert_eq!(space.mmap(&mut frames, port * PAGE_SIZE, PAGE_SIZE, port), 0);
    }
    assert_eq!(space.mapped_pages(), 7);
}

#[test]
fn mmap_fails_when_frames_run_out() {
    let mut frames = FrameAllocator::new(2);
    let mut space = MemorySet::new(1);
    assert_eq!(space.mmap(&mut frames, 0, 3 * PAGE_SIZE, RW), -1);
    assert_eq!(space.mapped_pages(), 0);
    assert_eq!(frames.available(), 2);
    assert_eq!(space.mmap(&mut frames, 0, 2 * PAGE_SIZE, RW), 0);
    assert_eq!(space.mmap(&mut frames, 2 * PAGE_SIZE, 1, RW), -1);
}

#[test]
fn ranges_that_leave_the_address_space_are_refused() {
    let mut frames = FrameAllocator::new(2);
    let mut space = MemorySet::new(1);
    let top = usize::MAX - PAGE_SIZE + 1;
    assert_eq!(space.mmap(&mut frames, top, PAGE_SIZE, RW), -1);
    assert_eq!(space.mmap(&mut frames, PAGE_SIZE, usize::MAX, RW), -1);
    assert_eq!(space.munmap(&mut frames, top, PAGE_SIZE), -1);
    assert_eq!(space.mmap(&mut frames, top, PAGE_SIZE - 1, RW), 0);
    assert_eq!(space.translate(usize::MAX / PAGE_SIZE).unwrap().ppn, 0);
}

#[test]
fn munmap_needs_every_page_of_the_range_mapped() {
    let mut frames = FrameAllocator::new(8);
    let mut space = MemorySet::new(1);
    assert_eq!(space.mmap(&mut frames, 0, 2 * PAGE_SIZE, RW), 0);
    assert_eq!(space.munmap(&mut frames, 0, 3 * PAGE_SIZE), -1);
    assert_eq!(space.munmap(&mut frames, 2 * PAGE_SIZE, PAGE_SIZE), -1);
    assert_eq!(space.mapped_pages(), 2);
    assert_eq!(frames.available(), 6);
    // A part of a mapped range may go.
    assert_eq!(space.munmap(&mut frames, PAGE_SIZE, PAGE_SIZE), 0);
    assert_eq!(space.translate(0).unwrap().ppn, 0);
    assert_eq!(space.translate(1), None);
    assert_eq!(frames.available(), 7);
    assert_eq!(space.munmap(&mut frames, 0, 2 * PAGE_SIZE), -1);
}

#[test]
fn range_on_one_page_is_one_window() {
    let (space, _frames) = scattered_space();
    let ws = translated_byte_buffer(&space, 5 * PAGE_SIZE + 100, 16, Access::Write).unwrap();
    assert_eq!(ws, vec![Window { start: PAGE_SIZE + 100, len: 16 }]);
    let whole = translated_byte_buffer(&space, 2 * PAGE_SIZE, PAGE_SIZE, Access::Read).unwrap();
    assert_eq!(whole, vec![Window { start: 2 * PAGE_SIZE, len: PAGE_SIZE }]);
    let last = translated_byte_buffer(&space, 2 * PAGE_SIZE - 1, 1, Access::Read).unwrap();
    assert_eq!(last, vec![Window { start: PAGE_SIZE - 1, len: 1 }]);
}

#[test]
fn range_across_a_page_boundary_is_two_windows() {
    let (space, _frames) = scattered_space();
    // Pages 1 and 2 lie on the frames 0 and 2.
    let ws = translated_byte_buffer(&space, 2 * PAGE_SIZE - 8, 16, Access::Write).unwrap();
    assert_eq!(
        ws,
        vec![
            Window { start: PAGE_SIZE - 8, len: 8 },
            Window { start: 2 * PAGE_SIZE, len: 8 },
        ]
    );
}

#[test]
fn range_over_three_pages_is_three_windows() {
    let mut frames = FrameAllocator::new(8);
    let mut space = MemorySet::new(1);
    assert_eq!(space.mmap(&mut frames, 3 * PAGE_SIZE, PAGE_SIZE, RW), 0);
    assert_eq!(space.mmap(&mut frames, PAGE_SIZE, 2 * PAGE_SIZE, RW), 0);
    // Pages 1, 2, 3 lie on the frames 1, 2, 0.
    let ws =
        translated_byte_buffer(&space, 2 * PAGE_SIZE - 3, PAGE_SIZE + 10, Access::Read).unwrap();
    assert_eq!(
        ws,
        vec![
            Window { start: 2 * PAGE_SIZE - 3, len: 3 },
            Window { start: 2 * PAGE_SIZE, len: PAGE_SIZE },
            Window { start: 0, len: 7 },
        ]
    );
}

#[test]
fn unmapped_page_is_reported() {
    let (space, _frames) = scattered_space();
    assert_eq!(
        translated_byte_buffer(&space, 0, 4, Access::Read),
        Err(TranslateError::UnmappedPage)
    );
    // Page 2 is mapped, page 3 is not.
    assert_eq!(
        translated_byte_buffer(&space, 3 * PAGE_SIZE - 4, 8, Access::Read),
        Err(TranslateError::UnmappedPage)
    );
    // The range runs over the top of the address space.
    assert_eq!(
        translated_byte_buffer(&space, usize::MAX - 3, 16, Access::Read),
        Err(TranslateError::UnmappedPage)
    );
}

#[test]
fn forbidden_access_is_reported() {
    let mut frames = FrameAllocator::new(8);
    let mut space = MemorySet::new(1);
    assert_eq!(space.mmap(&mut frames, 0, PAGE_SIZE, 1), 0);
    assert_eq!(space.mmap(&mut frames, PAGE_SIZE, PAGE_SIZE, 2), 0);
    assert_eq!(space.mmap(&mut frames, 2 * PAGE_SIZE, PAGE_SIZE, 4), 0);
    assert!(translated_byte_buffer(&space, 0, 8, Access::Read).is_ok());
    assert_eq!(
        translated_byte_buffer(&space, 0, 8, Access::Write),
        Err(TranslateError::PermissionDenied)
    );
    assert!(translated_byte_buffer(&space, PAGE_SIZE, 8, Access::Write).is_ok());
    assert_eq!(
        translated_byte_buffer(&space, PAGE_SIZE, 8, Access::Read),
        Err(TranslateError::PermissionDenied)
    );
    assert_eq!(
        translated_byte_buffer(&space, 2 * PAGE_SIZE, 8, Access::Read),
        Err(TranslateError::PermissionDenied)
    );
    assert_eq!(
        translated_byte_buffer(&space, 2 * PAGE_SIZE, 8, Access::Write),
        Err(TranslateError::PermissionDenied)
    );
}

#[test]
fn the_lowest_failing_page_decides_the_error() {
    let mut frames = FrameAllocator::new(8);
    let mut space = MemorySet::new(1);
    // Page 0 is read-only, page 1 is unmapped, page 2 is read-only.
    assert_eq!(space.mmap(&mut frames, 0, PAGE_SIZE, 1), 0);
    assert_eq!(space.mmap(&mut frames, 2 * PAGE_SIZE, PAGE_SIZE, 1), 0);
    assert_eq!(
        translated_byte_buffer(&space, PAGE_SIZE - 2, 4, Access::Write),
        Err(TranslateError::PermissionDenied)
    );
    assert_eq!(
        translated_byte_buffer(&space, PAGE_SIZE - 2, 4, Access::Read),
        Err(TranslateError::UnmappedPage)
    );
    assert_eq!(
        translated_byte_buffer(&space, 2 * PAGE_SIZE - 2, 4, Access::Write),
        Err(TranslateError::UnmappedPage)
    );
}

#[test]
fn value_written_across_two_pages_is_read_back() {
    let (space, _frames) = scattered_space();
    let mut mem = vec![0u8; 8 * PAGE_SIZE];
    let payload: Vec<u8> = (1..=16).collect();
    let ptr = 2 * PAGE_SIZE - 8;
    let ws = translated_byte_buffer(&space, ptr, 16, Access::Write).unwrap();
    assert_eq!(ws.len(), 2);
    assert!(write_windows(&mut mem, &ws, &payload));
    // Raw memory: the first half ends frame 0, the second half starts frame 2.
    assert_eq!(&mem[PAGE_SIZE - 8..PAGE_SIZE], &payload[..8]);
    assert_eq!(&mem[2 * PAGE_SIZE..2 * PAGE_SIZE + 8], &payload[8..]);
    assert!(mem[PAGE_SIZE..2 * PAGE_SIZE].iter().all(|&b| b == 0));
    assert_eq!(mem.iter().filter(|&&b| b != 0).count(), 16);
    let rs = translated_byte_buffer(&space, ptr, 16, Access::Read).unwrap();
    assert_eq!(read_windows(&mem, &rs), Some(payload));
}

#[test]
fn value_written_on_one_page_is_read_back() {
    let (space, _frames) = scattered_space();
    let mut mem = vec![0xffu8; 8 * PAGE_SIZE];
    let payload = vec![9u8, 8, 7, 6, 5];
    let ws = translated_byte_buffer(&space, 5 * PAGE_SIZE + 1, 5, Access::Write).unwrap();
    assert!(write_windows(&mut mem, &ws, &payload));
    assert_eq!(&mem[PAGE_SIZE..PAGE_SIZE + 7], &[0xff, 9, 8, 7, 6, 5, 0xff]);
    assert_eq!(read_windows(&mem, &ws), Some(payload));
}

#[test]
fn write_needs_windows_inside_memory_and_as_long_as_the_data() {
    let mut mem = vec![0u8; 32];
    let ws = vec![Window { start: 4, len: 4 }, Window { start: 16, len: 2 }];
    assert!(!write_windows(&mut mem, &ws, &vec![1u8; 5]));
    assert!(!write_windows(&mut mem, &ws, &vec![1u8; 7]));
    let outside = vec![Window { start: 4, len: 4 }, Window { start: 31, len: 2 }];
    assert!(!write_windows(&mut mem, &outside, &vec![1u8; 6]));
    let far = vec![Window { start: usize::MAX, len: 2 }];
    assert!(!write_windows(&mut mem, &far, &vec![1u8; 2]));
    assert!(mem.iter().all(|&b| b == 0));
    assert!(write_windows(&mut mem, &ws, &vec![1u8, 2, 3, 4, 5, 6]));
    assert_eq!(&mem[4..8], &[1, 2, 3, 4]);
    assert_eq!(&mem[16..18], &[5, 6]);
    assert_eq!(read_windows(&mem, &ws), Some(vec![1u8, 2, 3, 4, 5, 6]));
    assert_eq!(read_windows(&mem, &outside), None);
    assert_eq!(read_windows(&mem, &Vec::new()), Some(Vec::new()));
    let end = vec![Window { start: 30, len: 2 }];
    assert!(write_windows(&mut mem, &end, &vec![7u8, 8]));
    assert_eq!(&mem[30..], &[7, 8]);
}

#[test]
fn later_windows_overwrite_earlier_ones() {
    let mut mem = vec![0u8; 8];
    let ws = vec![Window { start: 0, len: 3 }, Window { start: 2, len: 2 }];
    assert!(write_windows(&mut mem, &ws, &vec![1u8, 2, 3, 4, 5]));
    assert_eq!(&mem[..5], &[1, 2, 4, 5, 0]);
}
