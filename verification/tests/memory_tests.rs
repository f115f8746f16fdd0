use omu_os::mm::is_user_memory;
use omu_os::mm::memory::{FRAME_SIZE, RESERVED_FRAMES, TOTAL_FRAMES};
use omu_os::mm::types::{MemoryFrameAllocator, BITMAP_BYTES};

#[test]
fn new_frame_allocator_has_every_frame_free() {
    let a = MemoryFrameAllocator::new();
    assert_eq!(a.bitmap.len(), BITMAP_BYTES);
    assert!(a.bitmap.iter().all(|b| *b == 0));
}

#[test]
fn frames_are_handed_out_lowest_first() {
    let mut a = MemoryFrameAllocator::new();
    assert_eq!(a.allocate_frame(), Some(0));
    assert_eq!(a.allocate_frame(), Some(FRAME_SIZE));
    assert_eq!(a.allocate_frame(), Some(2 * FRAME_SIZE));
    assert_eq!(a.bitmap[0], 0b111);
}

#[test]
fn init_reserves_the_first_eight_megabytes() {
    let mut a = MemoryFrameAllocator::new();
    assert_eq!(a.init(None), None);
    assert_eq!(a.allocate_frame(), Some(RESERVED_FRAMES as u32 * FRAME_SIZE));
    assert_eq!(a.allocate_frame(), Some(0x80_1000));
}

#[test]
fn init_reserves_the_ramdisk_rounded_out_to_frames() {
    let mut a = MemoryFrameAllocator::new();
    let r = a.init(Some((0x80_0000, 0x80_2001)));
    assert_eq!(r, Some((2048, 2051)));
    assert_eq!(a.allocate_frame(), Some(2051 * FRAME_SIZE));
}

#[test]
fn init_with_a_ramdisk_above_the_kernel_leaves_a_gap() {
    let mut a = MemoryFrameAllocator::new();
    let r = a.init(Some((0x90_0800, 0x90_1000)));
    assert_eq!(r, Some((0x900, 0x901)));
    for f in 2048..0x900u32 {
        assert_eq!(a.allocate_frame(), Some(f * FRAME_SIZE));
    }
    assert_eq!(a.allocate_frame(), Some(0x901 * FRAME_SIZE));
}

#[test]
fn init_with_an_empty_ramdisk_reserves_nothing_more() {
    let mut a = MemoryFrameAllocator::new();
    assert_eq!(a.init(Some((0x90_0000, 0x90_0000))), Some((0x900, 0x900)));
    assert_eq!(a.allocate_frame(), Some(0x80_0000));
}

#[test]
fn a_freed_frame_is_handed_out_again() {
    let mut a = MemoryFrameAllocator::new();
    let before = a.bitmap.clone();
    let f = a.allocate_frame().unwrap();
    a.deallocate_frame(f);
    assert_eq!(a.bitmap, before);
    assert_eq!(a.allocate_frame(), Some(f));
}

#[test]
fn freeing_inside_a_frame_frees_that_frame() {
    let mut a = MemoryFrameAllocator::new();
    for _ in 0..4 {
        a.allocate_frame();
    }
    a.deallocate_frame(2 * FRAME_SIZE + 123);
    assert_eq!(a.bitmap[0], 0b1011);
    assert_eq!(a.allocate_frame(), Some(2 * FRAME_SIZE));
}

#[test]
fn a_full_allocator_returns_none() {
    let mut a = MemoryFrameAllocator::new();
    for b in a.bitmap.iter_mut() {
        *b = 0xFF;
    }
    assert_eq!(a.allocate_frame(), None);
    a.deallocate_frame(((TOTAL_FRAMES - 1) as u32) * FRAME_SIZE);
    assert_eq!(a.allocate_frame(), Some(((TOTAL_FRAMES - 1) as u32) * FRAME_SIZE));
    assert_eq!(a.allocate_frame(), None);
}

#[test]
fn user_memory_lies_between_data_base_and_stack_top() {
    assert!(is_user_memory(0x4000_0000, 0));
    assert!(is_user_memory(0x4000_0000, 4096));
    assert!(is_user_memory(0x9FFF_F000, 0x1000));
    assert!(!is_user_memory(0x9FFF_F000, 0x1001));
    assert!(!is_user_memory(0x3FFF_FFFF, 1));
    assert!(!is_user_memory(0xFFFF_FFFF, 2));
    assert!(is_user_memory(0xA000_0000, 0));
    assert!(!is_user_memory(0xA000_0000, 1));
}

#[test]
fn free_frames_are_counted() {
    let mut a = MemoryFrameAllocator::new();
    assert_eq!(a.free_frame_count(), 1_048_576);
    a.init(Some((0x100_0000, 0x100_2001)));
    assert_eq!(a.free_frame_count(), 1_048_576 - 2048 - 3);
    a.allocate_frame();
    assert_eq!(a.free_frame_count(), 1_048_576 - 2048 - 4);
}
