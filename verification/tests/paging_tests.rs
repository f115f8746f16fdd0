use omu_os::arch::paging::{AddressSpace, KERNEL_MAPPED_BYTES, PRESENT, USER_ACCESSIBLE, WRITABLE};
use omu_os::mm::memory::FRAME_SIZE;
use omu_os::mm::types::MemoryFrameAllocator;

fn boot_space() -> AddressSpace {
    AddressSpace::kernel(0x1000, 0x2000)
}

#[test]
fn boot_space_identity_maps_eight_megabytes() {
    let s = boot_space();
    assert_eq!(s.directory.entries[0], 0x1003);
    assert_eq!(s.directory.entries[1], 0x2003);
    assert!(s.directory.entries[2..].iter().all(|e| *e == 0));
    assert_eq!(s.tables[0].table.entries[5], 5 * 4096 | 3);
    assert_eq!(s.tables[1].table.entries[5], (1024 + 5) * 4096 | 3);
    for v in [0u32, 1, 0xFFF, 0x1000, 0x3F_FFFF, 0x40_0000, 0x7F_FFFF] {
        assert_eq!(s.translate(v), Some(v));
    }
    assert_eq!(s.translate(KERNEL_MAPPED_BYTES), None);
    assert_eq!(s.translate(0xFFFF_FFFF), None);
}

#[test]
fn mapping_a_page_in_a_new_table_takes_a_frame() {
    let mut s = boot_space();
    let mut frames = MemoryFrameAllocator::new();
    frames.init(None);
    assert!(s.needs_table(0x4000_0000));
    s.map_page(&mut frames, 0x4000_0000, 0x0123_4567, PRESENT | WRITABLE | USER_ACCESSIBLE);
    // the table went into the first free frame, above the kernel
    assert_eq!(s.directory.entries[0x100], 0x80_0000 | 3 | USER_ACCESSIBLE);
    assert_eq!(s.tables.len(), 3);
    assert_eq!(s.tables[2].phys, 0x80_0000);
    assert!(!s.needs_table(0x4000_0000));
    assert_eq!(s.translate(0x4000_0000), Some(0x0123_4000));
    assert_eq!(s.translate(0x4000_0ABC), Some(0x0123_4ABC));
    assert_eq!(s.translate(0x4000_1000), None);
    assert_eq!(s.translate(0x10_0000), Some(0x10_0000));
    assert_eq!(frames.allocate_frame(), Some(0x80_0000 + FRAME_SIZE));
}

#[test]
fn mapping_a_page_in_an_existing_table_takes_no_frame() {
    let mut s = boot_space();
    let mut frames = MemoryFrameAllocator::new();
    frames.init(None);
    s.map_page(&mut frames, 0x1000, 0x00AB_C000, PRESENT);
    assert_eq!(s.tables.len(), 2);
    assert_eq!(s.translate(0x1234), Some(0x00AB_C234));
    assert_eq!(s.translate(0x2234), Some(0x2234));
    assert_eq!(frames.allocate_frame(), Some(0x80_0000));
}

#[test]
fn mapping_without_the_present_flag_unmaps_the_page() {
    let mut s = boot_space();
    let mut frames = MemoryFrameAllocator::new();
    frames.init(None);
    s.map_page(&mut frames, 0x5000, 0x9000, WRITABLE);
    assert_eq!(s.translate(0x5000), None);
    assert_eq!(s.tables[0].table.entries[5], 0x9000 | WRITABLE);
}

#[test]
fn a_fresh_table_maps_only_the_requested_page() {
    let mut s = boot_space();
    let mut frames = MemoryFrameAllocator::new();
    frames.init(None);
    s.map_page(&mut frames, 0xA000_0000, 0x0200_0000, 3);
    assert_eq!(s.translate(0xA000_0010), Some(0x0200_0010));
    assert_eq!(s.translate(0xA000_1000), None);
    assert_eq!(s.translate(0x9FFF_F000), None);
}

#[test]
fn fresh_pages_take_one_frame_each_and_a_table() {
    let mut s = boot_space();
    let mut frames = MemoryFrameAllocator::new();
    frames.init(None);
    assert_eq!(s.frames_required(0x4000_1000, 3), 4);
    assert_eq!(s.frames_required(0x4000_1000, 0), 0);
    s.map_fresh_pages(&mut frames, 0x4000_1000, 3, PRESENT | WRITABLE | USER_ACCESSIBLE);
    assert_eq!(s.frames_required(0x4000_5000, 2), 2);
    assert!(frames.is_used(0x80_1ABC));
    assert!(!frames.is_used(0x80_4000));
    assert_eq!(s.translate(0x4000_1000), Some(0x80_0000));
    assert_eq!(s.tables.len(), 3);
    assert_eq!(s.tables[2].phys, 0x80_1000);
    assert_eq!(s.tables[2].table.entries[1], 0x80_0000 | 7);
    assert_eq!(s.translate(0x4000_2FFF), Some(0x80_2FFF));
    assert_eq!(s.translate(0x4000_3000), Some(0x80_3000));
    assert_eq!(s.translate(0x4000_0FFF), None);
    assert_eq!(s.translate(0x4000_4000), None);
    assert_eq!(frames.allocate_frame(), Some(0x80_4000));
}

#[test]
fn fresh_pages_mapped_downward_give_the_top_page_the_first_frame() {
    let mut s = boot_space();
    let mut frames = MemoryFrameAllocator::new();
    frames.init(None);
    s.map_fresh_pages_down(&mut frames, 0x4000_1000, 3, PRESENT | WRITABLE | USER_ACCESSIBLE);
    assert_eq!(s.translate(0x4000_3000), Some(0x80_0000));
    assert_eq!(s.tables.len(), 3);
    assert_eq!(s.tables[2].phys, 0x80_1000);
    assert_eq!(s.translate(0x4000_2ABC), Some(0x80_2ABC));
    assert_eq!(s.translate(0x4000_1000), Some(0x80_3000));
    assert_eq!(s.translate(0x4000_0FFF), None);
    assert_eq!(s.translate(0x4000_4000), None);
    assert_eq!(frames.allocate_frame(), Some(0x80_4000));
}

#[test]
fn fresh_pages_under_an_existing_table_take_no_table_frame() {
    let mut s = boot_space();
    let mut frames = MemoryFrameAllocator::new();
    frames.init(None);
    assert_eq!(s.frames_required(0x10_0000, 2), 2);
    s.map_fresh_pages(&mut frames, 0x10_0000, 2, PRESENT);
    assert_eq!(s.tables.len(), 2);
    assert_eq!(s.translate(0x10_0010), Some(0x80_0010));
    assert_eq!(s.translate(0x10_1010), Some(0x80_1010));
    assert_eq!(s.translate(0x10_2010), Some(0x10_2010));
    assert_eq!(frames.allocate_frame(), Some(0x80_2000));
}

#[test]
fn fresh_pages_take_the_lowest_free_frames_around_a_used_one() {
    let mut s = boot_space();
    let mut frames = MemoryFrameAllocator::new();
    frames.init(None);
    let first = frames.allocate_frame();
    assert_eq!(first, Some(0x80_0000));
    assert_eq!(frames.allocate_frame(), Some(0x80_1000));
    frames.deallocate_frame(0x80_0000);
    s.map_fresh_pages(&mut frames, 0x10_0000, 2, PRESENT);
    assert_eq!(s.translate(0x10_0000), Some(0x80_0000));
    assert_eq!(s.translate(0x10_1000), Some(0x80_2000));
    assert_eq!(frames.allocate_frame(), Some(0x80_3000));
}

#[test]
fn table_frames_must_be_held_by_the_frame_allocator() {
    let s = boot_space();
    let mut frames = MemoryFrameAllocator::new();
    assert!(!s.tables_held_by(&frames));
    frames.init(None);
    assert!(s.tables_held_by(&frames));
}
