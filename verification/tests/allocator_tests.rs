use omu_os::allocator::{init_heap, DummyAllocator, Layout, Node, HEAP_SIZE, HEAP_START, NODE_SIZE};
use omu_os::arch::paging::AddressSpace;
use omu_os::mm::types::MemoryFrameAllocator;

fn layout(size: usize, align: usize) -> Layout {
    Layout { size, align }
}

fn regions(a: &DummyAllocator) -> Vec<Node> {
    a.regions().to_vec()
}

#[test]
fn empty_allocator_has_nothing_to_give() {
    let mut a = DummyAllocator::new();
    assert!(regions(&a).is_empty());
    assert_eq!(a.allocate(layout(16, 8)), None);
}

#[test]
fn first_fit_hands_out_blocks_in_address_order() {
    let mut a = DummyAllocator::new();
    a.init_region(0x1000, 0x1000);
    assert_eq!(a.allocate(layout(16, 8)), Some(0x1000));
    assert_eq!(a.allocate(layout(16, 8)), Some(0x1010));
    assert_eq!(regions(&a), vec![Node { addr: 0x1020, size: 0xFE0 }]);
}

#[test]
fn small_requests_reserve_a_whole_node() {
    let mut a = DummyAllocator::new();
    a.init_region(0x2000, 0x100);
    assert_eq!(a.allocate(layout(1, 1)), Some(0x2000));
    assert_eq!(a.allocate(layout(1, 1)), Some(0x2000 + NODE_SIZE));
}

#[test]
fn sizes_are_rounded_to_the_node_alignment() {
    let mut a = DummyAllocator::new();
    a.init_region(0x2000, 0x100);
    assert_eq!(a.allocate(layout(9, 1)), Some(0x2000));
    assert_eq!(a.allocate(layout(9, 1)), Some(0x200C));
}

#[test]
fn blocks_are_aligned_and_the_padding_is_skipped() {
    let mut a = DummyAllocator::new();
    a.init_region(0x1004, 0x100);
    assert_eq!(a.allocate(layout(8, 16)), Some(0x1010));
    assert_eq!(regions(&a), vec![Node { addr: 0x1018, size: 0x1104 - 0x1018 }]);
}

#[test]
fn a_tail_too_small_for_a_node_is_dropped() {
    let mut a = DummyAllocator::new();
    a.init_region(0x3000, 20);
    assert_eq!(a.allocate(layout(16, 4)), Some(0x3000));
    assert!(regions(&a).is_empty());
}

#[test]
fn an_exact_fit_takes_the_whole_region() {
    let mut a = DummyAllocator::new();
    a.init_region(0x3000, 32);
    assert_eq!(a.allocate(layout(32, 4)), Some(0x3000));
    assert!(regions(&a).is_empty());
    assert_eq!(a.allocate(layout(8, 4)), None);
}

#[test]
fn first_fit_skips_regions_that_are_too_small() {
    let mut a = DummyAllocator::new();
    a.init_region(0x1000, 0x1000);
    let x = a.allocate(layout(16, 4)).unwrap();
    let y = a.allocate(layout(64, 4)).unwrap();
    let _z = a.allocate(layout(16, 4)).unwrap();
    a.dealloc(x, layout(16, 4));
    a.dealloc(y, layout(64, 4));
    // x and y merged into one region of 80 bytes before the rest of the heap
    assert_eq!(regions(&a)[0], Node { addr: 0x1000, size: 80 });
    assert_eq!(a.allocate(layout(128, 4)), Some(0x1000 + 80 + 16));
}

#[test]
fn too_large_a_request_fails() {
    let mut a = DummyAllocator::new();
    a.init_region(0x1000, 0x100);
    assert_eq!(a.allocate(layout(0x101, 1)), None);
    assert_eq!(a.allocate(layout(usize::MAX, 1)), None);
    assert_eq!(regions(&a), vec![Node { addr: 0x1000, size: 0x100 }]);
}

#[test]
fn free_then_allocate_reuses_the_block() {
    let mut a = DummyAllocator::new();
    a.init_region(HEAP_START, HEAP_SIZE);
    let before = regions(&a);
    let p = a.allocate(layout(1024 * 16, 8)).unwrap();
    assert_eq!(p, HEAP_START);
    a.dealloc(p, layout(1024 * 16, 8));
    assert_eq!(regions(&a), before);
}

#[test]
fn repeated_allocate_and_free_does_not_fragment() {
    let mut a = DummyAllocator::new();
    a.init_region(HEAP_START, HEAP_SIZE);
    for _ in 0..1000 {
        let p = a.allocate(layout(1024 * 16, 8)).unwrap();
        a.dealloc(p, layout(1024 * 16, 8));
    }
    assert_eq!(regions(&a), vec![Node { addr: HEAP_START, size: HEAP_SIZE }]);
}

#[test]
fn free_merges_with_both_neighbours() {
    let mut a = DummyAllocator::new();
    a.init_region(0x1000, 0x100);
    let x = a.allocate(layout(16, 4)).unwrap();
    let y = a.allocate(layout(16, 4)).unwrap();
    let z = a.allocate(layout(16, 4)).unwrap();
    assert_eq!((x, y, z), (0x1000, 0x1010, 0x1020));
    a.dealloc(x, layout(16, 4));
    assert_eq!(regions(&a), vec![Node { addr: 0x1000, size: 16 }, Node { addr: 0x1030, size: 0xD0 }]);
    a.dealloc(z, layout(16, 4));
    assert_eq!(regions(&a), vec![Node { addr: 0x1000, size: 16 }, Node { addr: 0x1020, size: 0xE0 }]);
    a.dealloc(y, layout(16, 4));
    assert_eq!(regions(&a), vec![Node { addr: 0x1000, size: 0x100 }]);
}

#[test]
fn free_without_neighbours_inserts_in_address_order() {
    let mut a = DummyAllocator::new();
    a.init_region(0x1000, 0x100);
    let x = a.allocate(layout(16, 4)).unwrap();
    let _y = a.allocate(layout(16, 4)).unwrap();
    let z = a.allocate(layout(16, 4)).unwrap();
    let _w = a.allocate(layout(16, 4)).unwrap();
    a.dealloc(z, layout(16, 4));
    a.dealloc(x, layout(16, 4));
    assert_eq!(
        regions(&a),
        vec![Node { addr: 0x1000, size: 16 }, Node { addr: 0x1020, size: 16 }, Node { addr: 0x1040, size: 0xC0 }]
    );
}

#[test]
fn freeing_a_small_block_gives_back_a_whole_node() {
    let mut a = DummyAllocator::new();
    a.init_region(0x1000, 0x100);
    let x = a.allocate(layout(2, 1)).unwrap();
    let _y = a.allocate(layout(8, 1)).unwrap();
    a.dealloc(x, layout(2, 1));
    assert_eq!(regions(&a)[0], Node { addr: 0x1000, size: NODE_SIZE });
}

#[test]
fn heap_is_mapped_and_handed_to_the_allocator() {
    let mut space = AddressSpace::kernel(0x1000, 0x2000);
    let mut frames = MemoryFrameAllocator::new();
    frames.init(None);
    let mut heap = DummyAllocator::new();
    init_heap(&mut space, &mut frames, &mut heap);
    assert_eq!(heap.regions(), &[Node { addr: HEAP_START, size: HEAP_SIZE }][..]);
    let start = HEAP_START as u32;
    assert_eq!(space.translate(start + 5), Some(0x80_0005));
    assert_eq!(space.directory.entries[64] & 0xFFFF_F000, 0x80_1000);
    assert_eq!(space.translate(start + 4096), Some(0x80_2000));
    assert_eq!(space.translate(start + HEAP_SIZE as u32 - 1), Some(0x80_0000 + 256 * 4096 + 0xFFF));
    assert_eq!(space.translate(start + HEAP_SIZE as u32), None);
    assert_eq!(space.translate(start - 1), None);
    assert_eq!(frames.allocate_frame(), Some(0x80_0000 + 257 * 4096));
}

#[test]
fn freeing_is_refused_over_free_memory() {
    let mut heap = DummyAllocator::new();
    heap.init_region(0x1000, 0x100);
    assert!(!heap.can_free(0x1000, layout(16, 8)));
    assert!(!heap.can_free(0x10F8, layout(16, 8)));
    assert!(heap.can_free(0x1100, layout(16, 8)));
    assert!(heap.can_free(0xFF8, layout(8, 8)));
    assert!(!heap.can_free(0xFFC, layout(2, 1)));
    assert!(!heap.can_free(usize::MAX - 4, layout(4, 1)));
    let a = heap.allocate(layout(16, 8)).unwrap();
    assert!(heap.can_free(a, layout(16, 8)));
}

#[test]
fn successive_blocks_do_not_overlap() {
    let mut heap = DummyAllocator::new();
    heap.init_region(0x2000, 0x400);
    let a = heap.allocate(layout(24, 8)).unwrap();
    let b = heap.allocate(layout(100, 64)).unwrap();
    let c = heap.allocate(layout(3, 1)).unwrap();
    assert_eq!((a, b, c), (0x2000, 0x2040, 0x20A4));
    let spans = [(a, 24), (b, 100), (c, 8)];
    for (i, (x, xs)) in spans.iter().enumerate() {
        for (y, ys) in spans.iter().skip(i + 1) {
            assert!(x + xs <= *y || y + ys <= *x);
        }
    }
}
