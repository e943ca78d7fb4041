use clocklean::lean::heap::{Block, Heap};
use clocklean::lean::layout::{Allocator, HeaderLayout};

#[test]
fn new_heap_holds_only_the_null_page() {
    let heap = Heap::new(HeaderLayout::Packed, Allocator::Small);
    assert_eq!(heap.size(), 8);
    assert_eq!(heap.layout(), HeaderLayout::Packed);
    assert_eq!(heap.allocator(), Allocator::Small);
    assert_eq!(heap.heartbeats(), 0);
    assert_eq!(heap.deleted(), Vec::<u64>::new());
    assert_eq!(heap.load_u64(0), 0);
    assert!(!heap.is_live(0));
    assert!(!heap.is_live(8));
    assert_eq!(heap.block(8), None);
}

#[test]
fn words_are_stored_little_endian() {
    let mut heap = Heap::new(HeaderLayout::Packed, Allocator::Small);
    let base = heap.malloc(16);
    heap.store_u64(base, 0x0102_0304_0506_0708);
    assert_eq!(heap.load_u8(base), 0x08);
    assert_eq!(heap.load_u8(base + 1), 0x07);
    assert_eq!(heap.load_u8(base + 7), 0x01);
    assert_eq!(heap.load_u64(base), 0x0102_0304_0506_0708);
    assert_eq!(heap.load_u16(base), 0x0708);
    assert_eq!(heap.load_u16(base + 6), 0x0102);
    heap.store_u16(base + 8, 0xbeef);
    assert_eq!(heap.load_u8(base + 8), 0xef);
    assert_eq!(heap.load_u8(base + 9), 0xbe);
    assert_eq!(heap.load_u16(base + 8), 0xbeef);
    heap.store_u8(base + 15, 0x7f);
    assert_eq!(heap.load_u64(base + 8), 0x7f00_0000_0000_beef);
    assert_eq!(heap.load_u64(base), 0x0102_0304_0506_0708);
}

#[test]
fn store_of_extreme_words_reads_back() {
    let mut heap = Heap::new(HeaderLayout::Discrete, Allocator::Generic);
    let base = heap.malloc(8);
    for v in [0u64, 1, u64::MAX, 0x8000_0000_0000_0000, 0x0000_0001_0000_0000] {
        heap.store_u64(base, v);
        assert_eq!(heap.load_u64(base), v);
    }
    for v in [0u16, 1, 0x00ff, 0xff00, u16::MAX] {
        heap.store_u16(base, v);
        assert_eq!(heap.load_u16(base), v);
    }
}

#[test]
fn malloc_hands_out_zeroed_blocks_in_whole_words() {
    let mut heap = Heap::new(HeaderLayout::Packed, Allocator::Generic);
    let a = heap.malloc(3);
    assert_eq!(a, 8);
    assert_eq!(heap.size(), 16);
    let b = heap.malloc(0);
    assert_eq!(b, 16);
    assert_eq!(heap.size(), 24);
    let c = heap.malloc(24);
    assert_eq!(c, 24);
    assert_eq!(heap.size(), 48);
    assert_eq!(heap.block(a), Some(Block { size: 3, live: true }));
    assert_eq!(heap.block(b), Some(Block { size: 0, live: true }));
    assert_eq!(heap.block(c), Some(Block { size: 24, live: true }));
    assert_eq!(heap.block(32), None);
    for at in [8u64, 16, 24, 32, 40] {
        assert_eq!(heap.load_u64(at), 0);
    }
}

#[test]
fn small_allocator_hands_out_the_size_asked_for() {
    let mut heap = Heap::new(HeaderLayout::Packed, Allocator::Small);
    let a = heap.lean_alloc_small(16, 1);
    let b = heap.lean_alloc_small(4096, 511);
    assert_eq!(a, 8);
    assert_eq!(b, 24);
    assert_eq!(heap.size(), 24 + 4096);
    assert!(heap.is_live(a));
    assert!(heap.is_live(b));
    assert!(!heap.is_live(16));
}

#[test]
fn del_takes_the_object_out_of_use_and_logs_it() {
    let mut heap = Heap::new(HeaderLayout::Packed, Allocator::Small);
    let a = heap.lean_alloc_small(16, 1);
    let b = heap.lean_alloc_small(8, 0);
    heap.store_u64(a, 77);
    heap.lean_del(a);
    assert!(!heap.is_live(a));
    assert!(heap.is_live(b));
    assert_eq!(heap.deleted(), vec![a]);
    assert_eq!(heap.block(a), Some(Block { size: 16, live: false }));
    assert_eq!(heap.load_u64(a), 77);
    heap.lean_del(b);
    assert_eq!(heap.deleted(), vec![a, b]);
}

#[test]
fn generic_heap_locates_objects_behind_their_prefix() {
    let mut heap = Heap::new(HeaderLayout::Packed, Allocator::Generic);
    let base = heap.malloc(24);
    assert!(heap.is_live(base + 8));
    assert!(!heap.is_live(base));
    assert!(!heap.is_live(3));
    heap.lean_del(base + 8);
    assert!(!heap.is_live(base + 8));
    assert_eq!(heap.deleted(), vec![base + 8]);
}

#[test]
fn heartbeat_counts_calls() {
    let mut heap = Heap::new(HeaderLayout::Packed, Allocator::Generic);
    heap.lean_inc_heartbeat();
    heap.lean_inc_heartbeat();
    heap.lean_inc_heartbeat();
    assert_eq!(heap.heartbeats(), 3);
}
