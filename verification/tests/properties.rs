use nimix::constants::{BLOCK_CAPACITY, BLOCK_SIZE, MAX_FREE_BLOCKS, RECYCLE_HOLE_MIN};
use nimix::error::AllocError;
use nimix::layout::Layout;
use nimix::{mark, Allocator, Heap};

#[test]
fn scenario_many_tiny_allocs_then_sweep() {
    // 100 000 one-byte objects fit in a handful of blocks, and a sweep
    // with no marks shrinks the heap back under the free-pool cap.
    let mut a = Allocator::new();
    let layout = Layout::from_size_align(1, 1).unwrap();

    for _ in 0..100_000 {
        a.allocate(layout).unwrap();
    }

    assert!(a.get_size() >= 100_000);
    assert!(a.get_size() <= 100_000_usize.div_ceil(BLOCK_CAPACITY) * BLOCK_SIZE);

    a.sweep(1);
    assert!(a.get_size() <= MAX_FREE_BLOCKS * BLOCK_SIZE);
}

#[test]
fn sweep_twice_reclaims_nothing_more() {
    // A second sweep of the same generation, with nothing allocated or
    // marked in between, leaves the heap size unchanged.
    let mut a = Allocator::new();
    let layout = Layout::from_size_align((BLOCK_CAPACITY / 2) + 1, 8).unwrap();

    for _ in 0..2000 {
        a.allocate(layout).unwrap();
    }

    a.sweep(1);
    let after_first = a.get_size();
    a.sweep(1);
    assert_eq!(a.get_size(), after_first);
}

#[test]
fn large_survives_only_while_marked() {
    // A marked large object survives the sweep of its generation; the
    // next generation's sweep, with no fresh mark, reclaims it.
    let mut a = Allocator::new();
    let layout = Layout::from_size_align(BLOCK_CAPACITY * 2, 128).unwrap();

    let p = a.allocate(layout).unwrap();
    let size_with_large = a.get_size();
    assert!(size_with_large > BLOCK_CAPACITY * 2);

    mark(&mut a, p, layout, 1).unwrap();
    a.sweep(1);
    assert_eq!(a.get_size(), size_with_large);

    a.sweep(2);
    assert_eq!(a.get_size(), 0);
}

#[test]
fn marked_small_object_keeps_its_block_listed() {
    // Marking a small object keeps its block out of the free pool across
    // the sweep of that generation.
    let mut a = Allocator::new();
    let layout = Layout::from_size_align(100, 1).unwrap();

    let p = a.allocate(layout).unwrap();
    mark(&mut a, p, layout, 1).unwrap();
    a.sweep(1);
    assert_eq!(a.get_size(), BLOCK_SIZE);
}

#[test]
fn distinct_addresses() {
    // Live allocations never hand out overlapping byte ranges.
    let mut a = Allocator::new();
    let layout = Layout::from_size_align(48, 8).unwrap();

    let mut ptrs: Vec<usize> = Vec::new();
    for _ in 0..200 {
        ptrs.push(a.allocate(layout).unwrap());
    }

    for i in 0..ptrs.len() {
        for j in 0..ptrs.len() {
            if i != j {
                let (p, q) = (ptrs[i], ptrs[j]);
                assert!(p + 48 <= q || q + 48 <= p);
            }
        }
    }
}

#[test]
fn alloc_zero_size_rejected() {
    let mut a = Allocator::new();
    let layout = Layout::from_size_align(0, 8).unwrap();
    assert_eq!(a.allocate(layout), Err(AllocError::AllocOverflow));
}

#[test]
fn alloc_huge_align_rejected() {
    let mut a = Allocator::new();
    let layout = Layout::from_size_align(16, BLOCK_SIZE * 2).unwrap();
    assert_eq!(a.allocate(layout), Err(AllocError::AllocOverflow));
}

#[test]
fn layout_rejects_bad_align() {
    assert_eq!(Layout::from_size_align(8, 3), Err(AllocError::LayoutError));
    assert_eq!(Layout::from_size_align(8, 0), Err(AllocError::LayoutError));
}

#[test]
fn size_accounts_blocks_and_larges() {
    // The heap size is the number of blocks in existence times the block
    // size, plus the padded spans of the large objects.
    let mut a = Allocator::new();

    let small = Layout::from_size_align(64, 8).unwrap();
    a.allocate(small).unwrap();
    assert_eq!(a.get_size(), BLOCK_SIZE);

    let large = Layout::from_size_align(BLOCK_CAPACITY * 2, 128).unwrap();
    a.allocate(large).unwrap();
    // The large span is the object, one mark byte, padded to 128 bytes.
    let padded = (BLOCK_CAPACITY * 2 + 1).div_ceil(128) * 128;
    assert_eq!(a.get_size(), BLOCK_SIZE + padded);
}

#[test]
fn sweep_caps_free_pool_and_empties_lists() {
    // With nothing marked, a sweep turns every block into a free candidate,
    // keeps at most the cap, and leaves recycle and rest empty.
    let mut a = Allocator::new();
    let layout = Layout::from_size_align((BLOCK_CAPACITY / 2) + 1, 8).unwrap();
    for _ in 0..2000 {
        a.allocate(layout).unwrap();
    }
    a.sweep(1);
    assert_eq!(a.get_size(), MAX_FREE_BLOCKS * BLOCK_SIZE);
    assert_eq!(a.head.store.free.items.len(), MAX_FREE_BLOCKS);
    assert_eq!(a.head.store.recycle.items.len(), 0);
    assert_eq!(a.head.store.rest.items.len(), 0);
}

#[test]
fn sweep_keeps_marked_block_in_recycle() {
    // A marked block survives the sweep and, with a usable hole left, sits
    // in the recycle list.
    let mut a = Allocator::new();
    let layout = Layout::from_size_align(100, 1).unwrap();
    let p = a.allocate(layout).unwrap();
    mark(&mut a, p, layout, 1).unwrap();
    a.sweep(1);
    assert_eq!(a.head.store.recycle.items.len(), 1);
    assert_eq!(a.head.store.rest.items.len(), 0);
    assert!(a.head.store.recycle.items[0].current_hole_size() >= RECYCLE_HOLE_MIN);
}

#[test]
fn heap_new_is_empty() {
    let heap = Heap::new();
    assert_eq!(heap.size(), 0);
}

#[test]
fn heap_sweep_on_empty_heap() {
    let mut heap = Heap::new();
    heap.sweep(1);
    assert_eq!(heap.size(), 0);
}
