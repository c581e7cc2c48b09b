use nimix::constants::{BLOCK_CAPACITY, BLOCK_SIZE, MAX_FREE_BLOCKS};
use nimix::layout::Layout;
use nimix::Allocator;

#[test]
fn tests_hello_alloc() {
    let mut a = Allocator::new();
    let name = "Hello Alloc";
    let layout = Layout::from_size_align(
        core::mem::size_of_val(&name),
        core::mem::align_of_val(&name),
    )
        .unwrap();

    assert_eq!(a.get_size(), 0);

    a.allocate(layout).unwrap();

    assert_eq!(a.get_size(), BLOCK_SIZE);
}

#[test]
fn tests_alloc_large() {
    let mut a = Allocator::new();
    let layout = Layout::from_size_align(BLOCK_SIZE * core::mem::size_of::<usize>(), 8).unwrap();

    assert_eq!(a.get_size(), 0);

    a.allocate(layout).unwrap();
}

#[test]
fn tests_alloc_many_single_bytes() {
    let mut a = Allocator::new();
    let layout = Layout::from_size_align(1, 1).unwrap();

    for _ in 0..100_000 {
        a.allocate(layout).unwrap();
    }
}

#[test]
fn tests_alloc_too_big() {
    let mut a = Allocator::new();
    let layout = Layout::from_size_align(u32::MAX as usize + 1, 8).unwrap();
    let result = a.allocate(layout);
    assert!(result.is_err());
}

#[test]
fn alloc_two_large_arrays() {
    let mut a = Allocator::new();
    let layout = Layout::from_size_align((BLOCK_CAPACITY / 2) + 1, 8).unwrap();

    a.allocate(layout).unwrap();
    assert_eq!(a.get_size(), BLOCK_SIZE);
    a.allocate(layout).unwrap();
    assert_eq!(a.get_size(), BLOCK_SIZE * 2);
}

#[test]
fn tests_refresh_arena() {
    let mut a = Allocator::new();
    let layout = Layout::from_size_align((BLOCK_CAPACITY / 2) + 1, 8).unwrap();

    for _ in 0..2000 {
        a.allocate(layout).unwrap();
    }

    assert!(a.get_size() > 10 * BLOCK_SIZE);
    a.sweep(1);
    assert!(a.get_size() <= MAX_FREE_BLOCKS * BLOCK_SIZE);
}

#[test]
fn tests_object_align() {
    let mut a = Allocator::new();
    for i in 0..10 {
        let align: usize = 2_usize.pow(i);
        let layout = Layout::from_size_align(32, align).unwrap();
        let ptr = a.allocate(layout).unwrap();

        assert!(ptr % align == 0);
    }
}

#[test]
fn tests_large_object_align() {
    let mut a = Allocator::new();
    let before = a.get_size();
    let layout = Layout::from_size_align(BLOCK_CAPACITY * 2, 128).unwrap();
    let ptr = a.allocate(layout).unwrap();

    assert!(ptr % 128 == 0);
    assert!(a.get_size() - before >= BLOCK_CAPACITY * 2);
}
