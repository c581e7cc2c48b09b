use nimix::bump_block::BumpBlock;
use nimix::constants::{BLOCK_CAPACITY, BLOCK_SIZE, LARGE_OBJECT_MIN};
use nimix::large_block::LargeBlock;
use nimix::layout::Layout;

#[test]
fn test_empty_block() {
    let mut b = BumpBlock::new(BLOCK_SIZE);
    let layout = Layout::from_size_align(1, 1).unwrap();

    for i in 0..BLOCK_CAPACITY {
        assert_eq!(b.cursor, BLOCK_CAPACITY - i);
        assert_eq!(b.current_hole_size(), BLOCK_CAPACITY - i);

        b.inner_alloc(layout).unwrap();
    }

    assert!(b.inner_alloc(layout).is_none());
}

#[test]
fn test_current_hole_size() {
    let block = BumpBlock::new(BLOCK_SIZE);
    let expect = block.current_hole_size();

    assert_eq!(expect, BLOCK_CAPACITY);
}

#[test]
fn new_large_block() {
    let align = 8;
    let block = LargeBlock::new(
        Layout::from_size_align(LARGE_OBJECT_MIN, align).unwrap(),
        BLOCK_SIZE,
    )
        .unwrap();

    assert!(block.get_size() > LARGE_OBJECT_MIN);
    assert_eq!(block.as_ptr() % align, 0);
    assert_eq!(block.is_marked(1), false);
}

#[test]
fn mark_large() {
    let align = 8;
    let layout = Layout::from_size_align(LARGE_OBJECT_MIN, align).unwrap();
    let mut block = LargeBlock::new(layout, BLOCK_SIZE).unwrap();

    block.mark(1);

    assert!(block.is_marked(1));
}
