use nimix::block_meta::BlockMeta;
use nimix::constants::{BLOCK_CAPACITY, FREE_MARK, LINE_COUNT, LINE_SIZE};
use nimix::size_class::SizeClass;

#[test]
fn new_block_meta_is_reset() {
    let meta = BlockMeta::new();

    assert_eq!(meta.get_block_mark(), FREE_MARK);

    for i in 0..LINE_COUNT {
        assert_eq!(meta.get_line(i), FREE_MARK);
    }
}

#[test]
fn block_meta_mark_block() {
    let mut meta = BlockMeta::new();

    meta.mark_block(1);

    assert_eq!(meta.get_block_mark(), 1);

    for i in 0..LINE_COUNT {
        assert_eq!(meta.get_line(i), FREE_MARK);
    }
}

#[test]
fn block_meta_mark_line() {
    let mut meta = BlockMeta::new();

    for i in 0..LINE_COUNT {
        let mark = 69;
        meta.set_line(i, mark);

        assert_eq!(mark, meta.get_line(i));
    }
}

#[test]
fn block_meta_find_next_hole() {
    // A set of marked lines with a couple holes.
    // The first hole should be seen as conservatively marked.
    // The second hole should be the one selected.
    let mut meta = BlockMeta::new();

    meta.set_line(9, 1);
    meta.set_line(10, 1);

    let expect = Some((9 * LINE_SIZE, 0));

    let got = meta.find_next_available_hole(10 * LINE_SIZE, LINE_SIZE);

    assert_eq!(got, expect);
}

#[test]
fn block_meta_find_next_hole_at_line_zero() {
    // Should find the hole starting at the beginning of the block
    let mut meta = BlockMeta::new();

    meta.set_line(3, 1);

    let expect = Some((3 * LINE_SIZE, 0));

    let got = meta.find_next_available_hole(3 * LINE_SIZE, LINE_SIZE);

    assert_eq!(got, expect);
}

#[test]
fn block_meta_hole_with_conservatively_marked_line() {
    // hole size should reflect there being one line conservatively marked
    let mut meta = BlockMeta::new();

    meta.set_line(0, 1);
    meta.set_line(3, 1);

    let expect = Some((3 * LINE_SIZE, LINE_SIZE * 2));

    let got = meta.find_next_available_hole(3 * LINE_SIZE, LINE_SIZE);

    assert_eq!(got, expect);
}

#[test]
fn block_meta_find_next_hole_at_block_end() {
    // The first half of the block is marked.
    // The second half of the block should be identified as a hole.
    let mut meta = BlockMeta::new();
    let halfway = LINE_COUNT / 2;

    for i in halfway..LINE_COUNT {
        meta.set_line(i, 1);
    }

    // because the halfway line should be conservatively marked
    let expect = Some((halfway * LINE_SIZE, 0));
    let got = meta.find_next_available_hole(BLOCK_CAPACITY, LINE_SIZE);

    assert_eq!(got, expect);
}

#[test]
fn block_meta_all_holes_conservatively_marked() {
    // Every other line is marked.
    // No hole should be found due to conservative marking.
    let mut meta = BlockMeta::new();

    for i in (0..LINE_COUNT).step_by(2) {
        meta.set_line(i, 1);
    }

    let got = meta.find_next_available_hole(BLOCK_CAPACITY, 1);
    assert_eq!(got, None);
}

#[test]
fn block_meta_entire_block_is_hole() {
    let meta = BlockMeta::new();
    let expect = (BLOCK_CAPACITY / LINE_SIZE * LINE_SIZE, 0);
    let got = meta.find_next_available_hole(BLOCK_CAPACITY, LINE_SIZE).unwrap();

    assert_eq!(got, expect);
}

#[test]
fn reset_block_meta() {
    let mut meta = BlockMeta::new();

    meta.mark_block(1);

    for i in 0..LINE_COUNT {
        let mark = 69;
        meta.set_line(i, mark);
    }

    meta.reset();

    assert_eq!(meta.get_block_mark(), FREE_MARK);

    for i in 0..LINE_COUNT {
        assert_eq!(meta.get_line(i), FREE_MARK);
    }
}

#[test]
fn block_meta_free_unmarked_reclaims() {
    // An object marked in one generation survives a sweep of that
    // generation; a sweep of the next generation frees its lines.
    let mut meta = BlockMeta::new();

    meta.mark(0, 1, SizeClass::Small, 1);
    assert_eq!(meta.get_line(0), 1);
    assert_eq!(meta.get_block_mark(), 1);

    meta.free_unmarked(1);
    assert_eq!(meta.get_line(0), 1);
    assert_eq!(meta.get_block_mark(), 1);

    meta.free_unmarked(2);
    assert_eq!(meta.get_line(0), FREE_MARK);
    assert_eq!(meta.get_block_mark(), FREE_MARK);
}

#[test]
fn block_meta_mark_medium_covers_lines() {
    // A medium object covers every line it touches, and only those.
    let mut meta = BlockMeta::new();

    meta.mark(2 * LINE_SIZE, 3 * LINE_SIZE, SizeClass::Medium, 7);

    assert_eq!(meta.get_line(1), FREE_MARK);
    assert_eq!(meta.get_line(2), 7);
    assert_eq!(meta.get_line(3), 7);
    assert_eq!(meta.get_line(4), 7);
    assert_eq!(meta.get_line(5), FREE_MARK);
    assert_eq!(meta.get_block_mark(), 7);
}
