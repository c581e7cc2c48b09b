use nimix::block::Block;
use nimix::constants::{BLOCK_CAPACITY, BLOCK_SIZE, FREE_MARK, LINE_COUNT, LINE_SIZE};

fn fresh_block() -> Block {
    Block::new(BLOCK_SIZE)
}

#[test]
fn new_block_is_reset() {
    let block = fresh_block();

    assert_eq!(block.get_mark(), FREE_MARK);

    for i in 0..LINE_COUNT {
        assert_eq!(block.get_line(i), FREE_MARK);
    }
}

#[test]
fn block_mark_block() {
    let mut block = fresh_block();

    block.mark_block(1);

    assert_eq!(block.get_mark(), 1);

    for i in 0..LINE_COUNT {
        assert_eq!(block.get_line(i), FREE_MARK);
    }
}

#[test]
fn block_mark_line() {
    let mut block = fresh_block();

    for i in 0..LINE_COUNT {
        let mark = i;
        block.set_line(i, mark as u8);

        assert_eq!(i as u8, block.get_line(i));
    }
}

#[test]
fn block_find_next_hole() {
    // A set of marked lines with a couple holes.
    // The first hole should be seen as conservatively marked.
    // The second hole should be the one selected.
    let mut block = fresh_block();

    block.set_line(9, 1);
    block.set_line(10, 1);

    let expect = Some((9 * LINE_SIZE, 0));

    let got = block.find_next_available_hole(10 * LINE_SIZE, LINE_SIZE);

    assert_eq!(got, expect);
}

#[test]
fn block_find_next_hole_at_line_zero() {
    // Should find the hole starting at the beginning of the block
    let mut block = fresh_block();

    block.set_line(3, 1);

    let expect = Some((3 * LINE_SIZE, 0));

    let got = block.find_next_available_hole(3 * LINE_SIZE, LINE_SIZE);

    assert_eq!(got, expect);
}

#[test]
fn block_hole_with_conservatively_marked_line() {
    // hole size should reflect there being one line conservatively marked
    let mut block = fresh_block();

    block.set_line(0, 1);
    block.set_line(3, 1);

    // The limit is LINE_SIZE * 2: line 0 is marked, conservatively marking
    // line 1, so the hole is constrained to only line 2.
    let expect = Some((3 * LINE_SIZE, LINE_SIZE * 2));

    let got = block.find_next_available_hole(3 * LINE_SIZE, LINE_SIZE);

    assert_eq!(got, expect);
}

#[test]
fn block_find_next_hole_at_block_end() {
    // The first half of the block is marked.
    // The second half of the block should be identified as a hole.
    let mut block = fresh_block();
    let halfway = LINE_COUNT / 2;

    for i in halfway..LINE_COUNT {
        block.set_line(i, 1);
    }

    // because the halfway line should be conservatively marked
    let expect = Some((halfway * LINE_SIZE, 0));
    let got = block.find_next_available_hole(BLOCK_CAPACITY, LINE_SIZE);

    assert_eq!(got, expect);
}

#[test]
fn block_all_holes_conservatively_marked() {
    // Every other line is marked.
    // No hole should be found due to conservative marking.
    let mut block = fresh_block();

    for i in (0..LINE_COUNT).step_by(2) {
        block.set_line(i, 1);
    }

    let got = block.find_next_available_hole(BLOCK_CAPACITY, 1);
    assert_eq!(got, None);
}

#[test]
fn block_entire_block_is_hole() {
    let block = fresh_block();
    // The hole opens at the topmost whole line of the payload.
    let expect = (BLOCK_CAPACITY / LINE_SIZE * LINE_SIZE, 0);
    let got = block.find_next_available_hole(BLOCK_CAPACITY, LINE_SIZE).unwrap();

    assert_eq!(got, expect);
}

#[test]
fn reset_block_block() {
    let mut block = fresh_block();

    block.mark_block(1);

    for i in 0..LINE_COUNT {
        let mark = 69;
        block.set_line(i, mark);
    }

    block.reset();

    assert_eq!(block.get_mark(), FREE_MARK);

    for i in 0..LINE_COUNT {
        assert_eq!(block.get_line(i), FREE_MARK);
    }
}
