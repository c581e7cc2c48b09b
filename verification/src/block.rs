//! A block: a `BLOCK_SIZE`-aligned span of the heap's address space holding
//! the object payload, addressed through its base, plus its mark metadata.

use vstd::prelude::*;

use crate::block_meta::{
    hole_result, lines_free, no_hole, BlockMeta,
};
use crate::constants::{BLOCK_CAPACITY, BLOCK_SIZE, FREE_MARK, LINE_COUNT};

verus! {

/// A usable block base: nonzero (so no allocation is ever at address zero),
/// aligned to the block size, and with the whole block below the address
/// horizon.
pub open spec fn block_base_wf(base: usize) -> bool {
    &&& base >= BLOCK_SIZE
    &&& base as int % (BLOCK_SIZE as int) == 0
    &&& base + BLOCK_SIZE <= usize::MAX
}

pub struct Block {
    pub base: usize,
    pub meta: BlockMeta,
}

impl Block {
    pub open spec fn wf(self) -> bool {
        &&& block_base_wf(self.base)
        &&& self.meta.wf()
    }

    /// Claim the block span starting at `base` and reset its marks.
    pub fn new(base: usize) -> (r: Block)
        requires
            block_base_wf(base),
        ensures
            r.wf(),
            r.base == base,
            r.meta.block_mark == FREE_MARK,
            lines_free(r.meta.lines@, 0, LINE_COUNT as int),
    {
        Block { base, meta: BlockMeta::new() }
    }

    /// See [`BlockMeta::find_next_available_hole`].
    pub fn find_next_available_hole(&self, starting_at: usize, alloc_size: usize) -> (r: Option<
        (usize, usize),
    >)
        requires
            self.wf(),
            1 <= alloc_size,
            starting_at <= BLOCK_CAPACITY,
        ensures
            r matches Some(pair) ==> {
                &&& hole_result(
                    self.meta.lines@,
                    starting_at as int,
                    alloc_size as int,
                    pair.0 as int,
                    pair.1 as int,
                )
                &&& pair.1 < pair.0 <= starting_at
                &&& pair.0 - pair.1 >= alloc_size
            },
            r is None ==> no_hole(self.meta.lines@, starting_at as int, alloc_size as int),
    {
        self.meta.find_next_available_hole(starting_at, alloc_size)
    }

    /// See [`BlockMeta::free_unmarked`].
    pub fn free_unmarked(&mut self, mark_value: u8)
        requires
            old(self).wf(),
            mark_value != FREE_MARK,
        ensures
            final(self).wf(),
            final(self).base == old(self).base,
            final(self).meta.block_mark == (if old(self).meta.block_mark == mark_value {
                mark_value
            } else {
                FREE_MARK
            }),
            forall|i: int|
                0 <= i < LINE_COUNT ==> final(self).meta.lines@[i] == (if old(self).meta.lines@[i]
                    == mark_value {
                    mark_value
                } else {
                    FREE_MARK
                }),
    {
        self.meta.free_unmarked(mark_value);
    }

    /// Clear the block mark and every line mark.
    pub fn reset(&mut self)
        requires
            old(self).wf(),
        ensures
            final(self).wf(),
            final(self).base == old(self).base,
            final(self).meta.block_mark == FREE_MARK,
            lines_free(final(self).meta.lines@, 0, LINE_COUNT as int),
    {
        self.meta.reset();
    }

    /// The address of byte `idx` of the block's payload.
    pub fn get_data_ptr(&self, idx: usize) -> (r: usize)
        requires
            self.wf(),
            idx < BLOCK_CAPACITY,
        ensures
            r == self.base + idx,
    {
        self.base + idx
    }

    pub fn get_mark(&self) -> (r: u8)
        ensures
            r == self.meta.block_mark,
    {
        self.meta.get_block_mark()
    }

    pub fn mark_block(&mut self, mark_value: u8)
        requires
            old(self).wf(),
            mark_value != FREE_MARK,
        ensures
            final(self).wf(),
            final(self).base == old(self).base,
            final(self).meta.block_mark == mark_value,
            final(self).meta.lines@ == old(self).meta.lines@,
    {
        self.meta.mark_block(mark_value);
    }

    pub fn get_line(&self, index: usize) -> (r: u8)
        requires
            self.wf(),
            index < LINE_COUNT,
        ensures
            r == self.meta.lines@[index as int],
    {
        self.meta.get_line(index)
    }

    pub fn set_line(&mut self, index: usize, mark_value: u8)
        requires
            old(self).wf(),
            index < LINE_COUNT,
        ensures
            final(self).wf(),
            final(self).base == old(self).base,
            final(self).meta.lines@ == old(self).meta.lines@.update(index as int, mark_value),
            final(self).meta.block_mark == old(self).meta.block_mark,
    {
        self.meta.set_line(index, mark_value);
    }
}

} // verus!
