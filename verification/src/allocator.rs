//! The allocator handle a mutator works with: an allocation head over its
//! own block store.

use vstd::prelude::*;

use crate::alloc_head::{valid_request, AllocHead};
use crate::block_store::{
    all_swept_from, free_candidates, free_kept, large_marked, marked_count,
};
use crate::constants::{BLOCK_CAPACITY, BLOCK_SIZE, FREE_MARK, MAX_FREE_BLOCKS};
use crate::error::AllocError;
use crate::large_block::padded_size;
use crate::layout::Layout;
use crate::size_class::{size_class_of, SizeClass};

verus! {

pub struct Allocator {
    pub head: AllocHead,
}

impl Allocator {
    pub open spec fn wf(self) -> bool {
        self.head.wf()
    }

    pub open spec fn bytes(self) -> int {
        self.head.bytes()
    }

    pub fn new() -> (r: Allocator)
        ensures
            r.wf(),
            r.bytes() == 0,
            r.head.head is None,
            r.head.overflow is None,
            r.head.store.free@.len() == 0,
            r.head.store.recycle@.len() == 0,
            r.head.store.rest@.len() == 0,
            r.head.store.large@.len() == 0,
            r.head.store.block_count == 0,
            r.head.store.next_base == BLOCK_SIZE,
    {
        Allocator { head: AllocHead::new() }
    }

    /// See [`AllocHead::allocate`]: a returned address is aligned to the
    /// request; a small object is served at the head window's cursor, a
    /// medium one at the overflow window's cursor, inside one block's
    /// payload; a large object gets a standalone span at the address
    /// horizon.  An error hands out nothing and changes no size.
    pub fn allocate(&mut self, layout: Layout) -> (r: Result<usize, AllocError>)
        requires
            old(self).wf(),
            layout.wf(),
        ensures
            final(self).wf(),
            r matches Ok(p) ==> {
                &&& valid_request(layout)
                &&& p as int % (layout.align as int) == 0
                &&& p >= BLOCK_SIZE
                &&& size_class_of(layout.size as int) != Some(SizeClass::Large) ==> {
                    &&& p as int % (BLOCK_SIZE as int) + layout.size <= BLOCK_CAPACITY
                    &&& (final(self).bytes() == old(self).bytes() || final(self).bytes() == old(self).bytes() + BLOCK_SIZE)
                    &&& final(self).head.store.next_base - old(self).head.store.next_base
                        == final(self).bytes() - old(self).bytes()
                }
                &&& size_class_of(layout.size as int) == Some(SizeClass::Small) ==> {
                    &&& final(self).head.head matches Some(h) && p == h.block.base + h.cursor
                        && h.cursor + layout.size <= BLOCK_CAPACITY
                    &&& (old(self).head.head is Some && final(self).head.store.rest@.len() == old(self).head.store.rest@.len()
                        ==> final(self).head.head->0.block.base == old(self).head.head->0.block.base
                        && final(self).head.head->0.cursor + layout.size <= old(self).head.head->0.cursor)
                }
                &&& size_class_of(layout.size as int) == Some(SizeClass::Medium) ==> {
                    &&& final(self).head.overflow matches Some(h) && p == h.block.base + h.cursor
                        && h.cursor + layout.size <= BLOCK_CAPACITY
                    &&& (old(self).head.overflow is Some && final(self).head.store.recycle@.len()
                        + final(self).head.store.rest@.len() == old(self).head.store.recycle@.len()
                        + old(self).head.store.rest@.len()
                        ==> final(self).head.overflow->0.block.base == old(self).head.overflow->0.block.base
                        && final(self).head.overflow->0.cursor + layout.size <= old(self).head.overflow->0.cursor)
                    &&& final(self).head.store.free@.len() <= old(self).head.store.free@.len()
                    &&& (final(self).head.store.recycle@.len() + final(self).head.store.rest@.len()
                        != old(self).head.store.recycle@.len() + old(self).head.store.rest@.len()
                        ==> final(self).head.store.free@.len() < old(self).head.store.free@.len()
                        || final(self).bytes() == old(self).bytes() + BLOCK_SIZE)
                    &&& (old(self).head.overflow is None ==> final(self).head.store.free@.len()
                        < old(self).head.store.free@.len() || final(self).bytes() == old(self).bytes() + BLOCK_SIZE)
                }
                &&& size_class_of(layout.size as int) == Some(SizeClass::Large) ==> {
                    &&& p == old(self).head.store.next_base
                    &&& p as int % (BLOCK_SIZE as int) == 0
                    &&& final(self).bytes() == old(self).bytes() + padded_size(layout)
                    &&& padded_size(layout) > layout.size
                    &&& final(self).head.store.large@.len() == old(self).head.store.large@.len() + 1
                    &&& final(self).head.store.large@.last().base == p
                    &&& final(self).head.store.large@.last().size == padded_size(layout)
                }
            },
            (r == Result::<usize, AllocError>::Err(AllocError::AllocOverflow)) <==> !valid_request(
                layout,
            ),
            r matches Err(e) ==> {
                &&& final(self).bytes() == old(self).bytes()
                &&& final(self).head.store.large@ == old(self).head.store.large@
                &&& final(self).head.store.block_count == old(self).head.store.block_count
                &&& final(self).head.store.next_base == old(self).head.store.next_base
            },
            valid_request(layout) && old(self).head.room_for(layout) ==> r is Ok,
            r matches Err(e) && e == AllocError::OOM ==> !old(self).head.room_for(layout),
    {
        self.head.allocate(layout)
    }

    /// Flush the windows and sweep the store for generation `mark_value`.
    /// Exactly the still-referenced blocks survive, stale marks cleared;
    /// unreferenced blocks become free, capped at `MAX_FREE_BLOCKS`; a
    /// second sweep of the same generation reclaims nothing more.
    pub fn sweep(&mut self, mark_value: u8)
        requires
            old(self).wf(),
            mark_value != FREE_MARK,
        ensures
            final(self).wf(),
            final(self).head.head is None,
            final(self).head.overflow is None,
            final(self).head.store.swept(mark_value),
            final(self).bytes() <= old(self).bytes(),
            final(self).head.store.free@.len() <= MAX_FREE_BLOCKS,
            final(self).head.store.large@.to_multiset() == old(self).head.store.large@.filter(
                large_marked(mark_value),
            ).to_multiset(),
            old(self).head.head is None && old(self).head.overflow is None ==> {
                &&& final(self).head.store.recycle@.len() + final(self).head.store.rest@.len()
                    == marked_count(old(self).head.store.recycle@, mark_value) + marked_count(
                    old(self).head.store.rest@,
                    mark_value,
                )
                &&& all_swept_from(
                    final(self).head.store.recycle@,
                    old(self).head.store.recycle@ + old(self).head.store.rest@,
                    mark_value,
                )
                &&& all_swept_from(
                    final(self).head.store.rest@,
                    old(self).head.store.recycle@ + old(self).head.store.rest@,
                    mark_value,
                )
                &&& final(self).head.store.block_count == old(self).head.store.block_count - (
                free_candidates(old(self).head.store, mark_value) - free_kept(
                    old(self).head.store,
                    mark_value,
                ))
            },
            old(self).head.head is None && old(self).head.overflow is None && old(self).head.store.swept(mark_value) && old(self).head.store.free@.len() <= MAX_FREE_BLOCKS
                ==> final(self).bytes() == old(self).bytes() && final(self).head.store.block_count
                == old(self).head.store.block_count,
    {
        self.head.sweep(mark_value);
    }

    pub fn get_size(&self) -> (r: usize)
        requires
            self.wf(),
        ensures
            r == self.bytes(),
    {
        self.head.get_size()
    }
}

} // verus!
