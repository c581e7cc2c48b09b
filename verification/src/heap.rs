//! The heap façade: owns the allocation head and exposes size and sweep.

use vstd::prelude::*;

use crate::alloc_head::AllocHead;
use crate::block_store::{
    all_swept_from, free_candidates, free_kept, large_marked, marked_count,
};
use crate::constants::{FREE_MARK, MAX_FREE_BLOCKS};

verus! {

pub struct Heap {
    pub head: AllocHead,
}

impl Default for Heap {
    fn default() -> (r: Self)
        ensures
            r.wf(),
            r.bytes() == 0,
    {
        Heap::new()
    }
}

impl Heap {
    pub open spec fn wf(self) -> bool {
        self.head.wf()
    }

    pub open spec fn bytes(self) -> int {
        self.head.bytes()
    }

    /// A heap with empty pools.
    pub fn new() -> (r: Heap)
        ensures
            r.wf(),
            r.bytes() == 0,
            r.head.head is None,
            r.head.overflow is None,
            r.head.store.free@.len() == 0,
            r.head.store.recycle@.len() == 0,
            r.head.store.rest@.len() == 0,
            r.head.store.large@.len() == 0,
            r.head.store.block_count == 0,
    {
        Heap { head: AllocHead::new() }
    }

    /// Total bytes owned: blocks in existence plus large-object spans.
    pub fn size(&self) -> (r: usize)
        requires
            self.wf(),
        ensures
            r == self.bytes(),
    {
        self.head.get_size()
    }

    /// Flush the allocation windows and sweep for generation `live_mark`.
    /// Exactly the still-referenced blocks survive, each traced to its
    /// pre-sweep state with stale line marks cleared; unreferenced blocks
    /// become free, capped at `MAX_FREE_BLOCKS`; a second sweep of the
    /// same generation reclaims nothing more.
    pub fn sweep(&mut self, live_mark: u8)
        requires
            old(self).wf(),
            live_mark != FREE_MARK,
        ensures
            final(self).wf(),
            final(self).head.head is None,
            final(self).head.overflow is None,
            final(self).head.store.swept(live_mark),
            final(self).bytes() <= old(self).bytes(),
            final(self).head.store.free@.len() <= MAX_FREE_BLOCKS,
            final(self).head.store.large@.to_multiset() == old(self).head.store.large@.filter(
                large_marked(live_mark),
            ).to_multiset(),
            old(self).head.head is None && old(self).head.overflow is None ==> {
                &&& final(self).head.store.recycle@.len() + final(self).head.store.rest@.len()
                    == marked_count(old(self).head.store.recycle@, live_mark) + marked_count(
                    old(self).head.store.rest@,
                    live_mark,
                )
                &&& all_swept_from(
                    final(self).head.store.recycle@,
                    old(self).head.store.recycle@ + old(self).head.store.rest@,
                    live_mark,
                )
                &&& all_swept_from(
                    final(self).head.store.rest@,
                    old(self).head.store.recycle@ + old(self).head.store.rest@,
                    live_mark,
                )
                &&& final(self).head.store.block_count == old(self).head.store.block_count - (
                free_candidates(old(self).head.store, live_mark) - free_kept(
                    old(self).head.store,
                    live_mark,
                ))
            },
            old(self).head.head is None && old(self).head.overflow is None && old(self).head.store.swept(live_mark) && old(self).head.store.free@.len() <= MAX_FREE_BLOCKS
                ==> final(self).bytes() == old(self).bytes() && final(self).head.store.block_count
                == old(self).head.store.block_count,
    {
        self.head.sweep(live_mark);
    }
}

} // verus!
