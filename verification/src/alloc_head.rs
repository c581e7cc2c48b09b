//! The per-thread allocation front: a *head* window for small requests, an
//! *overflow* window for medium ones, and the block store they draw from.

use vstd::prelude::*;

use crate::block_store::{bump_base_in, bump_marked_from, same_store, BlockStore};
use crate::bump_block::BumpBlock;
use crate::constants::{
    BLOCK_CAPACITY, BLOCK_SIZE, FREE_MARK, MAX_ALLOC_SIZE, MAX_FREE_BLOCKS, RECYCLE_HOLE_MIN,
    SMALL_OBJECT_MAX,
};
use crate::error::AllocError;
use crate::large_block::padded_size;
use crate::layout::{
    is_pow2, lemma_mod_divides_transitive, lemma_mod_sum_zero, lemma_pow2_divides, Layout,
};
use crate::size_class::{size_class_of, SizeClass};

verus! {

/// `p` is `base + off` for some block base and some in-block offset that is
/// aligned for `layout` and keeps the whole object inside the payload.
pub open spec fn bump_at(p: int, layout: Layout, base: int, off: int) -> bool {
    &&& base >= BLOCK_SIZE
    &&& base % (BLOCK_SIZE as int) == 0
    &&& p == base + off
    &&& 0 <= off
    &&& off % (layout.align as int) == 0
    &&& off + layout.size <= BLOCK_CAPACITY
}

/// `p` came out of some block's bump window for `layout`.
pub open spec fn bump_result(p: int, layout: Layout) -> bool {
    exists|base: int, off: int| #[trigger] bump_at(p, layout, base, off)
}

/// What a bump address guarantees: alignment to the request, and
/// containment of the whole object within one block's payload.
pub proof fn lemma_bump_result_fits(p: int, layout: Layout)
    requires
        bump_result(p, layout),
        layout.wf(),
        layout.align <= BLOCK_SIZE,
    ensures
        p % (layout.align as int) == 0,
        p % (BLOCK_SIZE as int) + layout.size <= BLOCK_CAPACITY,
        p >= BLOCK_SIZE,
{
    let (base, off) = choose|base: int, off: int| #[trigger] bump_at(p, layout, base, off);
    assert(is_pow2(BLOCK_SIZE as int)) by {
        reveal_with_fuel(is_pow2, 17);
    }
    lemma_pow2_divides(layout.align as int, BLOCK_SIZE as int);
    lemma_mod_divides_transitive(base, BLOCK_SIZE as int, layout.align as int);
    lemma_mod_sum_zero(base, off, layout.align as int);
    assert(p % (BLOCK_SIZE as int) == off) by {
        vstd::arithmetic::div_mod::lemma_add_mod_noop(base, off, BLOCK_SIZE as int);
        vstd::arithmetic::div_mod::lemma_small_mod(off as nat, BLOCK_SIZE as nat);
        vstd::arithmetic::div_mod::lemma_small_mod(0nat, BLOCK_SIZE as nat);
    }
}

/// The request is one the allocator accepts: a positive size up to the
/// large-object cap, and an alignment no bigger than a block.
pub open spec fn valid_request(layout: Layout) -> bool {
    &&& 1 <= layout.size <= MAX_ALLOC_SIZE
    &&& layout.align <= BLOCK_SIZE
}

pub struct AllocHead {
    pub head: Option<BumpBlock>,
    pub overflow: Option<BumpBlock>,
    pub store: BlockStore,
}

/// An optional window as a sequence of zero or one blocks.
pub open spec fn opt_seq(o: Option<BumpBlock>) -> Seq<BumpBlock> {
    match o {
        Some(b) => seq![b],
        None => Seq::<BumpBlock>::empty(),
    }
}

/// Exactly one reachable block — the one at `base` — went from its state
/// in `pre` to carrying generation `mark_value` on its block mark and on
/// the lines `[first, last]` of the marked object; every other block kept
/// its state.
pub open spec fn bump_mark_applied(
    pre: AllocHead,
    post: AllocHead,
    base: usize,
    offset: int,
    size: int,
    size_class: SizeClass,
    mark_value: u8,
) -> bool {
    &&& post.bumps().len() == pre.bumps().len()
    &&& exists|j: int|
        0 <= j < pre.bumps().len() && (#[trigger] pre.bumps()[j]).block.base == base
            && bump_marked_from(
            post.bumps()[j],
            pre.bumps()[j],
            crate::block_meta::mark_first(offset),
            crate::block_meta::mark_last(offset, size, size_class),
            mark_value,
        ) && (forall|k: int|
            0 <= k < pre.bumps().len() && k != j ==> post.bumps()[k] == pre.bumps()[k])
}

/// Fuel for the small-allocation refill loop: every refill either consumes
/// the overflow window, pops a recycled block, or installs an empty window
/// that cannot fail again.
pub open spec fn small_refill_measure(a: AllocHead) -> int {
    a.store.recycle@.len() * 2 + (if a.overflow is Some {
        2int
    } else {
        0int
    }) + (if a.head matches Some(b) && b.window_reset() {
        0int
    } else {
        1int
    })
}

impl AllocHead {
    pub open spec fn windows(self) -> int {
        (if self.head is Some {
            1int
        } else {
            0int
        }) + (if self.overflow is Some {
            1int
        } else {
            0int
        })
    }

    pub open spec fn wf(self) -> bool {
        &&& self.store.wf()
        &&& (self.head matches Some(b) ==> b.wf())
        &&& (self.overflow matches Some(b) ==> b.wf())
        &&& self.store.loaned@ == self.windows()
    }

    /// Bytes owned through this head's store.
    pub open spec fn bytes(self) -> int {
        self.store.bytes()
    }

    /// A fresh head over a fresh, empty store.
    pub fn new() -> (r: AllocHead)
        ensures
            r.wf(),
            r.head is None,
            r.overflow is None,
            r.bytes() == 0,
            r.store.free@.len() == 0,
            r.store.recycle@.len() == 0,
            r.store.rest@.len() == 0,
            r.store.large@.len() == 0,
            r.store.block_count == 0,
            r.store.next_base == BLOCK_SIZE,
    {
        AllocHead { head: None, overflow: None, store: BlockStore::new() }
    }

    pub fn get_size(&self) -> (r: usize)
        requires
            self.wf(),
        ensures
            r == self.bytes(),
    {
        self.store.get_size()
    }

    /// Allocate `layout.size` bytes aligned to `layout.align`.  A small
    /// object is served out of the head window, a medium one out of the
    /// overflow window, in both cases at the window's own cursor inside
    /// one block's payload; a large object gets a standalone span at the
    /// address horizon.  Requests with size zero, size above
    /// `MAX_ALLOC_SIZE` or alignment above `BLOCK_SIZE` are rejected;
    /// valid requests succeed whenever address space is left for one more
    /// block span.  An error hands out nothing and leaves every size
    /// unchanged (a failed window walk may move a window's cursor, which
    /// no caller can observe through an address).
    pub fn allocate(&mut self, layout: Layout) -> (r: Result<usize, AllocError>)
        requires
            old(self).wf(),
            layout.wf(),
        ensures
            final(self).wf(),
            r matches Ok(p) ==> {
                &&& valid_request(layout)
                &&& p as int % (layout.align as int) == 0
                &&& p >= BLOCK_SIZE
                &&& size_class_of(layout.size as int) != Some(SizeClass::Large) ==> {
                    &&& p as int % (BLOCK_SIZE as int) + layout.size <= BLOCK_CAPACITY
                    &&& (final(self).bytes() == old(self).bytes() || final(self).bytes() == old(self).bytes() + BLOCK_SIZE)
                    &&& final(self).store.large@ == old(self).store.large@
                    &&& final(self).store.next_base - old(self).store.next_base == final(self).bytes() - old(self).bytes()
                }
                &&& size_class_of(layout.size as int) == Some(SizeClass::Small) ==> {
                    &&& final(self).head matches Some(h) && p == h.block.base + h.cursor
                        && h.cursor + layout.size <= BLOCK_CAPACITY
                    &&& (old(self).head is Some && final(self).store.rest@.len() == old(self).store.rest@.len() ==> final(self).head->0.block.base == old(self).head->0.block.base && final(self).head->0.cursor + layout.size <= old(self).head->0.cursor)
                }
                &&& size_class_of(layout.size as int) == Some(SizeClass::Medium) ==> {
                    &&& final(self).overflow matches Some(h) && p == h.block.base + h.cursor
                        && h.cursor + layout.size <= BLOCK_CAPACITY
                    &&& (old(self).overflow is Some && final(self).store.recycle@.len() + final(self).store.rest@.len() == old(self).store.recycle@.len() + old(self).store.rest@.len() ==> final(self).overflow->0.block.base == old(self).overflow->0.block.base && final(self).overflow->0.cursor + layout.size
                        <= old(self).overflow->0.cursor)
                    &&& final(self).store.free@.len() <= old(self).store.free@.len()
                    &&& (final(self).store.recycle@.len() + final(self).store.rest@.len() != old(self).store.recycle@.len() + old(self).store.rest@.len() ==> final(self).store.free@.len() < old(self).store.free@.len() || final(self).bytes()
                        == old(self).bytes() + BLOCK_SIZE)
                    &&& (old(self).overflow is None ==> final(self).store.free@.len() < old(self).store.free@.len() || final(self).bytes() == old(self).bytes() + BLOCK_SIZE)
                }
                &&& size_class_of(layout.size as int) == Some(SizeClass::Large) ==> {
                    &&& p == old(self).store.next_base
                    &&& p as int % (BLOCK_SIZE as int) == 0
                    &&& final(self).bytes() == old(self).bytes() + padded_size(layout)
                    &&& padded_size(layout) > layout.size
                    &&& final(self).head == old(self).head
                    &&& final(self).overflow == old(self).overflow
                    &&& final(self).store.large@.len() == old(self).store.large@.len() + 1
                    &&& final(self).store.large@.drop_last() == old(self).store.large@
                    &&& final(self).store.large@.last().base == p
                    &&& final(self).store.large@.last().size == padded_size(layout)
                    &&& final(self).store.large@.last().mark == FREE_MARK
                    &&& final(self).store.free@ == old(self).store.free@
                    &&& final(self).store.recycle@ == old(self).store.recycle@
                    &&& final(self).store.rest@ == old(self).store.rest@
                    &&& final(self).store.block_count == old(self).store.block_count
                    &&& final(self).store.next_base >= old(self).store.next_base + padded_size(
                        layout,
                    )
                }
            },
            (r == Result::<usize, AllocError>::Err(AllocError::AllocOverflow)) <==> !valid_request(
                layout,
            ),
            r == Result::<usize, AllocError>::Err(AllocError::AllocOverflow) ==> same_store(
                final(self).store,
                old(self).store,
            ) && final(self).head == old(self).head && final(self).overflow == old(self).overflow,
            r matches Err(e) ==> {
                &&& final(self).bytes() == old(self).bytes()
                &&& final(self).store.large@ == old(self).store.large@
                &&& final(self).store.block_count == old(self).store.block_count
                &&& final(self).store.next_base == old(self).store.next_base
            },
            valid_request(layout) && old(self).room_for(layout) ==> r is Ok,
            r matches Err(e) && e == AllocError::OOM ==> !old(self).room_for(layout),
    {
        let size_class = match SizeClass::get_for_size(layout.size) {
            Ok(c) => c,
            Err(e) => {
                return Err(e);
            },
        };
        if layout.align > BLOCK_SIZE {
            return Err(AllocError::AllocOverflow);
        }
        match size_class {
            SizeClass::Small => {
                let r = self.small_alloc(layout);
                proof {
                    match r {
                        Ok(p) => lemma_bump_result_fits(p as int, layout),
                        Err(_) => (),
                    }
                }
                r
            },
            SizeClass::Medium => {
                let r = self.medium_alloc(layout);
                proof {
                    match r {
                        Ok(p) => lemma_bump_result_fits(p as int, layout),
                        Err(_) => (),
                    }
                }
                r
            },
            SizeClass::Large => {
                let r = self.store.create_large(layout);
                proof {
                    match r {
                        Ok(p) => {
                            crate::large_block::lemma_padded_size_bounds(layout);
                            assert(is_pow2(BLOCK_SIZE as int)) by {
                                reveal_with_fuel(is_pow2, 17);
                            }
                            lemma_pow2_divides(layout.align as int, BLOCK_SIZE as int);
                            lemma_mod_divides_transitive(
                                p as int,
                                BLOCK_SIZE as int,
                                layout.align as int,
                            );
                        },
                        Err(_) => (),
                    }
                }
                r
            },
        }
    }

    /// Address space is left to serve this request even from an empty
    /// store.
    pub open spec fn room_for(self, layout: Layout) -> bool {
        if size_class_of(layout.size as int) == Some(SizeClass::Large) {
            self.store.room_for_large(layout)
        } else {
            self.store.can_make_block()
        }
    }

    /// Flush both windows back to the store, which classifies them.
    pub fn flush(&mut self)
        requires
            old(self).wf(),
        ensures
            final(self).wf(),
            final(self).head is None,
            final(self).overflow is None,
            final(self).bytes() == old(self).bytes(),
            final(self).store.large@ == old(self).store.large@,
            final(self).store.free@ == old(self).store.free@,
            final(self).store.block_count == old(self).store.block_count,
            final(self).store.next_base == old(self).store.next_base,
            old(self).head is None && old(self).overflow is None ==> same_store(
                final(self).store,
                old(self).store,
            ),
    {
        match self.head.take() {
            Some(head) => {
                self.store.recycle(head);
            },
            None => {},
        }
        match self.overflow.take() {
            Some(overflow) => {
                self.store.recycle(overflow);
            },
            None => {},
        }
    }

    /// Flush the windows, then sweep the store for generation
    /// `mark_value`.  Sweeping twice for one generation with nothing in
    /// between reclaims nothing the second time.
    pub fn sweep(&mut self, mark_value: u8)
        requires
            old(self).wf(),
            mark_value != FREE_MARK,
        ensures
            final(self).wf(),
            final(self).head is None,
            final(self).overflow is None,
            final(self).store.swept(mark_value),
            final(self).bytes() <= old(self).bytes(),
            final(self).store.free@.len() <= MAX_FREE_BLOCKS,
            forall|i: int|
                0 <= i < final(self).store.recycle@.len() ==> (#[trigger] final(self).store.recycle@[i]).hole_size() >= RECYCLE_HOLE_MIN,
            forall|i: int|
                0 <= i < final(self).store.rest@.len() ==> (#[trigger] final(self).store.rest@[i]).hole_size() < RECYCLE_HOLE_MIN,
            final(self).store.large@.to_multiset() == old(self).store.large@.filter(
                crate::block_store::large_marked(mark_value),
            ).to_multiset(),
            old(self).head is None && old(self).overflow is None ==> {
                &&& final(self).store.recycle@.len() + final(self).store.rest@.len()
                    == crate::block_store::marked_count(old(self).store.recycle@, mark_value)
                    + crate::block_store::marked_count(old(self).store.rest@, mark_value)
                &&& crate::block_store::all_swept_from(
                    final(self).store.recycle@,
                    old(self).store.recycle@ + old(self).store.rest@,
                    mark_value,
                )
                &&& crate::block_store::all_swept_from(
                    final(self).store.rest@,
                    old(self).store.recycle@ + old(self).store.rest@,
                    mark_value,
                )
                &&& final(self).store.free@.len() == crate::block_store::free_kept(
                    old(self).store,
                    mark_value,
                )
                &&& final(self).store.block_count == old(self).store.block_count - (
                crate::block_store::free_candidates(old(self).store, mark_value)
                    - crate::block_store::free_kept(old(self).store, mark_value))
            },
            old(self).head is None && old(self).overflow is None && old(self).store.swept(
                mark_value,
            ) && old(self).store.free@.len() <= MAX_FREE_BLOCKS ==> {
                &&& final(self).bytes() == old(self).bytes()
                &&& final(self).store.block_count == old(self).store.block_count
                &&& final(self).store.free@.len() == old(self).store.free@.len()
                &&& final(self).store.large@.len() == old(self).store.large@.len()
                &&& final(self).store.recycle@.len() + final(self).store.rest@.len() == old(self).store.recycle@.len() + old(self).store.rest@.len()
            },
    {
        self.flush();
        self.store.sweep(mark_value);
    }

    fn small_alloc(&mut self, layout: Layout) -> (r: Result<usize, AllocError>)
        requires
            old(self).wf(),
            layout.wf(),
            1 <= layout.size <= SMALL_OBJECT_MAX,
            layout.align <= BLOCK_SIZE,
        ensures
            final(self).wf(),
            r matches Ok(p) ==> bump_result(p as int, layout),
            r matches Ok(p) ==> (final(self).head matches Some(h) && p == h.block.base + h.cursor
                && h.cursor as int % (layout.align as int) == 0 && h.cursor + layout.size
                <= BLOCK_CAPACITY),
            r is Ok && old(self).head is Some && final(self).store.rest@.len() == old(self).store.rest@.len() ==> (final(self).head matches Some(h) && h.block.base == old(self).head->0.block.base && h.cursor + layout.size <= old(self).head->0.cursor),
            final(self).store.rest@.len() >= old(self).store.rest@.len(),
            final(self).store.large@ == old(self).store.large@,
            final(self).store.next_base - old(self).store.next_base == final(self).bytes() - old(self).bytes(),
            final(self).bytes() == old(self).bytes() || final(self).bytes() == old(self).bytes()
                + BLOCK_SIZE,
            r matches Err(e) ==> {
                &&& e == AllocError::OOM
                &&& !old(self).store.can_make_block()
                &&& final(self).bytes() == old(self).bytes()
                &&& final(self).store.next_base == old(self).store.next_base
                &&& final(self).store.block_count == old(self).store.block_count
            },
            old(self).store.can_make_block() ==> r is Ok,
    {
        loop
            invariant
                self.wf(),
                layout.wf(),
                1 <= layout.size <= SMALL_OBJECT_MAX,
                layout.align <= BLOCK_SIZE,
                self.bytes() == old(self).bytes() || self.bytes() == old(self).bytes()
                    + BLOCK_SIZE,
                self.bytes() == old(self).bytes() + BLOCK_SIZE ==> (self.head matches Some(b)
                    && b.window_reset()),
                old(self).store.can_make_block() ==> (self.store.can_make_block() || (
                self.head matches Some(b) && b.window_reset())),
                self.store.rest@.len() >= old(self).store.rest@.len(),
                self.store.rest@.len() == old(self).store.rest@.len() && old(self).head is Some
                    ==> self.head == old(self).head,
                self.store.large@ == old(self).store.large@,
                self.store.next_base - old(self).store.next_base == self.bytes() - old(self).bytes(),
            decreases small_refill_measure(*self),
        {
            let ghost top = *self;
            match self.head_alloc(layout) {
                Some(ptr) => {
                    return Ok(ptr);
                },
                None => {},
            }
            let ghost mid = *self;
            proof {
                assert(!(top.head matches Some(b) && b.window_reset()));
                assert(!(mid.head matches Some(b) && b.window_reset()));
                assert(mid.bytes() == old(self).bytes());
                assert(small_refill_measure(mid) == small_refill_measure(top));
            }
            match self.get_new_head() {
                Ok(()) => {},
                Err(e) => {
                    proof {
                        assert(!mid.store.can_make_block());
                        assert(!old(self).store.can_make_block());
                    }
                    return Err(e);
                },
            }
            proof {
                assert(small_refill_measure(*self) < small_refill_measure(top));
            }
        }
    }

    fn medium_alloc(&mut self, layout: Layout) -> (r: Result<usize, AllocError>)
        requires
            old(self).wf(),
            layout.wf(),
            SMALL_OBJECT_MAX < layout.size <= BLOCK_CAPACITY,
            layout.align <= BLOCK_SIZE,
        ensures
            final(self).wf(),
            r matches Ok(p) ==> bump_result(p as int, layout),
            r matches Ok(p) ==> (final(self).overflow matches Some(h) && p == h.block.base
                + h.cursor && h.cursor as int % (layout.align as int) == 0 && h.cursor
                + layout.size <= BLOCK_CAPACITY),
            r is Ok && old(self).overflow is Some && final(self).store.recycle@.len() + final(self).store.rest@.len() == old(self).store.recycle@.len() + old(self).store.rest@.len()
                ==> (final(self).overflow matches Some(h) && h.block.base == old(self).overflow->0.block.base && h.cursor + layout.size <= old(self).overflow->0.cursor),
            final(self).store.recycle@.len() + final(self).store.rest@.len() >= old(self).store.recycle@.len() + old(self).store.rest@.len(),
            final(self).store.free@.len() <= old(self).store.free@.len(),
            final(self).store.recycle@.len() + final(self).store.rest@.len() != old(self).store.recycle@.len() + old(self).store.rest@.len() ==> final(self).store.free@.len() < old(self).store.free@.len() || final(self).bytes() == old(self).bytes() + BLOCK_SIZE,
            r is Ok && old(self).overflow is None ==> final(self).store.free@.len() < old(self).store.free@.len() || final(self).bytes() == old(self).bytes() + BLOCK_SIZE,
            final(self).store.large@ == old(self).store.large@,
            final(self).store.next_base - old(self).store.next_base == final(self).bytes() - old(self).bytes(),
            final(self).bytes() == old(self).bytes() || final(self).bytes() == old(self).bytes()
                + BLOCK_SIZE,
            r matches Err(e) ==> {
                &&& e == AllocError::OOM
                &&& !old(self).store.can_make_block()
                &&& final(self).bytes() == old(self).bytes()
                &&& final(self).store.next_base == old(self).store.next_base
                &&& final(self).store.block_count == old(self).store.block_count
            },
            old(self).store.can_make_block() ==> r is Ok,
    {
        loop
            invariant
                self.wf(),
                layout.wf(),
                SMALL_OBJECT_MAX < layout.size <= BLOCK_CAPACITY,
                layout.align <= BLOCK_SIZE,
                self.bytes() == old(self).bytes() || self.bytes() == old(self).bytes()
                    + BLOCK_SIZE,
                self.bytes() == old(self).bytes() + BLOCK_SIZE ==> (self.overflow matches Some(b)
                    && b.window_reset()),
                old(self).store.can_make_block() ==> (self.store.can_make_block() || (
                self.overflow matches Some(b) && b.window_reset())),
                self.store.recycle@.len() + self.store.rest@.len() >= old(self).store.recycle@.len()
                    + old(self).store.rest@.len(),
                self.store.recycle@.len() + self.store.rest@.len() == old(self).store.recycle@.len()
                    + old(self).store.rest@.len() && old(self).overflow is Some ==> self.overflow
                    == old(self).overflow,
                self.store.free@.len() <= old(self).store.free@.len(),
                self.store.recycle@.len() + self.store.rest@.len() != old(self).store.recycle@.len()
                    + old(self).store.rest@.len() ==> self.store.free@.len() < old(self).store.free@.len() || self.bytes() == old(self).bytes() + BLOCK_SIZE,
                old(self).overflow is None && self.overflow is Some ==> self.store.free@.len()
                    < old(self).store.free@.len() || self.bytes() == old(self).bytes()
                    + BLOCK_SIZE,
                self.store.large@ == old(self).store.large@,
                self.store.next_base - old(self).store.next_base == self.bytes() - old(self).bytes(),
            decreases (if self.overflow matches Some(b) && b.window_reset() {
                0int
            } else {
                1int
            }),
        {
            let ghost top = *self;
            match self.overflow_alloc(layout) {
                Some(space) => {
                    return Ok(space);
                },
                None => {},
            }
            let ghost mid = *self;
            proof {
                assert(!(top.overflow matches Some(b) && b.window_reset()));
                assert(!(mid.overflow matches Some(b) && b.window_reset()));
                assert(mid.bytes() == old(self).bytes());
            }
            match self.get_new_overflow() {
                Ok(()) => {},
                Err(e) => {
                    proof {
                        assert(!mid.store.can_make_block());
                        assert(!old(self).store.can_make_block());
                    }
                    return Err(e);
                },
            }
        }
    }

    fn get_new_head(&mut self) -> (r: Result<(), AllocError>)
        requires
            old(self).wf(),
        ensures
            final(self).wf(),
            final(self).bytes() == old(self).bytes() || final(self).bytes() == old(self).bytes()
                + BLOCK_SIZE,
            final(self).store.next_base >= old(self).store.next_base,
            final(self).store.next_base == old(self).store.next_base ==> final(self).store.can_make_block() == old(self).store.can_make_block(),
            r matches Err(e) ==> {
                &&& e == AllocError::OOM
                &&& !old(self).store.can_make_block()
                &&& final(self).bytes() == old(self).bytes()
                &&& final(self).store.next_base == old(self).store.next_base
                &&& same_store(final(self).store, old(self).store)
                &&& final(self).head == old(self).head
                &&& final(self).overflow == old(self).overflow
            },
            r is Ok ==> final(self).head is Some,
            final(self).store.rest@.len() >= old(self).store.rest@.len(),
            old(self).head is Some && r is Ok ==> final(self).store.rest@.len() == old(self).store.rest@.len() + 1,
            final(self).store.large@ == old(self).store.large@,
            final(self).store.next_base - old(self).store.next_base == final(self).bytes() - old(self).bytes(),
            r matches Err(e) ==> final(self).store.block_count == old(self).store.block_count,
            final(self).bytes() == old(self).bytes() + BLOCK_SIZE ==> (final(self).head matches Some(b)
                && b.window_reset()),
            r is Ok && !(old(self).head matches Some(b) && b.window_reset())
                ==> small_refill_measure(*final(self)) < small_refill_measure(*old(self)),
            old(self).store.can_make_block() ==> r is Ok,
            old(self).store.can_make_block() ==> (final(self).store.can_make_block() || (final(self).head matches Some(b) && b.window_reset())),
    {
        let new_head = match self.overflow.take() {
            Some(block) => block,
            None => {
                match self.store.get_head() {
                    Ok(block) => block,
                    Err(e) => {
                        return Err(e);
                    },
                }
            },
        };
        let rest_block = self.head.take();
        self.head = Some(new_head);
        match rest_block {
            Some(block) => {
                self.store.rest(block);
            },
            None => {},
        }
        Ok(())
    }

    fn get_new_overflow(&mut self) -> (r: Result<(), AllocError>)
        requires
            old(self).wf(),
        ensures
            final(self).wf(),
            final(self).bytes() == old(self).bytes() || final(self).bytes() == old(self).bytes()
                + BLOCK_SIZE,
            final(self).store.next_base == old(self).store.next_base ==> final(self).store.can_make_block() == old(self).store.can_make_block(),
            r matches Err(e) ==> {
                &&& e == AllocError::OOM
                &&& !old(self).store.can_make_block()
                &&& final(self).bytes() == old(self).bytes()
                &&& same_store(final(self).store, old(self).store)
                &&& final(self).head == old(self).head
                &&& final(self).overflow == old(self).overflow
            },
            r is Ok ==> (final(self).overflow matches Some(b) && b.window_reset()),
            final(self).store.free@.len() <= old(self).store.free@.len(),
            r is Ok ==> final(self).store.free@.len() < old(self).store.free@.len() || final(self).bytes() == old(self).bytes() + BLOCK_SIZE,
            final(self).store.recycle@.len() + final(self).store.rest@.len() >= old(self).store.recycle@.len() + old(self).store.rest@.len(),
            old(self).overflow is Some && r is Ok ==> final(self).store.recycle@.len() + final(self).store.rest@.len() == old(self).store.recycle@.len() + old(self).store.rest@.len()
                + 1,
            final(self).store.large@ == old(self).store.large@,
            final(self).store.next_base - old(self).store.next_base == final(self).bytes() - old(self).bytes(),
            r matches Err(e) ==> final(self).store.block_count == old(self).store.block_count
                && final(self).store.next_base == old(self).store.next_base,
            final(self).bytes() == old(self).bytes() + BLOCK_SIZE ==> r is Ok,
            old(self).store.can_make_block() ==> r is Ok,
            old(self).store.can_make_block() ==> (final(self).store.can_make_block() || (final(self).overflow matches Some(b) && b.window_reset())),
    {
        let new_overflow = match self.store.get_overflow() {
            Ok(block) => block,
            Err(e) => {
                return Err(e);
            },
        };
        let recycle_block = self.overflow.take();
        self.overflow = Some(new_overflow);
        match recycle_block {
            Some(block) => {
                self.store.recycle(block);
            },
            None => {},
        }
        Ok(())
    }

    /// Every bump block this head can reach: its two windows and the
    /// store's pools.
    pub open spec fn bumps(self) -> Seq<BumpBlock> {
        opt_seq(self.head) + opt_seq(self.overflow) + self.store.pool_bumps()
    }

    pub open spec fn has_bump_base(self, base: usize) -> bool {
        bump_base_in(self.bumps(), base)
    }

    /// Mark the object of `size` bytes at address `base + offset`, where
    /// `base` is the block base recovered from the object's address: the
    /// covered lines and the block mark take generation `mark_value`, and
    /// every other block is untouched.
    #[verifier::rlimit(80)]
    pub fn mark_object(&mut self, ptr: usize, size: usize, size_class: SizeClass, mark_value: u8)
        requires
            old(self).wf(),
            mark_value != FREE_MARK,
            size >= 1,
            size_class != SizeClass::Large,
            ptr as int % (BLOCK_SIZE as int) + size <= BLOCK_CAPACITY,
            old(self).has_bump_base(((ptr - ptr as int % (BLOCK_SIZE as int)) as usize)),
        ensures
            final(self).wf(),
            final(self).bytes() == old(self).bytes(),
            final(self).store.large@ == old(self).store.large@,
            bump_mark_applied(
                *old(self),
                *final(self),
                ((ptr - ptr as int % (BLOCK_SIZE as int)) as usize),
                ptr as int % (BLOCK_SIZE as int),
                size as int,
                size_class,
                mark_value,
            ),
    {
        let offset = ptr % BLOCK_SIZE;
        let base = ptr - offset;
        let ghost first = crate::block_meta::mark_first(offset as int);
        let ghost last = crate::block_meta::mark_last(offset as int, size as int, size_class);
        match &mut self.head {
            Some(b) => {
                if b.block.base == base {
                    b.block.meta.mark(offset, size, size_class, mark_value);
                    proof {
                        assert(old(self).bumps()[0] == old(self).head->0);
                        assert(self.bumps()[0] == self.head->0);
                        assert(bump_marked_from(
                            self.bumps()[0],
                            old(self).bumps()[0],
                            first,
                            last,
                            mark_value,
                        ));
                        assert(forall|k: int|
                            0 < k < old(self).bumps().len() ==> self.bumps()[k] == old(self).bumps()[k]);
                    }
                    return ;
                }
            },
            None => {},
        }
        match &mut self.overflow {
            Some(b) => {
                if b.block.base == base {
                    b.block.meta.mark(offset, size, size_class, mark_value);
                    proof {
                        let j = opt_seq(old(self).head).len() as int;
                        assert(old(self).bumps()[j] == old(self).overflow->0);
                        assert(self.bumps()[j] == self.overflow->0);
                        assert(forall|k: int|
                            0 <= k < old(self).bumps().len() && k != j ==> self.bumps()[k] == old(self).bumps()[k]);
                    }
                    return ;
                }
            },
            None => {},
        }
        let found = self.store.mark_bump(base, offset, size, size_class, mark_value);
        proof {
            let w = opt_seq(old(self).head).len() as int + opt_seq(old(self).overflow).len() as int;
            if found {
                let j = choose|j: int|
                    0 <= j < old(self).store.pool_bumps().len() && (#[trigger] old(self).store.pool_bumps()[j]).block.base == base && bump_marked_from(
                        self.store.pool_bumps()[j],
                        old(self).store.pool_bumps()[j],
                        first,
                        last,
                        mark_value,
                    ) && (forall|k: int|
                        0 <= k < old(self).store.pool_bumps().len() && k != j
                            ==> self.store.pool_bumps()[k] == old(self).store.pool_bumps()[k]);
                assert(old(self).bumps()[j + w] == old(self).store.pool_bumps()[j]);
                assert(self.bumps()[j + w] == self.store.pool_bumps()[j]);
                assert(forall|k: int|
                    0 <= k < old(self).bumps().len() && k != j + w ==> self.bumps()[k] == old(self).bumps()[k]);
            } else {
                let i = choose|i: int|
                    0 <= i < old(self).bumps().len() && (#[trigger] old(self).bumps()[i]).block.base == base;
                if i < w {
                    assert(false);
                } else {
                    assert(old(self).bumps()[i] == old(self).store.pool_bumps()[i - w]);
                    assert(bump_base_in(old(self).store.pool_bumps(), base));
                    assert(false);
                }
            }
        }
    }

    fn head_alloc(&mut self, layout: Layout) -> (r: Option<usize>)
        requires
            old(self).wf(),
            layout.wf(),
            layout.size >= 1,
        ensures
            final(self).wf(),
            same_store(final(self).store, old(self).store),
            final(self).overflow == old(self).overflow,
            final(self).head is Some <==> old(self).head is Some,
            old(self).head is None ==> r is None,
            r matches Some(p) ==> bump_result(p as int, layout),
            r matches Some(p) ==> (final(self).head matches Some(h) && p == h.block.base + h.cursor
                && h.cursor as int % (layout.align as int) == 0 && h.cursor + layout.size
                <= BLOCK_CAPACITY),
            r is Some && old(self).head is Some ==> (final(self).head matches Some(h)
                && h.block.base == old(self).head->0.block.base && h.cursor + layout.size <= old(self).head->0.cursor),
            (old(self).head matches Some(b) && b.window_reset() && layout.size <= BLOCK_CAPACITY)
                ==> r is Some,
            r is None && (final(self).head matches Some(b) && b.window_reset()) ==> (old(self).head matches Some(b0) && b0.window_reset()),
    {
        match &mut self.head {
            Some(head) => {
                let result = head.inner_alloc(layout);
                proof {
                    match result {
                        Some(p) => {
                            assert(bump_at(
                                p as int,
                                layout,
                                head.block.base as int,
                                head.cursor as int,
                            ));
                        },
                        None => (),
                    }
                }
                result
            },
            None => None,
        }
    }

    fn overflow_alloc(&mut self, layout: Layout) -> (r: Option<usize>)
        requires
            old(self).wf(),
            layout.wf(),
            layout.size >= 1,
        ensures
            final(self).wf(),
            same_store(final(self).store, old(self).store),
            final(self).head == old(self).head,
            final(self).overflow is Some <==> old(self).overflow is Some,
            old(self).overflow is None ==> r is None,
            r matches Some(p) ==> bump_result(p as int, layout),
            r matches Some(p) ==> (final(self).overflow matches Some(h) && p == h.block.base
                + h.cursor && h.cursor as int % (layout.align as int) == 0 && h.cursor
                + layout.size <= BLOCK_CAPACITY),
            r is Some && old(self).overflow is Some ==> (final(self).overflow matches Some(h)
                && h.block.base == old(self).overflow->0.block.base && h.cursor + layout.size
                <= old(self).overflow->0.cursor),
            (old(self).overflow matches Some(b) && b.window_reset() && layout.size
                <= BLOCK_CAPACITY) ==> r is Some,
            r is None && (final(self).overflow matches Some(b) && b.window_reset()) ==> (old(self).overflow matches Some(b0) && b0.window_reset()),
    {
        match &mut self.overflow {
            Some(overflow) => {
                let result = overflow.inner_alloc(layout);
                proof {
                    match result {
                        Some(p) => {
                            assert(bump_at(
                                p as int,
                                layout,
                                overflow.block.base as int,
                                overflow.cursor as int,
                            ));
                        },
                        None => (),
                    }
                }
                result
            },
            None => None,
        }
    }
}

} // verus!
