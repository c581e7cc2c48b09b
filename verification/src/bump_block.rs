//! A bump window: ownership of one block plus the two cursors of its
//! current hole.  Allocation bumps `cursor` downward toward `limit`; when
//! the hole is exhausted the window moves to the next hole further down.

use vstd::prelude::*;

use crate::block::{block_base_wf, Block};
use crate::block_meta::{hole_result, lines_free, no_hole};
use crate::constants::{BLOCK_CAPACITY, BLOCK_SIZE, FREE_MARK, LINE_COUNT, SMALL_OBJECT_MIN};
use crate::layout::Layout;

verus! {

/// The aligned spot a fitting bump lands on: the old cursor moved down by
/// the request and rounded down to the alignment.
pub open spec fn bump_spot(cursor: int, size: int, align: int) -> int {
    ((cursor - size) / align) * align
}

pub struct BumpBlock {
    /// Next free byte of the current hole, exclusive, counting down.
    pub cursor: usize,
    /// Floor of the current hole.
    pub limit: usize,
    pub block: Block,
}

impl BumpBlock {
    pub open spec fn wf(self) -> bool {
        &&& self.block.wf()
        &&& self.limit <= self.cursor <= BLOCK_CAPACITY
    }

    /// The window spans the whole payload: nothing was carved out of this
    /// block since it was (re)set.
    pub open spec fn window_reset(self) -> bool {
        self.cursor == BLOCK_CAPACITY && self.limit == 0
    }

    /// Fresh block: full window, no marks.
    pub open spec fn is_reset(self) -> bool {
        &&& self.window_reset()
        &&& self.block.meta.block_mark == FREE_MARK
        &&& lines_free(self.block.meta.lines@, 0, LINE_COUNT as int)
    }

    pub open spec fn hole_size(self) -> int {
        self.cursor - self.limit
    }

    pub open spec fn marked(self, mark_value: u8) -> bool {
        self.block.meta.block_mark == mark_value
    }

    /// Take ownership of the block span at `base` as one whole hole.
    pub fn new(base: usize) -> (r: BumpBlock)
        requires
            block_base_wf(base),
        ensures
            r.wf(),
            r.is_reset(),
            r.block.base == base,
    {
        BumpBlock { cursor: BLOCK_CAPACITY, limit: 0, block: Block::new(base) }
    }

    pub fn current_hole_size(&self) -> (r: usize)
        requires
            self.wf(),
        ensures
            r == self.hole_size(),
    {
        self.cursor - self.limit
    }

    pub fn is_marked(&self, mark_value: u8) -> (r: bool)
        ensures
            r == self.marked(mark_value),
    {
        self.block.get_mark() == mark_value
    }

    /// Bump-allocate `layout.size` bytes, aligned to `layout.align` in the
    /// block's own coordinates, out of the current hole — or out of the
    /// next hole further down that fits.  On success the returned address
    /// is `base + cursor` for the new cursor, and the claimed bytes sit
    /// entirely below every earlier allocation from this window.  When the
    /// request fits in the current hole, the new cursor is exactly the
    /// aligned spot just below the old one; a cursor underflow returns
    /// `None` outright, and otherwise `None` means no hole below the
    /// window's floor qualifies.
    pub fn inner_alloc(&mut self, layout: Layout) -> (r: Option<usize>)
        requires
            old(self).wf(),
            layout.wf(),
            layout.size >= 1,
        ensures
            final(self).wf(),
            final(self).block.base == old(self).block.base,
            final(self).block.meta.lines@ == old(self).block.meta.lines@,
            final(self).block.meta.block_mark == old(self).block.meta.block_mark,
            final(self).cursor <= old(self).cursor,
            r matches Some(p) ==> {
                &&& p == old(self).block.base + final(self).cursor
                &&& final(self).cursor as int % (layout.align as int) == 0
                &&& final(self).cursor + layout.size <= old(self).cursor
            },
            old(self).cursor >= layout.size && old(self).limit <= bump_spot(
                old(self).cursor as int,
                layout.size as int,
                layout.align as int,
            ) ==> {
                &&& r is Some
                &&& final(self).cursor == bump_spot(
                    old(self).cursor as int,
                    layout.size as int,
                    layout.align as int,
                )
                &&& final(self).limit == old(self).limit
            },
            r is None ==> final(self).cursor < layout.size || no_hole(
                final(self).block.meta.lines@,
                final(self).limit as int,
                layout.size as int,
            ),
            old(self).window_reset() && layout.size <= BLOCK_CAPACITY ==> r is Some,
            r is None && final(self).window_reset() ==> old(self).window_reset(),
    {
        let size = layout.size;
        let align = layout.align;
        proof {
            assert(align >= 1);
        }
        loop
            invariant
                self.wf(),
                layout.wf(),
                size == layout.size,
                align == layout.align,
                size >= 1,
                align >= 1,
                self.block.base == old(self).block.base,
                self.block.meta.lines@ == old(self).block.meta.lines@,
                self.block.meta.block_mark == old(self).block.meta.block_mark,
                self.cursor <= old(self).cursor,
                self.window_reset() ==> old(self).window_reset(),
                old(self).window_reset() && size <= BLOCK_CAPACITY ==> (self.cursor
                    == BLOCK_CAPACITY && self.limit == 0),
                old(self).cursor >= size && old(self).limit <= bump_spot(
                    old(self).cursor as int,
                    size as int,
                    align as int,
                ) ==> (self.cursor == old(self).cursor && self.limit == old(self).limit),
            decreases self.limit,
        {
            if self.cursor < size {
                return None;
            }
            let start = self.cursor - size;
            let q = start / align;
            proof {
                vstd::arithmetic::div_mod::lemma_fundamental_div_mod(start as int, align as int);
                vstd::arithmetic::div_mod::lemma_mod_bound(start as int, align as int);
                assert((q as int) * (align as int) <= start as int) by (nonlinear_arith)
                    requires
                        start as int == (align as int) * (q as int) + (start as int % (
                        align as int)),
                        start as int % (align as int) >= 0,
                ;
                vstd::arithmetic::div_mod::lemma_mod_multiples_basic(q as int, align as int);
            }
            let next = q * align;
            if self.limit <= next {
                self.cursor = next;
                let p = self.block.get_data_ptr(next);
                return Some(p);
            }
            match self.block.find_next_available_hole(self.limit, size) {
                Some((cursor, limit)) => {
                    proof {
                        // A hole cursor is a whole-line offset, and the
                        // payload capacity is not, so adopting a hole never
                        // reopens the full window.
                        vstd::arithmetic::div_mod::lemma_mod_multiples_basic(
                            cursor as int / (crate::constants::LINE_SIZE as int),
                            crate::constants::LINE_SIZE as int,
                        );
                        assert(cursor != BLOCK_CAPACITY);
                    }
                    self.cursor = cursor;
                    self.limit = limit;
                },
                None => {
                    return None;
                },
            }
        }
    }

    /// Sweep this block: clear stale marks, then either reopen the whole
    /// window (block no longer referenced), adopt the topmost usable hole,
    /// or close the window when no hole is left.
    pub fn reset_hole(&mut self, mark_value: u8)
        requires
            old(self).wf(),
            mark_value != FREE_MARK,
        ensures
            final(self).wf(),
            final(self).block.base == old(self).block.base,
            final(self).block.meta.block_mark == (if old(self).block.meta.block_mark == mark_value {
                mark_value
            } else {
                FREE_MARK
            }),
            forall|i: int|
                0 <= i < LINE_COUNT ==> final(self).block.meta.lines@[i] == (if old(self).block.meta.lines@[i] == mark_value {
                    mark_value
                } else {
                    FREE_MARK
                }),
            old(self).block.meta.block_mark != mark_value ==> final(self).window_reset(),
            old(self).block.meta.block_mark == mark_value ==> {
                ||| hole_result(
                    final(self).block.meta.lines@,
                    BLOCK_CAPACITY as int,
                    SMALL_OBJECT_MIN as int,
                    final(self).cursor as int,
                    final(self).limit as int,
                )
                ||| (final(self).cursor == 0 && final(self).limit == 0 && no_hole(
                    final(self).block.meta.lines@,
                    BLOCK_CAPACITY as int,
                    SMALL_OBJECT_MIN as int,
                ))
            },
    {
        self.block.free_unmarked(mark_value);
        if self.block.get_mark() != mark_value {
            self.cursor = BLOCK_CAPACITY;
            self.limit = 0;
            return ;
        }
        match self.block.find_next_available_hole(BLOCK_CAPACITY, SMALL_OBJECT_MIN) {
            Some((cursor, limit)) => {
                self.cursor = cursor;
                self.limit = limit;
            },
            None => {
                self.cursor = 0;
                self.limit = 0;
            },
        }
    }
}

/// Distinctness within one window: with the cursor bumping strictly
/// downward, the bytes handed out by a later allocation sit entirely below
/// the bytes of an earlier one, so the two ranges cannot overlap.  The
/// hypotheses are exactly what two chained allocation contracts give —
/// `inner_alloc`'s directly, and the allocator front's serving clauses
/// whenever the pools kept their shape between the calls: each result is
/// `base + cursor` for the window cursor after its call, and each call's
/// new cursor plus its size stays at or under the cursor before it.
pub proof fn lemma_same_window_allocs_disjoint(
    base: int,
    c1: int,
    s1: int,
    c2: int,
    s2: int,
    p1: int,
    p2: int,
)
    requires
        p1 == base + c1,
        p2 == base + c2,
        c2 + s2 <= c1,
        s1 >= 1,
        s2 >= 1,
    ensures
        p2 + s2 <= p1,
{
}

/// Distinctness across blocks: allocations contained in the payload of two
/// blocks with distinct aligned bases occupy disjoint address ranges.
pub proof fn lemma_distinct_blocks_disjoint(
    base1: int,
    p1: int,
    s1: int,
    base2: int,
    p2: int,
    s2: int,
)
    requires
        base1 % (BLOCK_SIZE as int) == 0,
        base2 % (BLOCK_SIZE as int) == 0,
        base1 != base2,
        base1 <= p1 && p1 + s1 <= base1 + BLOCK_CAPACITY,
        base2 <= p2 && p2 + s2 <= base2 + BLOCK_CAPACITY,
    ensures
        p1 + s1 <= p2 || p2 + s2 <= p1,
{
    let bs = BLOCK_SIZE as int;
    if base1 < base2 {
        lemma_aligned_gap(base1, base2);
        assert(p1 + s1 <= base1 + BLOCK_CAPACITY < base1 + bs <= base2 <= p2);
    } else {
        lemma_aligned_gap(base2, base1);
        assert(p2 + s2 <= base2 + BLOCK_CAPACITY < base2 + bs <= base1 <= p1);
    }
}

proof fn lemma_aligned_gap(lo: int, hi: int)
    requires
        lo % (BLOCK_SIZE as int) == 0,
        hi % (BLOCK_SIZE as int) == 0,
        lo < hi,
    ensures
        lo + BLOCK_SIZE <= hi,
{
    let bs = BLOCK_SIZE as int;
    let d = hi - lo;
    assert(d % bs == 0) by {
        vstd::arithmetic::div_mod::lemma_sub_mod_noop(hi, lo, bs);
        vstd::arithmetic::div_mod::lemma_small_mod(0nat, bs as nat);
    }
    assert(d >= bs) by {
        vstd::arithmetic::div_mod::lemma_fundamental_div_mod(d, bs);
        let q = d / bs;
        assert(d == bs * q);
        assert(q >= 1) by {
            vstd::arithmetic::div_mod::lemma_div_pos_is_pos(d, bs);
            if q == 0 {
                assert(d == 0);
            }
        }
        assert(bs * q >= bs * 1) by (nonlinear_arith)
            requires
                q >= 1,
                bs > 0,
        ;
    }
}

} // verus!
