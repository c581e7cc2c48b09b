//! The shared block store: the free / recycle / rest pools of bump blocks,
//! the pool of large blocks, the block count, and the sweep that turns a
//! mark generation into fresh classification.

use vstd::multiset::Multiset;
use vstd::prelude::*;

use crate::atomic_stack::AtomicStack;
use crate::bump_block::BumpBlock;
use crate::constants::{
    BLOCK_CAPACITY, BLOCK_SIZE, FREE_MARK, LARGE_OBJECT_MIN, LINE_COUNT, MAX_ALLOC_SIZE,
    MAX_FREE_BLOCKS, RECYCLE_HOLE_MIN,
};
use crate::error::AllocError;
use crate::large_block::{padded_size, padded_size_fits, LargeBlock};
use crate::layout::Layout;
use crate::size_class::SizeClass;

verus! {

/// Total backing bytes of a sequence of large blocks.
pub open spec fn sum_large(s: Seq<LargeBlock>) -> int
    decreases s.len(),
{
    if s.len() == 0 {
        0
    } else {
        sum_large(s.drop_last()) + s.last().size
    }
}

pub open spec fn all_wf_bumps(s: Seq<BumpBlock>) -> bool {
    forall|i: int| 0 <= i < s.len() ==> (#[trigger] s[i]).wf()
}

pub open spec fn all_reset_windows(s: Seq<BumpBlock>) -> bool {
    forall|i: int| 0 <= i < s.len() ==> (#[trigger] s[i]).window_reset()
}

pub open spec fn all_wf_larges(s: Seq<LargeBlock>) -> bool {
    forall|i: int| 0 <= i < s.len() ==> (#[trigger] s[i]).wf()
}

/// Every line of the block is either the current generation or FREE.
pub open spec fn lines_clean(b: BumpBlock, mark_value: u8) -> bool {
    forall|i: int|
        0 <= i < LINE_COUNT ==> (#[trigger] b.block.meta.lines@[i]) == mark_value
            || b.block.meta.lines@[i] == FREE_MARK
}

pub open spec fn all_bumps_marked(s: Seq<BumpBlock>, mark_value: u8) -> bool {
    forall|i: int| 0 <= i < s.len() ==> (#[trigger] s[i]).marked(mark_value)
}

pub open spec fn all_bumps_swept(s: Seq<BumpBlock>, mark_value: u8) -> bool {
    forall|i: int|
        0 <= i < s.len() ==> (#[trigger] s[i]).marked(mark_value) && lines_clean(s[i], mark_value)
}

pub open spec fn all_larges_marked(s: Seq<LargeBlock>, mark_value: u8) -> bool {
    forall|i: int| 0 <= i < s.len() ==> (#[trigger] s[i]).mark == mark_value
}

pub proof fn lemma_sum_large_nonneg(s: Seq<LargeBlock>)
    ensures
        sum_large(s) >= 0,
    decreases s.len(),
{
    if s.len() > 0 {
        lemma_sum_large_nonneg(s.drop_last());
    }
}

pub proof fn lemma_sum_large_concat(a: Seq<LargeBlock>, b: Seq<LargeBlock>)
    ensures
        sum_large(a + b) == sum_large(a) + sum_large(b),
    decreases b.len(),
{
    if b.len() == 0 {
        assert(a + b =~= a);
    } else {
        assert((a + b).drop_last() =~= a + b.drop_last());
        assert((a + b).last() == b.last());
        lemma_sum_large_concat(a, b.drop_last());
    }
}

pub proof fn lemma_sum_large_reverse(s: Seq<LargeBlock>)
    ensures
        sum_large(s.reverse()) == sum_large(s),
    decreases s.len(),
{
    if s.len() > 0 {
        assert(s.reverse() =~= seq![s.last()] + s.drop_last().reverse());
        lemma_sum_large_concat(seq![s.last()], s.drop_last().reverse());
        lemma_sum_large_reverse(s.drop_last());
        assert(sum_large(seq![s.last()]) == s.last().size) by {
            let one = seq![s.last()];
            assert(one.len() == 1 && one.last() == s.last());
            assert(one.drop_last() =~= Seq::<LargeBlock>::empty());
            assert(sum_large(Seq::<LargeBlock>::empty()) == 0);
            assert(sum_large(one) == sum_large(one.drop_last()) + one.last().size);
        }
    }
}

/// Filtering keeps, per element value, either every occurrence or none.
pub proof fn lemma_filter_multiset_count(
    s: Seq<LargeBlock>,
    pred: spec_fn(LargeBlock) -> bool,
    x: LargeBlock,
)
    ensures
        s.filter(pred).to_multiset().count(x) == (if pred(x) {
            s.to_multiset().count(x)
        } else {
            0
        }),
    decreases s.len(),
{
    broadcast use vstd::seq_lib::group_to_multiset_ensures;

    reveal(Seq::filter);
    if s.len() == 0 {
        assert(s.to_multiset() =~= Multiset::<LargeBlock>::empty());
        assert(s.filter(pred).to_multiset() =~= Multiset::<LargeBlock>::empty());
    } else {
        let t = s.drop_last();
        lemma_filter_multiset_count(t, pred, x);
        assert(t.push(s.last()) =~= s);
        assert(t.push(s.last()).to_multiset() =~= t.to_multiset().insert(s.last()));
        if pred(s.last()) {
            assert(s.filter(pred) == t.filter(pred).push(s.last()));
            assert(t.filter(pred).push(s.last()).to_multiset() =~= t.filter(
                pred,
            ).to_multiset().insert(s.last()));
        }
    }
}

/// The two stores hold the same pools, counters and loan tally.
pub open spec fn same_store(a: BlockStore, b: BlockStore) -> bool {
    &&& a.free@ == b.free@
    &&& a.recycle@ == b.recycle@
    &&& a.rest@ == b.rest@
    &&& a.large@ == b.large@
    &&& a.block_count == b.block_count
    &&& a.next_base == b.next_base
    &&& a.loaned@ == b.loaned@
}

pub struct BlockStore {
    pub block_count: usize,
    pub next_base: usize,
    pub free: AtomicStack<BumpBlock>,
    pub recycle: AtomicStack<BumpBlock>,
    pub rest: AtomicStack<BumpBlock>,
    pub large: AtomicStack<LargeBlock>,
    /// Number of bump blocks currently loaned out to allocator windows.
    pub loaned: Ghost<int>,
}

impl BlockStore {
    /// Bytes owned through the store: every bump block in existence, pooled
    /// or loaned out, plus the backing spans of the large blocks.
    pub open spec fn bytes(self) -> int {
        self.block_count * BLOCK_SIZE + sum_large(self.large@)
    }

    pub open spec fn can_make_block(self) -> bool {
        self.next_base + BLOCK_SIZE <= usize::MAX
    }

    pub open spec fn wf(self) -> bool {
        &&& all_wf_bumps(self.free@)
        &&& all_reset_windows(self.free@)
        &&& all_wf_bumps(self.recycle@)
        &&& all_wf_bumps(self.rest@)
        &&& all_wf_larges(self.large@)
        &&& self.loaned@ >= 0
        &&& self.block_count == self.free@.len() + self.recycle@.len() + self.rest@.len()
            + self.loaned@
        &&& self.next_base >= BLOCK_SIZE
        &&& self.next_base as int % (BLOCK_SIZE as int) == 0
        &&& self.bytes() <= self.next_base
    }

    /// The store looks freshly swept for generation `mark_value`: every
    /// pooled bump block outside the free pool carries the generation mark
    /// with no stale line marks, and so does every large block.
    pub open spec fn swept(self, mark_value: u8) -> bool {
        &&& all_bumps_swept(self.recycle@, mark_value)
        &&& all_bumps_swept(self.rest@, mark_value)
        &&& all_larges_marked(self.large@, mark_value)
    }

    pub fn new() -> (r: BlockStore)
        ensures
            r.wf(),
            r.block_count == 0,
            r.next_base == BLOCK_SIZE,
            r.loaned@ == 0,
            r.free@.len() == 0,
            r.recycle@.len() == 0,
            r.rest@.len() == 0,
            r.large@.len() == 0,
            r.bytes() == 0,
    {
        BlockStore {
            block_count: 0,
            next_base: BLOCK_SIZE,
            free: AtomicStack::new(),
            recycle: AtomicStack::new(),
            rest: AtomicStack::new(),
            large: AtomicStack::new(),
            loaned: Ghost(0int),
        }
    }

    /// Total bytes owned: blocks in existence times the block size, plus
    /// the large blocks' backing spans.
    pub fn get_size(&self) -> (r: usize)
        requires
            self.wf(),
        ensures
            r == self.bytes(),
    {
        proof {
            lemma_sum_large_nonneg(self.large@);
        }
        let block_space = self.block_count * BLOCK_SIZE;
        let large_space = self.count_large_space();
        block_space + large_space
    }

    /// Sum of the large blocks' backing spans.
    pub fn count_large_space(&self) -> (r: usize)
        requires
            self.wf(),
        ensures
            r == sum_large(self.large@),
    {
        let mut total: usize = 0;
        let mut i: usize = 0;
        proof {
            assert(self.large@.subrange(0, 0) =~= Seq::<LargeBlock>::empty());
        }
        while i < self.large.items.len()
            invariant
                self.wf(),
                i <= self.large@.len(),
                total == sum_large(self.large@.subrange(0, i as int)),
            decreases self.large@.len() - i,
        {
            proof {
                lemma_sum_large_prefix_bound(self.large@, i + 1);
                lemma_sum_large_nonneg(self.large@.subrange(0, i as int));
                assert(self.large@.subrange(0, i + 1).drop_last() =~= self.large@.subrange(
                    0,
                    i as int,
                ));
                assert(self.large@.subrange(0, i + 1).last() == self.large@[i as int]);
                assert(self.bytes() <= usize::MAX);
                assert(self.block_count * BLOCK_SIZE >= 0) by (nonlinear_arith);
            }
            total = total + self.large.items[i].get_size();
            i = i + 1;
        }
        proof {
            assert(self.large@.subrange(0, self.large@.len() as int) =~= self.large@);
        }
        total
    }

    /// Give a block back to the rest pool.
    pub fn rest(&mut self, block: BumpBlock)
        requires
            old(self).wf(),
            block.wf(),
            old(self).loaned@ >= 1,
        ensures
            final(self).wf(),
            final(self).rest@ == old(self).rest@.push(block),
            final(self).free@ == old(self).free@,
            final(self).recycle@ == old(self).recycle@,
            final(self).large@ == old(self).large@,
            final(self).block_count == old(self).block_count,
            final(self).next_base == old(self).next_base,
            final(self).loaned@ == old(self).loaned@ - 1,
            final(self).bytes() == old(self).bytes(),
    {
        self.rest.push(block);
        proof {
            self.loaned = Ghost(self.loaned@ - 1);
        }
    }

    /// Give a block back, classified by its hole: a block with a usable
    /// hole goes to the recycle pool, the rest pool takes the fragments.
    pub fn recycle(&mut self, block: BumpBlock)
        requires
            old(self).wf(),
            block.wf(),
            old(self).loaned@ >= 1,
        ensures
            final(self).wf(),
            block.hole_size() >= RECYCLE_HOLE_MIN ==> final(self).recycle@ == old(self).recycle@.push(block) && final(self).rest@ == old(self).rest@,
            block.hole_size() < RECYCLE_HOLE_MIN ==> final(self).rest@ == old(self).rest@.push(
                block,
            ) && final(self).recycle@ == old(self).recycle@,
            final(self).free@ == old(self).free@,
            final(self).large@ == old(self).large@,
            final(self).block_count == old(self).block_count,
            final(self).next_base == old(self).next_base,
            final(self).loaned@ == old(self).loaned@ - 1,
            final(self).bytes() == old(self).bytes(),
    {
        if block.current_hole_size() >= RECYCLE_HOLE_MIN {
            self.recycle.push(block);
            proof {
                self.loaned = Ghost(self.loaned@ - 1);
            }
        } else {
            self.rest(block);
        }
    }

    /// A window for small requests: a recycled block when one is there,
    /// otherwise an empty one.
    pub fn get_head(&mut self) -> (r: Result<BumpBlock, AllocError>)
        requires
            old(self).wf(),
        ensures
            final(self).wf(),
            r matches Err(e) ==> {
                &&& e == AllocError::OOM
                &&& same_store(*final(self), *old(self))
                &&& !old(self).can_make_block()
            },
            r is Ok <==> old(self).recycle@.len() > 0 || old(self).free@.len() > 0 || old(self).can_make_block(),
            r matches Ok(b) ==> {
                &&& b.wf()
                &&& final(self).loaned@ == old(self).loaned@ + 1
                &&& final(self).rest@ == old(self).rest@
                &&& final(self).large@ == old(self).large@
                &&& final(self).bytes() == old(self).bytes() || final(self).bytes() == old(self).bytes() + BLOCK_SIZE
                &&& final(self).next_base - old(self).next_base == final(self).bytes() - old(self).bytes()
                &&& final(self).next_base >= old(self).next_base
                &&& if old(self).recycle@.len() > 0 {
                    &&& b == old(self).recycle@.last()
                    &&& final(self).recycle@ == old(self).recycle@.drop_last()
                    &&& final(self).free@ == old(self).free@
                    &&& final(self).block_count == old(self).block_count
                    &&& final(self).next_base == old(self).next_base
                } else {
                    &&& b.window_reset()
                    &&& final(self).recycle@ == old(self).recycle@
                }
            },
    {
        match self.recycle.pop() {
            Some(recycle_block) => {
                proof {
                    self.loaned = Ghost(self.loaned@ + 1);
                }
                Ok(recycle_block)
            },
            None => self.get_overflow(),
        }
    }

    /// A window for medium requests: an empty block, from the free pool or
    /// newly created.
    pub fn get_overflow(&mut self) -> (r: Result<BumpBlock, AllocError>)
        requires
            old(self).wf(),
        ensures
            final(self).wf(),
            r matches Err(e) ==> {
                &&& e == AllocError::OOM
                &&& same_store(*final(self), *old(self))
                &&& !old(self).can_make_block()
            },
            r is Ok <==> old(self).free@.len() > 0 || old(self).can_make_block(),
            r matches Ok(b) ==> {
                &&& b.wf()
                &&& b.window_reset()
                &&& final(self).loaned@ == old(self).loaned@ + 1
                &&& final(self).recycle@ == old(self).recycle@
                &&& final(self).rest@ == old(self).rest@
                &&& final(self).large@ == old(self).large@
                &&& final(self).bytes() == old(self).bytes() || final(self).bytes() == old(self).bytes() + BLOCK_SIZE
                &&& final(self).next_base - old(self).next_base == final(self).bytes() - old(self).bytes()
                &&& final(self).next_base >= old(self).next_base
                &&& if old(self).free@.len() > 0 {
                    &&& b == old(self).free@.last()
                    &&& final(self).free@ == old(self).free@.drop_last()
                    &&& final(self).block_count == old(self).block_count
                    &&& final(self).next_base == old(self).next_base
                } else {
                    &&& b.is_reset()
                    &&& b.block.base == old(self).next_base
                    &&& final(self).free@ == old(self).free@
                    &&& final(self).block_count == old(self).block_count + 1
                    &&& final(self).next_base == old(self).next_base + BLOCK_SIZE
                }
            },
    {
        match self.free.pop() {
            Some(free_block) => {
                proof {
                    self.loaned = Ghost(self.loaned@ + 1);
                }
                Ok(free_block)
            },
            None => self.new_block(),
        }
    }

    pub fn block_count(&self) -> (r: usize)
        ensures
            r == self.block_count,
    {
        self.block_count
    }

    /// Allocate a standalone block for a large object; the object's
    /// address is the block's base.
    pub fn create_large(&mut self, layout: Layout) -> (r: Result<usize, AllocError>)
        requires
            old(self).wf(),
            layout.wf(),
            layout.size >= LARGE_OBJECT_MIN,
            layout.size <= MAX_ALLOC_SIZE,
            layout.align <= BLOCK_SIZE,
        ensures
            final(self).wf(),
            r matches Err(e) ==> {
                &&& same_store(*final(self), *old(self))
                &&& (e == AllocError::LayoutError <==> !padded_size_fits(layout))
                &&& (e == AllocError::OOM || e == AllocError::LayoutError)
            },
            r is Ok <==> old(self).room_for_large(layout),
            r matches Ok(p) ==> {
                &&& p == old(self).next_base
                &&& p >= BLOCK_SIZE
                &&& p as int % (BLOCK_SIZE as int) == 0
                &&& final(self).large@.len() == old(self).large@.len() + 1
                &&& final(self).large@.drop_last() == old(self).large@
                &&& final(self).large@.last().base == p
                &&& final(self).large@.last().size == padded_size(layout)
                &&& final(self).large@.last().mark == FREE_MARK
                &&& final(self).bytes() == old(self).bytes() + padded_size(layout)
                &&& final(self).next_base >= old(self).next_base + padded_size(layout)
                &&& final(self).free@ == old(self).free@
                &&& final(self).recycle@ == old(self).recycle@
                &&& final(self).rest@ == old(self).rest@
                &&& final(self).block_count == old(self).block_count
                &&& final(self).loaned@ == old(self).loaned@
            },
    {
        let lb = match LargeBlock::new(layout, self.next_base) {
            Ok(lb) => lb,
            Err(e) => {
                return Err(e);
            },
        };
        // Advance the base horizon by the block span rounded up to whole
        // block-size units, so every base stays aligned.
        let whole = lb.get_size() / BLOCK_SIZE;
        let rem = lb.get_size() % BLOCK_SIZE;
        let spans = if rem == 0 {
            whole
        } else {
            if whole >= usize::MAX / BLOCK_SIZE {
                return Err(AllocError::OOM);
            }
            whole + 1
        };
        proof {
            let sz = lb.size as int;
            let bs = BLOCK_SIZE as int;
            vstd::arithmetic::div_mod::lemma_fundamental_div_mod(sz, bs);
            vstd::arithmetic::div_mod::lemma_mod_bound(sz, bs);
            vstd::arithmetic::div_mod::lemma_div_pos_is_pos(sz, bs);
            assert(spans as int * bs >= sz && spans as int * bs <= sz + bs - 1 && (spans as int * bs)
                % bs == 0) by (nonlinear_arith)
                requires
                    sz == bs * (whole as int) + (sz as int % bs),
                    0 <= sz % bs < bs,
                    whole >= 0,
                    spans as int == if sz % bs == 0 {
                        whole as int
                    } else {
                        whole as int + 1
                    },
            ;
        }
        let footprint = spans * BLOCK_SIZE;
        if self.next_base > usize::MAX - footprint {
            return Err(AllocError::OOM);
        }
        let p = lb.as_ptr();
        proof {
            lemma_sum_large_nonneg(self.large@);
        }
        self.next_base = self.next_base + footprint;
        self.large.push(lb);
        proof {
            assert(self.large@.drop_last() =~= old(self).large@);
            assert(sum_large(self.large@) == sum_large(old(self).large@) + lb.size);
            crate::layout::lemma_mod_sum_zero(
                old(self).next_base as int,
                footprint as int,
                BLOCK_SIZE as int,
            );
        }
        Ok(p)
    }

    /// Address space is left for the whole span of this large request.
    pub open spec fn room_for_large(self, layout: Layout) -> bool {
        &&& padded_size_fits(layout)
        &&& self.next_base + large_footprint(layout) <= usize::MAX
    }

    fn new_block(&mut self) -> (r: Result<BumpBlock, AllocError>)
        requires
            old(self).wf(),
        ensures
            final(self).wf(),
            r matches Err(e) ==> {
                &&& e == AllocError::OOM
                &&& same_store(*final(self), *old(self))
                &&& !old(self).can_make_block()
            },
            r is Ok <==> old(self).can_make_block(),
            r matches Ok(b) ==> {
                &&& b.wf()
                &&& b.is_reset()
                &&& b.block.base == old(self).next_base
                &&& final(self).block_count == old(self).block_count + 1
                &&& final(self).next_base == old(self).next_base + BLOCK_SIZE
                &&& final(self).loaned@ == old(self).loaned@ + 1
                &&& final(self).free@ == old(self).free@
                &&& final(self).recycle@ == old(self).recycle@
                &&& final(self).rest@ == old(self).rest@
                &&& final(self).large@ == old(self).large@
                &&& final(self).bytes() == old(self).bytes() + BLOCK_SIZE
            },
    {
        if self.next_base > usize::MAX - BLOCK_SIZE {
            return Err(AllocError::OOM);
        }
        let base = self.next_base;
        proof {
            lemma_sum_large_nonneg(self.large@);
            assert((self.block_count + 1) * BLOCK_SIZE == self.block_count * BLOCK_SIZE
                + BLOCK_SIZE) by (nonlinear_arith);
        }
        self.next_base = self.next_base + BLOCK_SIZE;
        self.block_count = self.block_count + 1;
        proof {
            self.loaned = Ghost(self.loaned@ + 1);
            crate::layout::lemma_mod_sum_zero(
                old(self).next_base as int,
                BLOCK_SIZE as int,
                BLOCK_SIZE as int,
            );
        }
        Ok(BumpBlock::new(base))
    }
}

/// The large blocks that survive a sweep of generation `mark_value`.
pub open spec fn large_marked(mark_value: u8) -> spec_fn(LargeBlock) -> bool {
    |lb: LargeBlock| lb.mark == mark_value
}

/// `b2` is what a sweep of generation `mark_value` leaves of the surviving
/// block `b1`: the same block, referenced before and still referenced, with
/// every stale line mark cleared and every current one kept.
pub open spec fn swept_from(b2: BumpBlock, b1: BumpBlock, mark_value: u8) -> bool {
    &&& b2.block.base == b1.block.base
    &&& b1.marked(mark_value)
    &&& b2.marked(mark_value)
    &&& forall|i: int|
        0 <= i < LINE_COUNT ==> b2.block.meta.lines@[i] == (if b1.block.meta.lines@[i]
            == mark_value {
            mark_value
        } else {
            FREE_MARK
        })
}

/// Every block of `post` is the swept survivor of some block of `pre`.
pub open spec fn all_swept_from(post: Seq<BumpBlock>, pre: Seq<BumpBlock>, mark_value: u8) -> bool {
    forall|j: int|
        0 <= j < post.len() ==> exists|i: int|
            0 <= i < pre.len() && swept_from(#[trigger] post[j], pre[i], mark_value)
}

/// How many blocks of `s` carry the generation mark.
pub open spec fn marked_count(s: Seq<BumpBlock>, mark_value: u8) -> int
    decreases s.len(),
{
    if s.len() == 0 {
        0
    } else {
        marked_count(s.drop_last(), mark_value) + (if s.last().marked(mark_value) {
            1int
        } else {
            0int
        })
    }
}

pub proof fn lemma_marked_count_bounds(s: Seq<BumpBlock>, mark_value: u8)
    ensures
        0 <= marked_count(s, mark_value) <= s.len(),
        all_bumps_marked(s, mark_value) ==> marked_count(s, mark_value) == s.len(),
    decreases s.len(),
{
    if s.len() > 0 {
        lemma_marked_count_bounds(s.drop_last(), mark_value);
    }
}

pub proof fn lemma_marked_count_concat(a: Seq<BumpBlock>, b: Seq<BumpBlock>, mark_value: u8)
    ensures
        marked_count(a + b, mark_value) == marked_count(a, mark_value) + marked_count(
            b,
            mark_value,
        ),
    decreases b.len(),
{
    if b.len() == 0 {
        assert(a + b =~= a);
    } else {
        assert((a + b).drop_last() =~= a + b.drop_last());
        assert((a + b).last() == b.last());
        lemma_marked_count_concat(a, b.drop_last(), mark_value);
    }
}

pub proof fn lemma_marked_count_reverse(s: Seq<BumpBlock>, mark_value: u8)
    ensures
        marked_count(s.reverse(), mark_value) == marked_count(s, mark_value),
    decreases s.len(),
{
    if s.len() > 0 {
        assert(s.reverse() =~= seq![s.last()] + s.drop_last().reverse());
        lemma_marked_count_concat(seq![s.last()], s.drop_last().reverse(), mark_value);
        lemma_marked_count_reverse(s.drop_last(), mark_value);
        assert(marked_count(seq![s.last()], mark_value) == (if s.last().marked(mark_value) {
            1int
        } else {
            0int
        })) by {
            let one = seq![s.last()];
            assert(one.len() == 1 && one.last() == s.last());
            assert(one.drop_last() =~= Seq::<BumpBlock>::empty());
            assert(marked_count(Seq::<BumpBlock>::empty(), mark_value) == 0);
        }
    }
}

/// Free blocks a sweep has on hand: the old free pool plus every
/// unreferenced recycle or rest block.
pub open spec fn free_candidates(pre: BlockStore, mark_value: u8) -> int {
    pre.free@.len() + (pre.recycle@.len() - marked_count(pre.recycle@, mark_value)) + (
    pre.rest@.len() - marked_count(pre.rest@, mark_value))
}

/// Free blocks the sweep retains: every candidate, up to the cap.
pub open spec fn free_kept(pre: BlockStore, mark_value: u8) -> int {
    if free_candidates(pre, mark_value) <= MAX_FREE_BLOCKS {
        free_candidates(pre, mark_value)
    } else {
        MAX_FREE_BLOCKS as int
    }
}

/// Every block of `sub` occurs in `sup`.
pub open spec fn all_in(sub: Seq<BumpBlock>, sup: Seq<BumpBlock>) -> bool {
    forall|j: int|
        0 <= j < sub.len() ==> exists|i: int| 0 <= i < sup.len() && (#[trigger] sub[j]) == sup[i]
}

impl BlockStore {
    /// Sweep for generation `mark_value`: drop every large block that was
    /// not marked in this generation; clear stale marks on every pooled
    /// bump block and reclassify it — a still-referenced block goes back
    /// to recycle when a usable hole remains and to rest otherwise, and an
    /// unreferenced one becomes free; keep at most `MAX_FREE_BLOCKS` free
    /// blocks, old and newly freed together, and drop the excess.  Every
    /// still-referenced block survives: after the sweep the recycle and
    /// rest pools hold exactly the blocks that carried the generation
    /// mark, each traced to its pre-sweep state with stale line marks
    /// cleared, and the block count falls by exactly the number of
    /// dropped free blocks.  A store that is already swept for this
    /// generation loses nothing to a second sweep.
    pub fn sweep(&mut self, mark_value: u8)
        requires
            old(self).wf(),
            mark_value != FREE_MARK,
        ensures
            final(self).wf(),
            final(self).loaned@ == old(self).loaned@,
            final(self).next_base == old(self).next_base,
            final(self).swept(mark_value),
            forall|i: int|
                0 <= i < final(self).recycle@.len() ==> (#[trigger] final(self).recycle@[i]).hole_size() >= RECYCLE_HOLE_MIN,
            forall|i: int|
                0 <= i < final(self).rest@.len() ==> (#[trigger] final(self).rest@[i]).hole_size()
                    < RECYCLE_HOLE_MIN,
            final(self).recycle@.len() + final(self).rest@.len() == marked_count(
                old(self).recycle@,
                mark_value,
            ) + marked_count(old(self).rest@, mark_value),
            all_swept_from(
                final(self).recycle@,
                old(self).recycle@ + old(self).rest@,
                mark_value,
            ),
            all_swept_from(final(self).rest@, old(self).recycle@ + old(self).rest@, mark_value),
            final(self).free@.len() == free_kept(*old(self), mark_value),
            final(self).free@.len() <= MAX_FREE_BLOCKS,
            final(self).block_count == old(self).block_count - (free_candidates(
                *old(self),
                mark_value,
            ) - free_kept(*old(self), mark_value)),
            final(self).bytes() <= old(self).bytes(),
            final(self).large@.to_multiset() == old(self).large@.filter(
                large_marked(mark_value),
            ).to_multiset(),
            old(self).swept(mark_value) && old(self).free@.len() <= MAX_FREE_BLOCKS ==> {
                &&& final(self).block_count == old(self).block_count
                &&& final(self).bytes() == old(self).bytes()
                &&& final(self).free@.len() == old(self).free@.len()
                &&& final(self).large@.len() == old(self).large@.len()
                &&& final(self).recycle@.len() + final(self).rest@.len() == old(self).recycle@.len() + old(self).rest@.len()
            },
    {
        broadcast use vstd::seq_lib::group_to_multiset_ensures;

        let ghost l0 = old(self).large@;
        let ghost r0 = old(self).recycle@;
        let ghost t0 = old(self).rest@;
        let ghost f0 = old(self).free@;
        let ghost pool0 = r0 + t0;
        let ghost count0 = old(self).block_count as int;
        let ghost loaned0 = old(self).loaned@;
        let ghost nb0 = old(self).next_base;
        let ghost pred = large_marked(mark_value);

        let mut large_items = self.large.drain_to_vec();
        let mut recycle_items = self.recycle.drain_to_vec();
        let mut rest_items = self.rest.drain_to_vec();
        let ghost d0 = large_items@;

        let mut new_rest: Vec<BumpBlock> = Vec::new();
        let mut new_recycle: Vec<BumpBlock> = Vec::new();
        let mut new_large: Vec<LargeBlock> = Vec::new();
        // Unreferenced blocks will join the blocks already in the free
        // pool; the cap below applies to all of them together.
        let mut new_free: Vec<BumpBlock> = self.free.drain_to_vec();

        proof {
            lemma_sum_large_reverse(l0);
            lemma_marked_count_reverse(r0, mark_value);
            lemma_marked_count_reverse(t0, mark_value);
            lemma_marked_count_bounds(r0, mark_value);
            lemma_marked_count_bounds(t0, mark_value);
            assert(all_wf_larges(d0) && (all_larges_marked(l0, mark_value)
                ==> all_larges_marked(d0, mark_value))) by {
                assert(forall|i: int| 0 <= i < d0.len() ==> d0[i] == l0[l0.len() - 1 - i]);
            }
            assert(all_wf_bumps(recycle_items@) && all_in(recycle_items@, r0)) by {
                assert(forall|i: int|
                    0 <= i < recycle_items@.len() ==> (#[trigger] recycle_items@[i]) == r0[r0.len()
                        - 1 - i]);
            }
            assert(all_wf_bumps(rest_items@) && all_in(rest_items@, t0)) by {
                assert(forall|i: int|
                    0 <= i < rest_items@.len() ==> (#[trigger] rest_items@[i]) == t0[t0.len() - 1
                        - i]);
            }
            assert(all_wf_bumps(new_free@) && all_reset_windows(new_free@)) by {
                assert(forall|i: int|
                    0 <= i < new_free@.len() ==> (#[trigger] new_free@[i]) == f0[f0.len() - 1 - i]);
            }
            assert(new_large@.to_multiset().add(d0.filter(pred).to_multiset()) =~= d0.filter(
                pred,
            ).to_multiset());
        }
        while large_items.len() > 0
            invariant
                mark_value != FREE_MARK,
                all_wf_larges(large_items@),
                all_wf_larges(new_large@),
                all_larges_marked(new_large@, mark_value),
                sum_large(new_large@) + sum_large(large_items@) <= sum_large(l0),
                new_large@.len() + large_items@.len() <= l0.len(),
                new_large@.to_multiset().add(large_items@.filter(pred).to_multiset()) == d0.filter(
                    pred,
                ).to_multiset(),
                pred == large_marked(mark_value),
                all_larges_marked(l0, mark_value) ==> {
                    &&& all_larges_marked(large_items@, mark_value)
                    &&& sum_large(new_large@) + sum_large(large_items@) == sum_large(l0)
                    &&& new_large@.len() + large_items@.len() == l0.len()
                },
            decreases large_items@.len(),
        {
            let ghost before = large_items@;
            let lb = large_items.pop().unwrap();
            proof {
                reveal(Seq::filter);
                assert(before.drop_last() == large_items@ && before.last() == lb);
                lemma_sum_large_nonneg(large_items@);
            }
            if lb.is_marked(mark_value) {
                proof {
                    assert(before.filter(pred) == large_items@.filter(pred).push(lb));
                    vstd::seq_lib::to_multiset_build::<LargeBlock>(new_large@, lb);
                    vstd::seq_lib::to_multiset_build::<LargeBlock>(large_items@.filter(pred), lb);
                    assert(new_large@.to_multiset().insert(lb).add(
                        large_items@.filter(pred).to_multiset(),
                    ) =~= new_large@.to_multiset().add(
                        large_items@.filter(pred).to_multiset().insert(lb),
                    ));
                    assert(new_large@.push(lb).drop_last() =~= new_large@);
                }
                new_large.push(lb);
            } else {
                proof {
                    assert(before.filter(pred) == large_items@.filter(pred));
                }
            }
        }
        proof {
            reveal(Seq::filter);
            assert(large_items@.filter(pred).to_multiset() =~= Multiset::<LargeBlock>::empty());
            assert(new_large@.to_multiset().add(Multiset::<LargeBlock>::empty())
                =~= new_large@.to_multiset());
            assert(new_large@.to_multiset() == d0.filter(pred).to_multiset());
            assert(d0.filter(pred).to_multiset() =~= l0.filter(pred).to_multiset()) by {
                assert forall|x: LargeBlock|
                    d0.filter(pred).to_multiset().count(x) == l0.filter(
                        pred,
                    ).to_multiset().count(x) by {
                    lemma_filter_multiset_count(d0, pred, x);
                    lemma_filter_multiset_count(l0, pred, x);
                    l0.lemma_reverse_to_multiset();
                }
            }
        }
        while recycle_items.len() > 0
            invariant
                mark_value != FREE_MARK,
                all_wf_bumps(recycle_items@),
                all_wf_bumps(new_recycle@),
                all_wf_bumps(new_rest@),
                all_wf_bumps(new_free@),
                all_reset_windows(new_free@),
                all_bumps_swept(new_recycle@, mark_value),
                all_bumps_swept(new_rest@, mark_value),
                all_in(recycle_items@, r0),
                all_swept_from(new_recycle@, pool0, mark_value),
                all_swept_from(new_rest@, pool0, mark_value),
                pool0 == r0 + t0,
                forall|i: int|
                    0 <= i < new_recycle@.len() ==> (#[trigger] new_recycle@[i]).hole_size()
                        >= RECYCLE_HOLE_MIN,
                forall|i: int|
                    0 <= i < new_rest@.len() ==> (#[trigger] new_rest@[i]).hole_size()
                        < RECYCLE_HOLE_MIN,
                new_recycle@.len() + new_rest@.len() + marked_count(recycle_items@, mark_value)
                    == marked_count(r0, mark_value),
                new_free@.len() == f0.len() + (r0.len() - marked_count(r0, mark_value)) - (
                recycle_items@.len() - marked_count(recycle_items@, mark_value)),
                0 <= marked_count(recycle_items@, mark_value) <= recycle_items@.len(),
            decreases recycle_items@.len(),
        {
            let ghost before = recycle_items@;
            let mut block = recycle_items.pop().unwrap();
            let ghost orig = before.last();
            proof {
                lemma_marked_count_bounds(recycle_items@, mark_value);
                assert(before.drop_last() == recycle_items@);
                assert(marked_count(before, mark_value) == marked_count(recycle_items@, mark_value)
                    + (if orig.marked(mark_value) {
                    1int
                } else {
                    0int
                }));
            }
            block.reset_hole(mark_value);
            if block.is_marked(mark_value) {
                proof {
                    let i = choose|i: int| 0 <= i < r0.len() && orig == r0[i];
                    assert(pool0[i] == r0[i]);
                    assert(swept_from(block, pool0[i], mark_value));
                }
                if block.current_hole_size() >= RECYCLE_HOLE_MIN {
                    new_recycle.push(block);
                } else {
                    new_rest.push(block);
                }
            } else {
                new_free.push(block);
            }
        }
        while rest_items.len() > 0
            invariant
                mark_value != FREE_MARK,
                all_wf_bumps(rest_items@),
                all_wf_bumps(new_recycle@),
                all_wf_bumps(new_rest@),
                all_wf_bumps(new_free@),
                all_reset_windows(new_free@),
                all_bumps_swept(new_recycle@, mark_value),
                all_bumps_swept(new_rest@, mark_value),
                all_in(rest_items@, t0),
                all_swept_from(new_recycle@, pool0, mark_value),
                all_swept_from(new_rest@, pool0, mark_value),
                pool0 == r0 + t0,
                forall|i: int|
                    0 <= i < new_recycle@.len() ==> (#[trigger] new_recycle@[i]).hole_size()
                        >= RECYCLE_HOLE_MIN,
                forall|i: int|
                    0 <= i < new_rest@.len() ==> (#[trigger] new_rest@[i]).hole_size()
                        < RECYCLE_HOLE_MIN,
                new_recycle@.len() + new_rest@.len() + marked_count(rest_items@, mark_value)
                    == marked_count(r0, mark_value) + marked_count(t0, mark_value),
                new_free@.len() == f0.len() + (r0.len() - marked_count(r0, mark_value)) + (t0.len()
                    - marked_count(t0, mark_value)) - (rest_items@.len() - marked_count(
                    rest_items@,
                    mark_value,
                )),
                0 <= marked_count(rest_items@, mark_value) <= rest_items@.len(),
            decreases rest_items@.len(),
        {
            let ghost before = rest_items@;
            let mut block = rest_items.pop().unwrap();
            let ghost orig = before.last();
            proof {
                lemma_marked_count_bounds(rest_items@, mark_value);
                assert(before.drop_last() == rest_items@);
                assert(marked_count(before, mark_value) == marked_count(rest_items@, mark_value) + (
                if orig.marked(mark_value) {
                    1int
                } else {
                    0int
                }));
            }
            block.reset_hole(mark_value);
            if block.is_marked(mark_value) {
                proof {
                    let i = choose|i: int| 0 <= i < t0.len() && orig == t0[i];
                    assert(pool0[r0.len() + i] == t0[i]);
                    assert(swept_from(block, pool0[r0.len() + i], mark_value));
                }
                if block.current_hole_size() >= RECYCLE_HOLE_MIN {
                    new_recycle.push(block);
                } else {
                    new_rest.push(block);
                }
            } else {
                new_free.push(block);
            }
        }
        let ghost kept_large = new_large@;
        let ghost kept_recycle = new_recycle@;
        let ghost kept_rest = new_rest@;
        let ghost total0 = new_free@.len() as int;
        self.large.push_from_iter(new_large);
        self.recycle.push_from_iter(new_recycle);
        self.rest.push_from_iter(new_rest);
        proof {
            assert(self.large@ =~= kept_large.reverse());
            assert(self.recycle@ =~= kept_recycle.reverse());
            assert(self.rest@ =~= kept_rest.reverse());
            kept_large.lemma_reverse_to_multiset();
            lemma_sum_large_reverse(kept_large);
            assert(total0 == free_candidates(*old(self), mark_value));
            assert(all_larges_marked(self.large@, mark_value) && all_wf_larges(self.large@)) by {
                assert(forall|i: int|
                    0 <= i < self.large@.len() ==> self.large@[i] == kept_large[kept_large.len() - 1
                        - i]);
            }
            assert(forall|i: int|
                0 <= i < self.recycle@.len() ==> (#[trigger] self.recycle@[i]) == kept_recycle[
                kept_recycle.len() - 1 - i]);
            assert(forall|i: int|
                0 <= i < self.rest@.len() ==> (#[trigger] self.rest@[i]) == kept_rest[
                kept_rest.len() - 1 - i]);
            assert(all_bumps_swept(self.recycle@, mark_value) && all_wf_bumps(self.recycle@) && (
            forall|i: int|
                0 <= i < self.recycle@.len() ==> (#[trigger] self.recycle@[i]).hole_size()
                    >= RECYCLE_HOLE_MIN));
            assert(all_bumps_swept(self.rest@, mark_value) && all_wf_bumps(self.rest@) && (
            forall|i: int|
                0 <= i < self.rest@.len() ==> (#[trigger] self.rest@[i]).hole_size()
                    < RECYCLE_HOLE_MIN));
            assert forall|j: int| 0 <= j < self.recycle@.len() implies exists|i: int|
                0 <= i < pool0.len() && swept_from(
                    #[trigger] self.recycle@[j],
                    pool0[i],
                    mark_value,
                ) by {
                let jj = kept_recycle.len() - 1 - j;
                assert(self.recycle@[j] == kept_recycle[jj]);
                let i = choose|i: int|
                    0 <= i < pool0.len() && swept_from(kept_recycle[jj], pool0[i], mark_value);
                assert(swept_from(self.recycle@[j], pool0[i], mark_value));
            }
            assert forall|j: int| 0 <= j < self.rest@.len() implies exists|i: int|
                0 <= i < pool0.len() && swept_from(#[trigger] self.rest@[j], pool0[i], mark_value) by {
                let jj = kept_rest.len() - 1 - j;
                assert(self.rest@[j] == kept_rest[jj]);
                let i = choose|i: int|
                    0 <= i < pool0.len() && swept_from(kept_rest[jj], pool0[i], mark_value);
                assert(swept_from(self.rest@[j], pool0[i], mark_value));
            }

        }
        let mut kept: usize = 0;
        let mut dropped_count: usize = 0;
        while new_free.len() > 0
            invariant
                kept <= MAX_FREE_BLOCKS,
                self.free@.len() == kept,
                dropped_count > 0 ==> kept == MAX_FREE_BLOCKS,
                kept + dropped_count + new_free@.len() == total0,
                all_wf_bumps(self.free@),
                all_reset_windows(self.free@),
                all_wf_bumps(new_free@),
                all_reset_windows(new_free@),
                self.block_count as int == count0 - dropped_count,
                count0 == loaned0 + kept_recycle.len() + kept_rest.len() + kept + dropped_count
                    + new_free@.len(),
                loaned0 >= 0,
                self.recycle@ == kept_recycle.reverse(),
                self.rest@ == kept_rest.reverse(),
                self.large@ == kept_large.reverse(),
                self.next_base == nb0,
                self.loaned@ == loaned0,
                count0 <= usize::MAX,
            decreases new_free@.len(),
        {
            let block = new_free.pop().unwrap();
            if kept < MAX_FREE_BLOCKS {
                self.free.push(block);
                kept = kept + 1;
            } else {
                self.block_count = self.block_count - 1;
                dropped_count = dropped_count + 1;
            }
        }
        proof {
            lemma_sum_large_nonneg(kept_large);
            assert(self.free@.len() == free_kept(*old(self), mark_value));
            assert(self.block_count * BLOCK_SIZE <= count0 * BLOCK_SIZE) by (nonlinear_arith)
                requires
                    self.block_count as int <= count0,
                    BLOCK_SIZE as int > 0,
            ;
            assert(self.bytes() <= old(self).bytes());
            if old(self).swept(mark_value) && f0.len() <= MAX_FREE_BLOCKS {
                assert(all_bumps_marked(r0, mark_value) && all_bumps_marked(t0, mark_value));
                assert(marked_count(r0, mark_value) == r0.len() && marked_count(t0, mark_value)
                    == t0.len());
                assert(self.block_count as int == count0);
                assert(sum_large(kept_large) == sum_large(l0));
            }
        }
    }
}

/// Some block in `s` has base address `base`.
pub open spec fn bump_base_in(s: Seq<BumpBlock>, base: usize) -> bool {
    exists|i: int| 0 <= i < s.len() && (#[trigger] s[i]).block.base == base
}

/// `b2` is `b1` after marking lines `[first, last]` and the block mark with
/// generation `mark_value`; everything else about the block is untouched.
pub open spec fn bump_marked_from(b2: BumpBlock, b1: BumpBlock, first: int, last: int, mark_value: u8) -> bool {
    &&& b2.cursor == b1.cursor
    &&& b2.limit == b1.limit
    &&& b2.block.base == b1.block.base
    &&& b2.block.meta.block_mark == mark_value
    &&& b2.block.meta.lines@.len() == b1.block.meta.lines@.len()
    &&& forall|i: int|
        0 <= i < b1.block.meta.lines@.len() ==> b2.block.meta.lines@[i] == (if first <= i <= last {
            mark_value
        } else {
            b1.block.meta.lines@[i]
        })
}

/// Find the block with the given base in the stack and apply the line and
/// block marks for an object at `offset` of `size` bytes; report whether
/// the stack held that block.
fn mark_in_stack(
    stack: &mut AtomicStack<BumpBlock>,
    base: usize,
    offset: usize,
    size: usize,
    size_class: SizeClass,
    mark_value: u8,
) -> (found: bool)
    requires
        all_wf_bumps(old(stack)@),
        mark_value != FREE_MARK,
        size >= 1,
        offset + size <= BLOCK_CAPACITY,
        size_class != SizeClass::Large,
    ensures
        all_wf_bumps(final(stack)@),
        final(stack)@.len() == old(stack)@.len(),
        !found ==> final(stack)@ == old(stack)@ && !bump_base_in(old(stack)@, base),
        found ==> exists|j: int|
            0 <= j < old(stack)@.len() && (#[trigger] old(stack)@[j]).block.base == base
                && bump_marked_from(
                final(stack)@[j],
                old(stack)@[j],
                crate::block_meta::mark_first(offset as int),
                crate::block_meta::mark_last(offset as int, size as int, size_class),
                mark_value,
            ) && (forall|k: int|
                0 <= k < old(stack)@.len() && k != j ==> final(stack)@[k] == old(stack)@[k]),
{
    let mut i: usize = 0;
    while i < stack.items.len()
        invariant
            all_wf_bumps(stack@),
            stack@ == old(stack)@,
            mark_value != FREE_MARK,
            size >= 1,
            offset + size <= BLOCK_CAPACITY,
            size_class != SizeClass::Large,
            i <= stack@.len(),
            forall|k: int| 0 <= k < i ==> (#[trigger] stack@[k]).block.base != base,
        decreases stack@.len() - i,
    {
        if stack.items[i].block.base == base {
            let mut block = stack.items.remove(i);
            block.block.meta.mark(offset, size, size_class, mark_value);
            let ghost marked = block;
            stack.items.insert(i, block);
            proof {
                assert(stack@ =~= old(stack)@.update(i as int, marked));
                assert(bump_marked_from(
                    stack@[i as int],
                    old(stack)@[i as int],
                    crate::block_meta::mark_first(offset as int),
                    crate::block_meta::mark_last(offset as int, size as int, size_class),
                    mark_value,
                ));
                assert forall|k: int| 0 <= k < stack@.len() implies (#[trigger] stack@[k]).wf() by {
                    assert(old(stack)@[k].wf());
                }
            }
            return true;
        }
        i += 1;
    }
    false
}

impl BlockStore {
    /// The bump blocks pooled in the store, in one sequence.
    pub open spec fn pool_bumps(self) -> Seq<BumpBlock> {
        self.recycle@ + self.rest@ + self.free@
    }

    pub open spec fn has_bump_base(self, base: usize) -> bool {
        bump_base_in(self.pool_bumps(), base)
    }

    pub open spec fn has_large_base(self, base: usize) -> bool {
        exists|i: int| 0 <= i < self.large@.len() && (#[trigger] self.large@[i]).base == base
    }

    /// Mark the pooled block holding an object at address `base + offset`:
    /// the lines covering the object and the block mark take the current
    /// generation; every other pooled block is untouched.
    pub fn mark_bump(
        &mut self,
        base: usize,
        offset: usize,
        size: usize,
        size_class: SizeClass,
        mark_value: u8,
    ) -> (found: bool)
        requires
            old(self).wf(),
            mark_value != FREE_MARK,
            size >= 1,
            offset + size <= BLOCK_CAPACITY,
            size_class != SizeClass::Large,
        ensures
            final(self).wf(),
            final(self).bytes() == old(self).bytes(),
            final(self).large@ == old(self).large@,
            final(self).block_count == old(self).block_count,
            final(self).next_base == old(self).next_base,
            final(self).loaned@ == old(self).loaned@,
            final(self).pool_bumps().len() == old(self).pool_bumps().len(),
            !found ==> final(self).pool_bumps() == old(self).pool_bumps() && !old(self).has_bump_base(base),
            found ==> exists|j: int|
                0 <= j < old(self).pool_bumps().len() && (#[trigger] old(self).pool_bumps()[j]).block.base == base && bump_marked_from(
                    final(self).pool_bumps()[j],
                    old(self).pool_bumps()[j],
                    crate::block_meta::mark_first(offset as int),
                    crate::block_meta::mark_last(offset as int, size as int, size_class),
                    mark_value,
                ) && (forall|k: int|
                    0 <= k < old(self).pool_bumps().len() && k != j ==> final(self).pool_bumps()[k] == old(self).pool_bumps()[k]),
    {
        let ghost r0 = self.recycle@;
        let ghost t0 = self.rest@;
        let ghost f0 = self.free@;
        if mark_in_stack(&mut self.recycle, base, offset, size, size_class, mark_value) {
            proof {
                let j = choose|j: int|
                    0 <= j < r0.len() && (#[trigger] r0[j]).block.base == base && bump_marked_from(
                        self.recycle@[j],
                        r0[j],
                        crate::block_meta::mark_first(offset as int),
                        crate::block_meta::mark_last(offset as int, size as int, size_class),
                        mark_value,
                    ) && (forall|k: int| 0 <= k < r0.len() && k != j ==> self.recycle@[k] == r0[k]);
                assert(old(self).pool_bumps()[j] == r0[j]);
                assert(self.pool_bumps()[j] == self.recycle@[j]);
                assert(forall|k: int|
                    0 <= k < old(self).pool_bumps().len() && k != j
                        ==> self.pool_bumps()[k] == old(self).pool_bumps()[k]);
            }
            return true;
        }
        if mark_in_stack(&mut self.rest, base, offset, size, size_class, mark_value) {
            proof {
                let j = choose|j: int|
                    0 <= j < t0.len() && (#[trigger] t0[j]).block.base == base && bump_marked_from(
                        self.rest@[j],
                        t0[j],
                        crate::block_meta::mark_first(offset as int),
                        crate::block_meta::mark_last(offset as int, size as int, size_class),
                        mark_value,
                    ) && (forall|k: int| 0 <= k < t0.len() && k != j ==> self.rest@[k] == t0[k]);
                let j2 = j + r0.len() as int;
                assert(old(self).pool_bumps()[j2] == t0[j]);
                assert(self.pool_bumps()[j2] == self.rest@[j]);
                assert(forall|k: int|
                    0 <= k < old(self).pool_bumps().len() && k != j2
                        ==> self.pool_bumps()[k] == old(self).pool_bumps()[k]);
            }
            return true;
        }
        if mark_in_stack(&mut self.free, base, offset, size, size_class, mark_value) {
            proof {
                let j = choose|j: int|
                    0 <= j < f0.len() && (#[trigger] f0[j]).block.base == base && bump_marked_from(
                        self.free@[j],
                        f0[j],
                        crate::block_meta::mark_first(offset as int),
                        crate::block_meta::mark_last(offset as int, size as int, size_class),
                        mark_value,
                    ) && (forall|k: int| 0 <= k < f0.len() && k != j ==> self.free@[k] == f0[k]);
                let j2 = j + r0.len() as int + t0.len() as int;
                assert(old(self).pool_bumps()[j2] == f0[j]);
                assert(self.pool_bumps()[j2] == self.free@[j]);
                assert(forall|k: int|
                    0 <= k < old(self).pool_bumps().len() && k != j2
                        ==> self.pool_bumps()[k] == old(self).pool_bumps()[k]);
            }
            return true;
        }
        proof {
            assert(self.pool_bumps() =~= old(self).pool_bumps());
        }
        false
    }

    /// Mark the large block whose object sits at address `ptr`.
    pub fn mark_large(&mut self, ptr: usize, mark_value: u8)
        requires
            old(self).wf(),
            mark_value != FREE_MARK,
            old(self).has_large_base(ptr),
        ensures
            final(self).wf(),
            final(self).bytes() == old(self).bytes(),
            final(self).recycle@ == old(self).recycle@,
            final(self).rest@ == old(self).rest@,
            final(self).free@ == old(self).free@,
            final(self).block_count == old(self).block_count,
            final(self).next_base == old(self).next_base,
            final(self).loaned@ == old(self).loaned@,
            final(self).large@.len() == old(self).large@.len(),
            exists|j: int|
                0 <= j < old(self).large@.len() && (#[trigger] old(self).large@[j]).base == ptr
                    && final(self).large@[j].base == old(self).large@[j].base && final(self).large@[j].size == old(self).large@[j].size && final(self).large@[j].mark
                    == mark_value && (forall|k: int|
                    0 <= k < old(self).large@.len() && k != j ==> final(self).large@[k] == old(self).large@[k]),
    {
        let ghost l0 = self.large@;
        let mut i: usize = 0;
        while i < self.large.items.len()
            invariant
                self.wf(),
                same_store(*self, *old(self)),
                l0 == self.large@,
                mark_value != FREE_MARK,
                old(self).has_large_base(ptr),
                i <= self.large@.len(),
                forall|k: int| 0 <= k < i ==> (#[trigger] self.large@[k]).base != ptr,
            decreases self.large@.len() - i,
        {
            if self.large.items[i].as_ptr() == ptr {
                let mut block = self.large.items.remove(i);
                block.mark(mark_value);
                let ghost marked = block;
                self.large.items.insert(i, block);
                proof {
                    assert(self.large@ =~= l0.update(i as int, marked));
                    assert(sum_large(self.large@) == sum_large(l0)) by {
                        lemma_sum_large_update_same_size(l0, i as int, marked);
                    }
                    assert forall|k: int| 0 <= k < self.large@.len() implies (#[trigger] self.large@[k]).wf() by {
                        assert(l0[k].wf());
                    }
                }
                return ;
            }
            i += 1;
        }
        proof {
            let j = choose|j: int| 0 <= j < l0.len() && (#[trigger] l0[j]).base == ptr;
            assert(false);
        }
    }
}

proof fn lemma_sum_large_update_same_size(s: Seq<LargeBlock>, i: int, v: LargeBlock)
    requires
        0 <= i < s.len(),
        v.size == s[i].size,
    ensures
        sum_large(s.update(i, v)) == sum_large(s),
    decreases s.len(),
{
    let t = s.update(i, v);
    if i == s.len() - 1 {
        assert(t.drop_last() =~= s.drop_last());
        assert(t.last() == v);
    } else {
        assert(t.drop_last() =~= s.drop_last().update(i, v));
        assert(t.last() == s.last());
        lemma_sum_large_update_same_size(s.drop_last(), i, v);
    }
}

/// Whole block-size units a large request's span takes out of the address
/// space.
pub open spec fn large_footprint(layout: Layout) -> int {
    let sz = padded_size(layout);
    let bs = BLOCK_SIZE as int;
    if sz % bs == 0 {
        (sz / bs) * bs
    } else {
        (sz / bs + 1) * bs
    }
}

proof fn lemma_sum_large_prefix_bound(s: Seq<LargeBlock>, i: int)
    requires
        0 <= i <= s.len(),
    ensures
        sum_large(s.subrange(0, i)) <= sum_large(s),
    decreases s.len() - i,
{
    if i < s.len() {
        assert(s.subrange(0, i + 1).drop_last() =~= s.subrange(0, i));
        assert(s.subrange(0, i + 1).last() == s[i]);
        lemma_sum_large_prefix_bound(s, i + 1);
    } else {
        assert(s.subrange(0, i) =~= s);
    }
}

} // verus!
