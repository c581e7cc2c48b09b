//! A standalone allocation for an object larger than a block's payload,
//! carrying its own single mark byte just past the object.

use vstd::prelude::*;

use crate::constants::{BLOCK_SIZE, FREE_MARK, LARGE_OBJECT_MIN};
use crate::error::AllocError;
use crate::layout::Layout;

verus! {

/// Bytes a large block takes: the object, one mark byte appended, the
/// whole padded up to the object's alignment.
pub open spec fn padded_size(layout: Layout) -> int {
    ((layout.size + 1 + layout.align - 1) as int / (layout.align as int)) * (layout.align as int)
}

/// The layout arithmetic for a large block stays within the machine range.
pub open spec fn padded_size_fits(layout: Layout) -> bool {
    layout.size + layout.align <= usize::MAX
}

/// The padded span always covers the object and its mark byte.
pub proof fn lemma_padded_size_bounds(layout: Layout)
    requires
        layout.wf(),
    ensures
        layout.size < padded_size(layout) <= layout.size + layout.align,
{
    let a = layout.align as int;
    let x = layout.size + 1 + a - 1;
    assert(a >= 1);
    vstd::arithmetic::div_mod::lemma_fundamental_div_mod(x, a);
    vstd::arithmetic::div_mod::lemma_mod_bound(x, a);
    assert((x / a) * a == x - x % a) by (nonlinear_arith)
        requires
            x == a * (x / a) + x % a,
    ;
}

pub struct LargeBlock {
    pub base: usize,
    pub size: usize,
    pub mark: u8,
}

impl LargeBlock {
    pub open spec fn wf(self) -> bool {
        &&& self.base >= BLOCK_SIZE
        &&& self.base as int % (BLOCK_SIZE as int) == 0
        &&& self.size >= LARGE_OBJECT_MIN + 1
    }

    /// Take the span at `base` for an object of `obj_layout`, with room for
    /// the mark byte; fails with a layout error when the padding arithmetic
    /// would overflow.
    pub fn new(obj_layout: Layout, base: usize) -> (r: Result<LargeBlock, AllocError>)
        requires
            obj_layout.wf(),
            obj_layout.size >= LARGE_OBJECT_MIN,
            base >= BLOCK_SIZE,
            base as int % (BLOCK_SIZE as int) == 0,
        ensures
            r matches Ok(lb) ==> {
                &&& lb.wf()
                &&& lb.base == base
                &&& lb.size == padded_size(obj_layout)
                &&& lb.mark == FREE_MARK
                &&& obj_layout.size < lb.size <= obj_layout.size + obj_layout.align
            },
            r is Ok <==> padded_size_fits(obj_layout),
            r matches Err(e) ==> e == AllocError::LayoutError,
    {
        proof {
            assert(obj_layout.align >= 1);
        }
        if obj_layout.size > usize::MAX - obj_layout.align {
            return Err(AllocError::LayoutError);
        }
        let needed = obj_layout.size + 1;
        let q = (needed + (obj_layout.align - 1)) / obj_layout.align;
        proof {
            let a = obj_layout.align as int;
            let x = needed + a - 1;
            vstd::arithmetic::div_mod::lemma_fundamental_div_mod(x, a);
            vstd::arithmetic::div_mod::lemma_mod_bound(x, a);
            assert((q as int) * a <= x && (q as int) * a >= x - (a - 1)) by (nonlinear_arith)
                requires
                    x == a * (q as int) + (x % a),
                    0 <= x % a < a,
            ;
        }
        let padded = q * obj_layout.align;
        Ok(LargeBlock { base, size: padded, mark: FREE_MARK })
    }

    /// Record this block's object as reachable in generation `mark_value`.
    pub fn mark(&mut self, mark_value: u8)
        requires
            mark_value != FREE_MARK,
        ensures
            final(self).base == old(self).base,
            final(self).size == old(self).size,
            final(self).mark == mark_value,
    {
        self.mark = mark_value;
    }

    pub fn is_marked(&self, mark_value: u8) -> (r: bool)
        ensures
            r == (self.mark == mark_value),
    {
        self.mark == mark_value
    }

    /// Total bytes of the backing span, mark byte and padding included.
    pub fn get_size(&self) -> (r: usize)
        ensures
            r == self.size,
    {
        self.size
    }

    /// Address of the object payload.
    pub fn as_ptr(&self) -> (r: usize)
        ensures
            r == self.base,
    {
        self.base
    }
}

} // verus!
