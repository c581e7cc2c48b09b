//! Errors the allocator reports.  They are returned, never latched: a failed
//! allocation leaves the heap unchanged.

use vstd::prelude::*;

verus! {

#[derive(Clone, Copy, Debug, PartialEq, Eq, Structural)]
pub enum AllocError {
    /// No backing address space is left for another block.
    OOM,
    /// The request is out of range: a zero size, a size above
    /// `MAX_ALLOC_SIZE`, or an alignment above `BLOCK_SIZE`.
    AllocOverflow,
    /// Arithmetic over a layout overflowed, or the layout itself is invalid.
    LayoutError,
}

} // verus!
