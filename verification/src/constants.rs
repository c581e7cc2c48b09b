//! Fixed numeric parameters of the heap.

use vstd::prelude::*;

verus! {

/// Mark byte of an unreferenced line or block; generation marks are nonzero.
pub const FREE_MARK: u8 = 0;

/// Size in bytes of one block, the unit of backing allocation for small and
/// medium objects.  Block base addresses are aligned to this size, so the
/// block holding an interior address is found by rounding down.
pub const BLOCK_SIZE: usize = 32768;

/// Size in bytes of one line, the granularity of marking within a block.
pub const LINE_SIZE: usize = 128;

/// Number of line-mark bytes kept per block.
pub const LINE_COUNT: usize = 256;

/// Bytes of object payload per block: the rest of the block is taken by the
/// per-line mark bytes and the single block mark byte.
pub const BLOCK_CAPACITY: usize = BLOCK_SIZE - LINE_COUNT - 1;

/// Largest request the allocator accepts.
pub const MAX_ALLOC_SIZE: usize = 4294967295;

pub const SMALL_OBJECT_MIN: usize = 1;

pub const SMALL_OBJECT_MAX: usize = LINE_SIZE;

pub const MEDIUM_OBJECT_MIN: usize = SMALL_OBJECT_MAX + 1;

pub const MEDIUM_OBJECT_MAX: usize = BLOCK_CAPACITY;

pub const LARGE_OBJECT_MIN: usize = MEDIUM_OBJECT_MAX + 1;

pub const LARGE_OBJECT_MAX: usize = MAX_ALLOC_SIZE;

/// Cap on the number of empty blocks the store keeps across a sweep.
pub const MAX_FREE_BLOCKS: usize = 100;

/// A block goes back on the recycle list only when its hole is at least this
/// many bytes.
pub const RECYCLE_HOLE_MIN: usize = LINE_SIZE * 5;

} // verus!
