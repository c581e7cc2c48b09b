//! A mark-region, non-moving heap allocator core in the style of Immix.
//!
//! Mutators bump-allocate small and medium objects out of *bump windows*
//! carved from fixed-size blocks; large objects get a standalone allocation.
//! A mark phase (driven by the embedding runtime through [`mark`]) sets
//! one-byte generation marks on every reachable object, and a subsequent
//! sweep reclaims unreferenced space at line and block granularity.
//!
//! Raw memory itself stays outside this crate: a block is addressed by a
//! `BLOCK_SIZE`-aligned base address, and an allocation is the address
//! `base + offset` of its first byte.  Every decision the allocator makes —
//! hole discovery over the line-mark map, bump allocation, block
//! classification and sweeping — is made here, over those plain addresses,
//! and is verified.

use vstd::prelude::*;

pub mod alloc_head;
pub mod allocator;
pub mod atomic_stack;
pub mod block;
pub mod block_meta;
pub mod block_store;
pub mod bump_block;
pub mod constants;
pub mod error;
pub mod heap;
pub mod large_block;
pub mod layout;
pub mod size_class;

pub use allocator::Allocator;
pub use error::AllocError;
pub use heap::Heap;

use crate::alloc_head::bump_mark_applied;
use crate::constants::{BLOCK_CAPACITY, BLOCK_SIZE, FREE_MARK};
use crate::layout::Layout;
use crate::size_class::{size_class_of, SizeClass};

verus! {

/// Record that the object at `ptr`, previously returned by an allocation
/// with this same `layout`, is reachable in generation `mark_value`.  A
/// small object has its starting line marked, a medium object every line
/// it covers, and in both cases the containing block's mark is set; a
/// large object has its single mark byte set.  Nothing else in the heap
/// changes.
pub fn mark(alloc: &mut Allocator, ptr: usize, layout: Layout, mark_value: u8) -> (r: Result<
    (),
    AllocError,
>)
    requires
        old(alloc).wf(),
        mark_value != FREE_MARK,
        layout.wf(),
        size_class_of(layout.size as int) == Some(SizeClass::Large) ==> old(alloc).head.store.has_large_base(ptr),
        size_class_of(layout.size as int) is Some && size_class_of(layout.size as int) != Some(
            SizeClass::Large,
        ) ==> {
            &&& old(alloc).head.has_bump_base(((ptr - ptr as int % (BLOCK_SIZE as int)) as usize))
            &&& ptr as int % (BLOCK_SIZE as int) + layout.size <= BLOCK_CAPACITY
        },
    ensures
        final(alloc).wf(),
        final(alloc).bytes() == old(alloc).bytes(),
        r is Ok <==> size_class_of(layout.size as int) is Some,
        r matches Err(e) ==> e == AllocError::AllocOverflow,
        size_class_of(layout.size as int) is Some && size_class_of(layout.size as int) != Some(
            SizeClass::Large,
        ) ==> bump_mark_applied(
            old(alloc).head,
            final(alloc).head,
            ((ptr - ptr as int % (BLOCK_SIZE as int)) as usize),
            ptr as int % (BLOCK_SIZE as int),
            layout.size as int,
            size_class_of(layout.size as int)->0,
            mark_value,
        ),
        size_class_of(layout.size as int) == Some(SizeClass::Large) ==> exists|j: int|
            0 <= j < old(alloc).head.store.large@.len() && (#[trigger] old(alloc).head.store.large@[j]).base == ptr && final(alloc).head.store.large@[j].mark
                == mark_value && final(alloc).head.store.large@[j].size == old(alloc).head.store.large@[j].size && (forall|k: int|
                0 <= k < old(alloc).head.store.large@.len() && k != j ==> final(alloc).head.store.large@[k] == old(alloc).head.store.large@[k]),
{
    let size_class = match SizeClass::get_for_size(layout.size) {
        Ok(c) => c,
        Err(e) => {
            return Err(e);
        },
    };
    match size_class {
        SizeClass::Large => {
            alloc.head.store.mark_large(ptr, mark_value);
        },
        _ => {
            alloc.head.mark_object(ptr, layout.size, size_class, mark_value);
        },
    }
    Ok(())
}

} // verus!
