//! Classification of a request size into Small, Medium or Large.

use vstd::prelude::*;

use crate::constants::{LARGE_OBJECT_MAX, MEDIUM_OBJECT_MAX, SMALL_OBJECT_MAX};
use crate::error::AllocError;

verus! {

#[derive(Clone, Copy, Debug, PartialEq, Eq, Structural)]
pub enum SizeClass {
    /// Fits within one line: `1 <= size <= LINE_SIZE`.
    Small,
    /// Needs a multi-line hole: `LINE_SIZE < size <= BLOCK_CAPACITY`.
    Medium,
    /// Does not fit in a block: `BLOCK_CAPACITY < size <= MAX_ALLOC_SIZE`.
    Large,
}

/// The size class a request of `size` bytes falls in, or `None` when the
/// size is zero or above `MAX_ALLOC_SIZE`.
pub open spec fn size_class_of(size: int) -> Option<SizeClass> {
    if size <= 0 {
        None
    } else if size <= SMALL_OBJECT_MAX {
        Some(SizeClass::Small)
    } else if size <= MEDIUM_OBJECT_MAX {
        Some(SizeClass::Medium)
    } else if size <= LARGE_OBJECT_MAX {
        Some(SizeClass::Large)
    } else {
        None
    }
}

impl SizeClass {
    pub fn get_for_size(size: usize) -> (r: Result<SizeClass, AllocError>)
        ensures
            r matches Ok(c) ==> size_class_of(size as int) == Some(c),
            r is Ok <==> size_class_of(size as int) is Some,
            r matches Err(e) ==> e == AllocError::AllocOverflow,
    {
        if size == 0 {
            Err(AllocError::AllocOverflow)
        } else if size <= SMALL_OBJECT_MAX {
            Ok(SizeClass::Small)
        } else if size <= MEDIUM_OBJECT_MAX {
            Ok(SizeClass::Medium)
        } else if size <= LARGE_OBJECT_MAX {
            Ok(SizeClass::Large)
        } else {
            Err(AllocError::AllocOverflow)
        }
    }
}

} // verus!
