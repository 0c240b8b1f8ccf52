//! What the allocators of a data segment have in common.

use vstd::prelude::*;
use iceoryx2_bb_elementary::allocator::AllocationError;

verus! {

/// The failures of an allocator, as `iceoryx2_bb_elementary` names them.
#[verifier::external_type_specification]
pub struct ExAllocationError(AllocationError);

/// Size and alignment of a piece of memory.
#[derive(Debug, Clone, Copy, PartialEq, Eq, Structural, Hash)]
pub struct Layout {
    pub size: usize,
    pub align: usize,
}

impl Layout {
    pub fn new(size: usize, align: usize) -> (layout: Layout)
        ensures
            layout.size == size,
            layout.align == align,
    {
        Layout { size, align }
    }

    pub fn size(&self) -> (size: usize)
        ensures
            size == self.size,
    {
        self.size
    }

    pub fn align(&self) -> (align: usize)
        ensures
            align == self.align,
    {
        self.align
    }
}

/// How a data segment that may grow chooses the layout of a new segment.
#[derive(Debug, Clone, Copy, PartialEq, Eq, Structural, Hash)]
pub enum AllocationStrategy {
    /// The new buckets are as large as the request that did not fit.
    BestFit,
    /// The new buckets are as large as the next power of two at or above
    /// the request that did not fit.
    PowerOfTwo,
    /// The segment never grows.
    Static,
}

/// Why an allocation from a data segment failed.
#[derive(Debug, Clone, Copy, PartialEq, Eq)]
pub enum ShmAllocationError {
    /// The request is larger or more strictly aligned than a bucket.
    ExceedsMaxSupportedAlignment,
    AllocationError(AllocationError),
}

} // verus!
