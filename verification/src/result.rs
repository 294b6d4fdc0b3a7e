//! Error taxonomy surfaced to callers of the allocator.

use vstd::prelude::*;

verus! {

/// Every failure an allocator operation can report.
///
/// `OutOfMemory` covers both an exhausted device memory budget and a block
/// whose sub-allocator cannot satisfy a request.  `Internal` marks invariant
/// violations such as a double free or an exhausted chunk-id space.  The
/// remaining variants are precondition failures of resource creation and
/// allocation requests.
#[derive(Debug, Clone, PartialEq, Eq)]
pub enum AllocationError {
    OutOfMemory,
    FailedToMap(String),
    NoCompatibleMemoryTypeFound,
    InvalidAllocationCreateDesc,
    InvalidAllocatorCreateDesc(String),
    Internal(String),
    BarrierLayoutNeedsDevice10,
    CastableFormatsRequiresEnhancedBarriers,
    CastableFormatsRequiresAtLeastDevice12,
}

} // verus!
