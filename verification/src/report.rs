//! Report data the allocator hands to callers: one entry per live
//! allocation, one entry per block, and the totals over both.

use vstd::prelude::*;

verus! {

/// One live allocation inside some block.
#[derive(Debug, Clone)]
pub struct AllocationReport {
    /// Display name recorded for the allocation, or empty.
    pub name: String,
    /// Offset of the allocation inside its block.
    pub offset: u64,
    /// Size of the allocation in bytes.
    pub size: u64,
}

/// One live memory block; its allocations are the entries of the flat
/// allocation list with index in `[allocations_start, allocations_end)`.
#[derive(Debug, Clone)]
pub struct MemoryBlockReport {
    pub size: u64,
    pub allocations_start: usize,
    pub allocations_end: usize,
}

/// Snapshot of every live allocation and block.
#[derive(Debug, Clone)]
pub struct AllocatorReport {
    pub allocations: Vec<AllocationReport>,
    pub blocks: Vec<MemoryBlockReport>,
    /// Sum of the sizes of the live allocations.
    pub total_allocated_bytes: u64,
    /// Sum of the sizes of the live blocks.
    pub total_capacity_bytes: u64,
}

/// Sum of the sizes of a sequence of allocation reports.
pub open spec fn reports_bytes(s: Seq<AllocationReport>) -> int {
    crate::sums::sum_by(s, |r: AllocationReport| r.size as int)
}

/// Sum of the sizes of a sequence of block reports.
pub open spec fn block_reports_bytes(s: Seq<MemoryBlockReport>) -> int {
    crate::sums::sum_by(s, |r: MemoryBlockReport| r.size as int)
}

} // verus!
