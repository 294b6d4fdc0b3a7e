//! One pooled memory block: a heap handle plus the sub-allocator that
//! places allocations inside it.

use vstd::prelude::*;
use crate::sub_allocator::SubAllocator;
use crate::sub_allocator::SubAllocatorModel;
use crate::sub_allocator::sa_wf;
use crate::free_list::all_free;

verus! {

/// Ghost image of a memory block.
#[verifier::ext_equal]
pub ghost struct BlockModel {
    /// Handle of the heap backing the block; the embedding layer maps it to
    /// the real heap object.
    pub heap_id: u64,
    pub size: u64,
    pub sub: SubAllocatorModel,
}

/// Well-formedness: the recorded size is the sub-allocator's block size,
/// and a dedicated block in a pool always carries its one allocation (an
/// empty dedicated block is destroyed at once).
pub open spec fn block_wf(b: BlockModel) -> bool {
    &&& sa_wf(b.sub)
    &&& b.size == b.sub.m.block_size
    &&& b.sub.dedicated ==> !all_free(b.sub.m.chunks)
}

/// One heap of a memory type's pool with its placement strategy.
pub struct MemoryBlock {
    pub(crate) heap_id: u64,
    pub(crate) size: u64,
    pub(crate) sub_allocator: SubAllocator,
}

impl View for MemoryBlock {
    type V = BlockModel;

    open(crate) spec fn view(&self) -> BlockModel {
        BlockModel { heap_id: self.heap_id, size: self.size, sub: self.sub_allocator@ }
    }
}

impl MemoryBlock {
    /// A block over a fresh heap.  The caller has already created the heap
    /// (or charged the budget for it) and hands in its handle.
    pub(crate) fn new(heap_id: u64, size: u64, dedicated: bool) -> (r: Self)
        requires
            size >= 1,
        ensures
            sa_wf(r@.sub),
            r@.heap_id == heap_id,
            r@.size == size,
            r@.sub.dedicated == dedicated,
            r@.sub.m.block_size == size,
            r@.sub.m.next_id == 1,
            all_free(r@.sub.m.chunks),
            crate::free_list::live_bytes(r@.sub.m.chunks) == 0,
    {
        MemoryBlock { heap_id, size, sub_allocator: SubAllocator::new(size, dedicated) }
    }
}

} // verus!
