//! The sub-allocator a block owns: either the general first-fit free list
//! or the dedicated whole-block strategy.  Both share one model, the chunk
//! tiling of [`crate::free_list::FreeListModel`], so the pool logic reasons
//! about them uniformly.

use vstd::prelude::*;
use crate::dedicated::DedicatedBlockAllocator;
use crate::dedicated::ded_wf;
use crate::free_list::FreeListAllocator;
use crate::free_list::FreeListModel;
use crate::free_list::all_free;
use crate::free_list::fl_wf;
use crate::free_list::has_fit;
use crate::free_list::has_live;
use crate::free_list::is_first_fit;
use crate::free_list::live_at;
use crate::free_list::live_bytes;
use crate::free_list::live_count;
use crate::free_list::live_index_of;
use crate::free_list::merge_free_at;
use crate::free_list::spec_align_up;
use crate::free_list::split_chunks;
use crate::report::AllocationReport;
use crate::report::reports_bytes;
use crate::result::AllocationError;

verus! {

/// Ghost image of a sub-allocator: the strategy and the chunk tiling.
#[verifier::ext_equal]
pub ghost struct SubAllocatorModel {
    pub dedicated: bool,
    pub m: FreeListModel,
}

/// Strategy that places allocations inside a single block.
pub enum SubAllocator {
    Dedicated(DedicatedBlockAllocator),
    FreeList(FreeListAllocator),
}

impl View for SubAllocator {
    type V = SubAllocatorModel;

    open(crate) spec fn view(&self) -> SubAllocatorModel {
        match self {
            SubAllocator::Dedicated(d) => SubAllocatorModel { dedicated: true, m: d@ },
            SubAllocator::FreeList(f) => SubAllocatorModel { dedicated: false, m: f@ },
        }
    }
}

/// Well-formedness of a sub-allocator.
pub open spec fn sa_wf(m: SubAllocatorModel) -> bool {
    &&& fl_wf(m.m)
    &&& (m.dedicated ==> ded_wf(m.m))
}

/// Whether the sub-allocator can take the request in its current state.
pub open spec fn sa_can_take(m: SubAllocatorModel, size: u64, alignment: u64) -> bool {
    if m.dedicated {
        all_free(m.m.chunks) && size == m.m.block_size
    } else {
        has_fit(m.m.chunks, size, alignment)
    }
}

/// Whether the sub-allocator reports out-of-memory for the request.
pub open spec fn sa_oom(m: SubAllocatorModel, size: u64, alignment: u64) -> bool {
    if m.dedicated {
        !all_free(m.m.chunks)
    } else {
        !has_fit(m.m.chunks, size, alignment)
    }
}

/// What holds after a sub-allocator placed a request: state `m0` became
/// `m1`, handing out `offset` and the fresh chunk id `id`.
pub open spec fn sa_alloc_ok(
    m0: SubAllocatorModel,
    m1: SubAllocatorModel,
    offset: u64,
    id: u64,
    size: u64,
    alignment: u64,
) -> bool {
    &&& m1.dedicated == m0.dedicated
    &&& m1.m.block_size == m0.m.block_size
    &&& id == m0.m.next_id
    &&& m1.m.next_id == m0.m.next_id + 1
    &&& offset % alignment == 0
    &&& offset + size <= m0.m.block_size
    &&& exists|i: int|
        #![trigger is_first_fit(m0.m.chunks, size, alignment, i)]
        ({
            &&& is_first_fit(m0.m.chunks, size, alignment, i)
            &&& offset == spec_align_up(m0.m.chunks[i].offset, alignment)
            &&& m1.m.chunks == split_chunks(m0.m.chunks, i, offset, size, id)
        })
    &&& live_bytes(m1.m.chunks) == live_bytes(m0.m.chunks) + size
    &&& has_live(m1.m.chunks, id)
    &&& live_at(m1.m.chunks, id, offset, size)
    &&& !has_live(m0.m.chunks, id)
    &&& (m0.dedicated ==> size == m0.m.block_size)
}

/// What holds after a sub-allocator refused a request: the state is
/// untouched, out-of-memory is reported exactly per [`sa_oom`], and any
/// other failure is internal (an exhausted id space, or a dedicated request
/// that is not the whole block).
pub open spec fn sa_alloc_err(
    m0: SubAllocatorModel,
    m1: SubAllocatorModel,
    e: AllocationError,
    size: u64,
    alignment: u64,
) -> bool {
    &&& m1 == m0
    &&& (e == AllocationError::OutOfMemory <==> sa_oom(m0, size, alignment))
    &&& (e != AllocationError::OutOfMemory ==> e matches AllocationError::Internal(_))
    &&& (e != AllocationError::OutOfMemory ==> (if m0.dedicated {
        all_free(m0.m.chunks) && size != m0.m.block_size
    } else {
        m0.m.next_id == u64::MAX
    }))
}

/// What holds after a live chunk was given back: it is merged into the
/// free space and its id is gone.
pub open spec fn sa_free_ok(m0: SubAllocatorModel, m1: SubAllocatorModel, id: u64) -> bool {
    &&& m1.dedicated == m0.dedicated
    &&& m1.m.block_size == m0.m.block_size
    &&& has_live(m0.m.chunks, id)
    &&& m1.m.chunks == merge_free_at(m0.m.chunks, live_index_of(m0.m.chunks, id))
    &&& m1.m.next_id == (if m0.dedicated {
        1u64
    } else {
        m0.m.next_id
    })
    &&& live_bytes(m1.m.chunks) == live_bytes(m0.m.chunks) - m0.m.chunks[live_index_of(
        m0.m.chunks,
        id,
    )].size
    &&& !has_live(m1.m.chunks, id)
}

impl SubAllocator {
    /// A fresh sub-allocator for a block of `size` bytes.
    pub fn new(size: u64, dedicated: bool) -> (r: Self)
        requires
            size >= 1,
        ensures
            sa_wf(r@),
            r@.dedicated == dedicated,
            r@.m.block_size == size,
            r@.m.next_id == 1,
            all_free(r@.m.chunks),
            live_bytes(r@.m.chunks) == 0,
    {
        if dedicated {
            SubAllocator::Dedicated(DedicatedBlockAllocator::new(size))
        } else {
            SubAllocator::FreeList(FreeListAllocator::new(size))
        }
    }

    /// Place `size` bytes at `alignment` inside the block.
    ///
    /// Reports `OutOfMemory` exactly when the state has no room for the
    /// request (see [`sa_oom`]); any other failure is internal: an exhausted
    /// id space, or a dedicated request that is not the whole block.
    pub fn allocate(&mut self, size: u64, alignment: u64, name: &str) -> (r: Result<
        (u64, u64),
        AllocationError,
    >)
        requires
            sa_wf(old(self)@),
            size >= 1,
            alignment >= 1,
        ensures
            sa_wf(final(self)@),
            match r {
                Ok(ret) => sa_alloc_ok(old(self)@, final(self)@, ret.0, ret.1, size, alignment),
                Err(e) => sa_alloc_err(old(self)@, final(self)@, e, size, alignment),
            },
            sa_can_take(old(self)@, size, alignment) && old(self)@.m.next_id < u64::MAX ==> r
                is Ok,
    {
        match self {
            SubAllocator::Dedicated(d) => {
                let r = d.allocate(size, alignment, name);
                proof {
                    if r is Ok {
                        assert(is_first_fit(old(self)@.m.chunks, size, alignment, 0));
                    }
                }
                r
            },
            SubAllocator::FreeList(f) => f.allocate(size, alignment, name),
        }
    }

    /// Return chunk `chunk_id` to the free state.
    pub fn free(&mut self, chunk_id: Option<u64>) -> (r: Result<(), AllocationError>)
        requires
            sa_wf(old(self)@),
        ensures
            sa_wf(final(self)@),
            match chunk_id {
                None => r is Err && final(self)@ == old(self)@,
                Some(id) => {
                    if has_live(old(self)@.m.chunks, id) {
                        r is Ok && sa_free_ok(old(self)@, final(self)@, id)
                    } else {
                        r is Err && final(self)@ == old(self)@
                    }
                },
            },
            r is Err ==> r matches Err(AllocationError::Internal(_)),
    {
        match self {
            SubAllocator::Dedicated(d) => d.free(chunk_id),
            SubAllocator::FreeList(f) => f.free(chunk_id),
        }
    }

    /// Update the advisory display name of a live chunk.
    pub fn rename_allocation(&mut self, chunk_id: Option<u64>, name: &str) -> (r: Result<
        (),
        AllocationError,
    >)
        requires
            sa_wf(old(self)@),
        ensures
            final(self)@ == old(self)@,
            match chunk_id {
                Some(id) => r is Ok <==> has_live(old(self)@.m.chunks, id),
                None => r is Err,
            },
            r is Err ==> r matches Err(AllocationError::Internal(_)),
    {
        match self {
            SubAllocator::Dedicated(d) => d.rename_allocation(chunk_id, name),
            SubAllocator::FreeList(f) => f.rename_allocation(chunk_id, name),
        }
    }

    /// True exactly when no live allocation remains in the block.
    pub fn is_empty(&self) -> (r: bool)
        requires
            sa_wf(self@),
        ensures
            r == all_free(self@.m.chunks),
    {
        match self {
            SubAllocator::Dedicated(d) => d.is_empty(),
            SubAllocator::FreeList(f) => f.is_empty(),
        }
    }

    /// Whether the strategy can hold several allocations; false for the
    /// dedicated whole-block strategy.
    pub fn supports_general_allocations(&self) -> (r: bool)
        ensures
            r == !self@.dedicated,
    {
        match self {
            SubAllocator::Dedicated(_) => false,
            SubAllocator::FreeList(_) => true,
        }
    }

    /// Append one report entry per live chunk.
    pub fn append_reports(&self, out: &mut Vec<AllocationReport>)
        requires
            sa_wf(self@),
        ensures
            final(out)@.len() == old(out)@.len() + live_count(self@.m.chunks),
            reports_bytes(final(out)@) == reports_bytes(old(out)@) + live_bytes(self@.m.chunks),
            forall|k: int| 0 <= k < old(out)@.len() ==> #[trigger] final(out)@[k] == old(out)@[k],
            forall|k: int|
                old(out)@.len() <= k < final(out)@.len() ==> exists|j: int|
                    0 <= j < self@.m.chunks.len() && !(#[trigger] self@.m.chunks[j]).free
                        && (#[trigger] final(out)@[k]).offset == self@.m.chunks[j].offset
                        && final(out)@[k].size == self@.m.chunks[j].size,
    {
        match self {
            SubAllocator::Dedicated(d) => d.append_reports(out),
            SubAllocator::FreeList(f) => f.append_reports(out),
        }
    }
}

} // verus!
