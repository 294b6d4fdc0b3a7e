//! A memory type: the pool of blocks for one (residency, category,
//! heap-properties) triple, with the policy for picking, creating and
//! retiring blocks.

use vstd::prelude::*;
use crate::block::BlockModel;
use crate::block::MemoryBlock;
use crate::block::block_wf;
use crate::config::AllocationSizes;
use crate::config::MemoryLocation;
use crate::device::HeapProperties;
use crate::free_list::FreeListModel;
use crate::free_list::all_free;
use crate::free_list::has_live;
use crate::free_list::live_at;
use crate::free_list::live_bytes;
use crate::free_list::live_count;
use crate::free_list::live_index_of;
use crate::free_list::merge_free_at;
use crate::report::AllocationReport;
use crate::report::reports_bytes;
use crate::result::AllocationError;
use crate::sub_allocator::SubAllocatorModel;
use crate::sub_allocator::sa_alloc_err;
use crate::sub_allocator::sa_alloc_ok;
use crate::sub_allocator::sa_can_take;
use crate::sub_allocator::sa_free_ok;
use crate::sub_allocator::sa_wf;
use crate::sums::lemma_sum_by_bound;
use crate::sums::lemma_sum_by_nonneg;
use crate::sums::lemma_sum_by_push;
use crate::sums::lemma_sum_by_update;
use crate::sums::sum_by;
use crate::types::Allocation;
use crate::types::AllocationCreateDesc;
use crate::types::AllocationModel;
use crate::types::CommittedAllocationStatistics;
use crate::types::HeapCategory;

verus! {

/// Ghost image of a memory type.
#[verifier::ext_equal]
pub ghost struct MemoryTypeModel {
    /// Block slots; `None` is a tombstone kept so that the indices stored in
    /// outstanding allocation tokens stay valid.
    pub blocks: Seq<Option<BlockModel>>,
    pub committed_allocations: CommittedAllocationStatistics,
    pub memory_location: MemoryLocation,
    pub heap_category: HeapCategory,
    pub heap_properties: HeapProperties,
    pub memory_type_index: usize,
    pub active_general_blocks: usize,
}

/// Capacity a slot contributes.
pub open spec fn block_capacity(ob: Option<BlockModel>) -> int {
    match ob {
        Some(b) => b.size as int,
        None => 0,
    }
}

/// Live allocation bytes a slot contributes.
pub open spec fn block_live(ob: Option<BlockModel>) -> int {
    match ob {
        Some(b) => live_bytes(b.sub.m.chunks),
        None => 0,
    }
}

/// Live allocation count a slot contributes.
pub open spec fn block_live_count(ob: Option<BlockModel>) -> int {
    match ob {
        Some(b) => live_count(b.sub.m.chunks),
        None => 0,
    }
}

/// 1 for a general (non-dedicated) block.
pub open spec fn block_general(ob: Option<BlockModel>) -> int {
    match ob {
        Some(b) => if b.sub.dedicated {
            0
        } else {
            1
        },
        None => 0,
    }
}

/// 1 for an empty general block.
pub open spec fn block_empty_general(ob: Option<BlockModel>) -> int {
    match ob {
        Some(b) => if !b.sub.dedicated && all_free(b.sub.m.chunks) {
            1
        } else {
            0
        },
        None => 0,
    }
}

/// Sum of the live blocks' sizes.
pub open spec fn type_capacity(blocks: Seq<Option<BlockModel>>) -> int {
    sum_by(blocks, |ob: Option<BlockModel>| block_capacity(ob))
}

/// Sum of the live allocations' bytes over all blocks.
pub open spec fn type_live(blocks: Seq<Option<BlockModel>>) -> int {
    sum_by(blocks, |ob: Option<BlockModel>| block_live(ob))
}

/// Number of live allocations over all blocks.
pub open spec fn type_live_count(blocks: Seq<Option<BlockModel>>) -> int {
    sum_by(blocks, |ob: Option<BlockModel>| block_live_count(ob))
}

/// Number of general blocks.
pub open spec fn type_general(blocks: Seq<Option<BlockModel>>) -> int {
    sum_by(blocks, |ob: Option<BlockModel>| block_general(ob))
}

/// Number of empty general blocks.
pub open spec fn type_empty_general(blocks: Seq<Option<BlockModel>>) -> int {
    sum_by(blocks, |ob: Option<BlockModel>| block_empty_general(ob))
}

/// Well-formedness of a memory type: every block is wellformed, the general
/// block counter is exact, and at most one empty general block is retained.
pub open spec fn mt_wf(t: MemoryTypeModel) -> bool {
    &&& forall|i: int|
        0 <= i < t.blocks.len() ==> (match #[trigger] t.blocks[i] {
            Some(b) => block_wf(b),
            None => true,
        })
    &&& t.active_general_blocks as int == type_general(t.blocks)
    &&& type_empty_general(t.blocks) <= 1
}

/// The token the caller receives points at a live chunk of the block it
/// names, aligned and in bounds.
pub open spec fn token_matches(
    t: MemoryTypeModel,
    alloc: AllocationModel,
    size: u64,
    alignment: u64,
) -> bool {
    &&& alloc.memory_type_index == t.memory_type_index
    &&& alloc.chunk_id is Some
    &&& alloc.size == size
    &&& alloc.offset % alignment == 0
    &&& 0 <= alloc.memory_block_index < t.blocks.len()
    &&& t.blocks[alloc.memory_block_index as int] matches Some(b) && ({
        &&& alloc.heap_id == b.heap_id
        &&& alloc.offset + size <= b.size
        &&& (alloc.chunk_id matches Some(cid) && live_at(b.sub.m.chunks, cid, alloc.offset, size))
    })
}

/// A fresh dedicated block of exactly `size` bytes took the request,
/// sitting in the lowest tombstone slot or appended at the end.
pub open spec fn placed_dedicated(t0: MemoryTypeModel, t1: MemoryTypeModel, bi: int, size: u64) -> bool {
    &&& ((bi == t0.blocks.len() && t1.blocks == t0.blocks.push(t1.blocks[bi])) || (bi
        < t0.blocks.len() && t0.blocks[bi] is None && (forall|j: int|
        0 <= j < bi ==> #[trigger] t0.blocks[j] is Some) && t1.blocks == t0.blocks.update(
        bi,
        t1.blocks[bi],
    )))
    &&& t1.blocks[bi] matches Some(b) && b.sub.dedicated && b.size == size
    &&& t1.active_general_blocks == t0.active_general_blocks
}

/// An existing general block took the request; no block after it (the scan
/// runs from the newest block backwards) could have taken it.
pub open spec fn placed_pooled(
    t0: MemoryTypeModel,
    t1: MemoryTypeModel,
    bi: int,
    size: u64,
    alignment: u64,
) -> bool {
    &&& 0 <= bi < t0.blocks.len()
    &&& t0.blocks[bi] matches Some(b0) && t1.blocks[bi] matches Some(b1) && ({
        &&& !b0.sub.dedicated
        &&& b1.heap_id == b0.heap_id
        &&& b1.size == b0.size
        &&& !b1.sub.dedicated
    })
    &&& t1.blocks == t0.blocks.update(bi, t1.blocks[bi])
    &&& forall|j: int|
        bi < j < t0.blocks.len() ==> (match #[trigger] t0.blocks[j] {
            Some(b) => !sa_can_take(b.sub, size, alignment),
            None => true,
        })
    &&& t1.active_general_blocks == t0.active_general_blocks
}

/// A fresh general block of `memblock_size` bytes took the request, sitting
/// in the highest tombstone slot or appended; no existing block could have
/// taken it.
pub open spec fn placed_growth(
    t0: MemoryTypeModel,
    t1: MemoryTypeModel,
    bi: int,
    memblock_size: u64,
    size: u64,
    alignment: u64,
) -> bool {
    &&& ((bi == t0.blocks.len() && t1.blocks == t0.blocks.push(t1.blocks[bi])) || (bi
        < t0.blocks.len() && t0.blocks[bi] is None && (forall|j: int|
        bi < j < t0.blocks.len() ==> #[trigger] t0.blocks[j] is Some) && t1.blocks
        == t0.blocks.update(bi, t1.blocks[bi])))
    &&& t1.blocks[bi] matches Some(b) && !b.sub.dedicated && b.size == memblock_size
    &&& forall|j: int|
        0 <= j < t0.blocks.len() ==> (match #[trigger] t0.blocks[j] {
            Some(b) => !sa_can_take(b.sub, size, alignment),
            None => true,
        })
    &&& t1.active_general_blocks == t0.active_general_blocks + 1
}

/// No block of the pool can take the request right now.
pub open spec fn no_block_can_take(t: MemoryTypeModel, size: u64, alignment: u64) -> bool {
    forall|j: int|
        0 <= j < t.blocks.len() ==> (match #[trigger] t.blocks[j] {
            Some(b) => !sa_can_take(b.sub, size, alignment),
            None => true,
        })
}

/// Some block could take the request but its chunk-id space is exhausted.
pub open spec fn some_block_exhausted(t: MemoryTypeModel, size: u64, alignment: u64) -> bool {
    exists|j: int|
        0 <= j < t.blocks.len() && ((#[trigger] t.blocks[j]) matches Some(b) && sa_can_take(
            b.sub,
            size,
            alignment,
        ) && b.sub.m.next_id == u64::MAX)
}

/// No block's chunk-id space is exhausted.
pub open spec fn no_block_exhausted(t: MemoryTypeModel) -> bool {
    forall|j: int|
        0 <= j < t.blocks.len() ==> (match #[trigger] t.blocks[j] {
            Some(b) => b.sub.m.next_id < u64::MAX,
            None => true,
        })
}

/// The chunk id names a live chunk of the block at `block_idx`.
pub open spec fn live_chunk_in_block(
    t: MemoryTypeModel,
    block_idx: int,
    chunk_id: Option<u64>,
) -> bool {
    &&& 0 <= block_idx < t.blocks.len()
    &&& t.blocks[block_idx] matches Some(b) && (chunk_id matches Some(id) && has_live(
        b.sub.m.chunks,
        id,
    ))
}

/// A token that names a live chunk of a live block of this type; freeing
/// succeeds exactly for these.
pub open spec fn valid_free_token(t: MemoryTypeModel, a: AllocationModel) -> bool {
    &&& a.chunk_id is Some
    &&& a.memory_block_index < t.blocks.len()
    &&& t.blocks[a.memory_block_index as int] matches Some(b) && has_live(
        b.sub.m.chunks,
        a.chunk_id->Some_0,
    )
}

/// State after freeing chunk `cid` of block `bi`: the chunk is merged back,
/// and the block is destroyed exactly when it became empty and is either
/// dedicated or not the last general block.
pub open spec fn freed_outcome(t0: MemoryTypeModel, t1: MemoryTypeModel, bi: int, cid: u64) -> bool {
    t0.blocks[bi] matches Some(b0) && ({
        let j = live_index_of(b0.sub.m.chunks, cid);
        let after = merge_free_at(b0.sub.m.chunks, j);
        let destroy = all_free(after) && (b0.sub.dedicated || t0.active_general_blocks > 1);
        if destroy {
            &&& t1.blocks == t0.blocks.update(bi, None)
            &&& t1.active_general_blocks as int == t0.active_general_blocks as int - (
            if b0.sub.dedicated {
                0int
            } else {
                1int
            })
        } else {
            &&& t1.blocks == t0.blocks.update(
                bi,
                Some(
                    BlockModel {
                        heap_id: b0.heap_id,
                        size: b0.size,
                        sub: SubAllocatorModel {
                            dedicated: b0.sub.dedicated,
                            m: FreeListModel {
                                block_size: b0.sub.m.block_size,
                                next_id: if b0.sub.dedicated {
                                    1u64
                                } else {
                                    b0.sub.m.next_id
                                },
                                chunks: after,
                            },
                        },
                    },
                ),
            )
            &&& t1.active_general_blocks == t0.active_general_blocks
        }
    })
}

/// The per-type sums after replacing one slot.
pub proof fn lemma_type_sums_update(blocks: Seq<Option<BlockModel>>, i: int, v: Option<BlockModel>)
    requires
        0 <= i < blocks.len(),
    ensures
        type_capacity(blocks.update(i, v)) == type_capacity(blocks) - block_capacity(blocks[i])
            + block_capacity(v),
        type_live(blocks.update(i, v)) == type_live(blocks) - block_live(blocks[i])
            + block_live(v),
        type_live_count(blocks.update(i, v)) == type_live_count(blocks) - block_live_count(
            blocks[i],
        ) + block_live_count(v),
        type_general(blocks.update(i, v)) == type_general(blocks) - block_general(blocks[i])
            + block_general(v),
        type_empty_general(blocks.update(i, v)) == type_empty_general(blocks)
            - block_empty_general(blocks[i]) + block_empty_general(v),
{
    lemma_sum_by_update(blocks, i, v, |ob: Option<BlockModel>| block_capacity(ob));
    lemma_sum_by_update(blocks, i, v, |ob: Option<BlockModel>| block_live(ob));
    lemma_sum_by_update(blocks, i, v, |ob: Option<BlockModel>| block_live_count(ob));
    lemma_sum_by_update(blocks, i, v, |ob: Option<BlockModel>| block_general(ob));
    lemma_sum_by_update(blocks, i, v, |ob: Option<BlockModel>| block_empty_general(ob));
}

/// The per-type sums after appending a slot.
pub proof fn lemma_type_sums_push(blocks: Seq<Option<BlockModel>>, v: Option<BlockModel>)
    ensures
        type_capacity(blocks.push(v)) == type_capacity(blocks) + block_capacity(v),
        type_live(blocks.push(v)) == type_live(blocks) + block_live(v),
        type_live_count(blocks.push(v)) == type_live_count(blocks) + block_live_count(v),
        type_general(blocks.push(v)) == type_general(blocks) + block_general(v),
        type_empty_general(blocks.push(v)) == type_empty_general(blocks) + block_empty_general(v),
{
    crate::sums::lemma_sum_by_push(blocks, v, |ob: Option<BlockModel>| block_capacity(ob));
    crate::sums::lemma_sum_by_push(blocks, v, |ob: Option<BlockModel>| block_live(ob));
    crate::sums::lemma_sum_by_push(blocks, v, |ob: Option<BlockModel>| block_live_count(ob));
    crate::sums::lemma_sum_by_push(blocks, v, |ob: Option<BlockModel>| block_general(ob));
    crate::sums::lemma_sum_by_push(blocks, v, |ob: Option<BlockModel>| block_empty_general(ob));
}

/// General blocks are counted by a 0/1 measure: bounds on the counter.
pub proof fn lemma_type_general_bounds(blocks: Seq<Option<BlockModel>>)
    ensures
        0 <= type_general(blocks) <= blocks.len(),
        0 <= type_empty_general(blocks),
        type_empty_general(blocks) <= type_general(blocks),
{
    crate::sums::lemma_sum_by_units(blocks, |ob: Option<BlockModel>| block_general(ob));
    crate::sums::lemma_sum_by_units(blocks, |ob: Option<BlockModel>| block_empty_general(ob));
    crate::sums::lemma_sum_by_le(
        blocks,
        |ob: Option<BlockModel>| block_empty_general(ob),
        |ob: Option<BlockModel>| block_general(ob),
    );
}

/// With one slot empty, the general blocks number below the slot count.
pub proof fn lemma_type_general_gap(blocks: Seq<Option<BlockModel>>, i: int)
    requires
        0 <= i < blocks.len(),
        blocks[i] is None,
    ensures
        type_general(blocks) <= blocks.len() - 1,
{
    crate::sums::lemma_sum_by_units_gap(blocks, |ob: Option<BlockModel>| block_general(ob), i);
}

/// Round trip of an oversize request: the dedicated block a request
/// created is destroyed again by the matching free.  The memory type comes
/// back byte-identical, except that a tombstone slot may remain where the
/// block sat.
#[verifier::rlimit(100)]
#[verifier::spinoff_prover]
pub proof fn lemma_dedicated_round_trip(
    t0: MemoryTypeModel,
    t1: MemoryTypeModel,
    t2: MemoryTypeModel,
    alloc: AllocationModel,
    size: u64,
    alignment: u64,
)
    requires
        mt_wf(t0),
        mt_wf(t1),
        placed_dedicated(t0, t1, alloc.memory_block_index as int, size),
        token_matches(t1, alloc, size, alignment),
        freed_outcome(t1, t2, alloc.memory_block_index as int, alloc.chunk_id->Some_0),
    ensures
        type_capacity(t2.blocks) == type_capacity(t0.blocks),
        t2.active_general_blocks == t0.active_general_blocks,
        alloc.memory_block_index < t0.blocks.len() ==> t2.blocks == t0.blocks,
        alloc.memory_block_index as int == t0.blocks.len() ==> t2.blocks == t0.blocks.push(None),
{
    let bi = alloc.memory_block_index as int;
    let cid = alloc.chunk_id->Some_0;
    let b1 = t1.blocks[bi]->Some_0;
    // the dedicated block holds exactly the carved chunk
    assert(block_wf(b1));
    assert(crate::dedicated::ded_wf(b1.sub.m));
    assert(b1.sub.m.chunks.len() == 1);
    let w = choose|i: int|
        0 <= i < b1.sub.m.chunks.len() && !(#[trigger] b1.sub.m.chunks[i]).free
            && b1.sub.m.chunks[i].id == cid;
    assert(w == 0);
    let j = live_index_of(b1.sub.m.chunks, cid);
    assert(!b1.sub.m.chunks[j].free && b1.sub.m.chunks[j].id == cid);
    assert(j == 0);
    // freeing it empties the block, so the retention rule destroys it
    crate::free_list::lemma_merge_parts(b1.sub.m.chunks, 0);
    let after = merge_free_at(b1.sub.m.chunks, 0);
    assert(after.len() == 1 && after[0].free);
    assert forall|k: int| 0 <= k < after.len() implies (#[trigger] after[k]).free by {
        assert(k == 0);
    }
    assert(all_free(after));
    assert(t2.blocks == t1.blocks.update(bi, None));
    lemma_type_sums_update(t1.blocks, bi, None);
    if bi < t0.blocks.len() {
        lemma_type_sums_update(t0.blocks, bi, t1.blocks[bi]);
        assert(t2.blocks =~= t0.blocks);
    } else {
        lemma_type_sums_push(t0.blocks, t1.blocks[bi]);
        assert(t2.blocks =~= t0.blocks.push(None));
        lemma_type_sums_push(t0.blocks, None);
    }
}

/// Retention: a wellformed memory type retains at most one empty general
/// block, whatever sequence of allocations and frees produced it.
pub proof fn lemma_retention(t: MemoryTypeModel)
    requires
        mt_wf(t),
    ensures
        type_empty_general(t.blocks) <= 1,
{
}

/// A bucket of blocks sharing one (residency, category, heap-properties)
/// triple, fixed for the bucket's lifetime.
pub struct MemoryType {
    pub(crate) memory_blocks: Vec<Option<MemoryBlock>>,
    pub(crate) committed_allocations: CommittedAllocationStatistics,
    pub(crate) memory_location: MemoryLocation,
    pub(crate) heap_category: HeapCategory,
    pub(crate) heap_properties: HeapProperties,
    pub(crate) memory_type_index: usize,
    pub(crate) active_general_blocks: usize,
}

impl View for MemoryType {
    type V = MemoryTypeModel;

    open(crate) spec fn view(&self) -> MemoryTypeModel {
        MemoryTypeModel {
            blocks: self.memory_blocks@.map_values(
                |ob: Option<MemoryBlock>|
                    match ob {
                        Some(b) => Some(b@),
                        None => None,
                    },
            ),
            committed_allocations: self.committed_allocations,
            memory_location: self.memory_location,
            heap_category: self.heap_category,
            heap_properties: self.heap_properties,
            memory_type_index: self.memory_type_index,
            active_general_blocks: self.active_general_blocks,
        }
    }
}

impl MemoryType {
    /// An empty bucket for the given triple.
    pub(crate) fn new(
        memory_location: MemoryLocation,
        heap_category: HeapCategory,
        heap_properties: HeapProperties,
        memory_type_index: usize,
    ) -> (r: Self)
        ensures
            mt_wf(r@),
            r@.blocks.len() == 0,
            r@.memory_location == memory_location,
            r@.heap_category == heap_category,
            r@.heap_properties == heap_properties,
            r@.memory_type_index == memory_type_index,
            r@.active_general_blocks == 0,
            r@.committed_allocations == (CommittedAllocationStatistics {
                num_allocations: 0,
                total_size: 0,
            }),
            type_capacity(r@.blocks) == 0,
            type_live(r@.blocks) == 0,
    {
        let r = MemoryType {
            memory_blocks: Vec::new(),
            committed_allocations: CommittedAllocationStatistics {
                num_allocations: 0,
                total_size: 0,
            },
            memory_location,
            heap_category,
            heap_properties,
            memory_type_index,
            active_general_blocks: 0,
        };
        proof {
            assert(r@.blocks =~= Seq::<Option<BlockModel>>::empty());
        }
        r
    }

    /// Try to place the request inside the block at slot `idx`.
    fn allocate_in_block(&mut self, idx: usize, size: u64, alignment: u64, name: &str) -> (r:
        Result<(u64, u64), AllocationError>)
        requires
            idx < old(self)@.blocks.len(),
            old(self)@.blocks[idx as int] matches Some(b) && sa_wf(b.sub),
            size >= 1,
            alignment >= 1,
        ensures
            final(self)@.blocks.len() == old(self)@.blocks.len(),
            forall|j: int|
                0 <= j < old(self)@.blocks.len() && j != idx ==> #[trigger] final(self)@.blocks[j]
                    == old(self)@.blocks[j],
            final(self)@.committed_allocations == old(self)@.committed_allocations,
            final(self)@.memory_location == old(self)@.memory_location,
            final(self)@.heap_category == old(self)@.heap_category,
            final(self)@.heap_properties == old(self)@.heap_properties,
            final(self)@.memory_type_index == old(self)@.memory_type_index,
            final(self)@.active_general_blocks == old(self)@.active_general_blocks,
            old(self)@.blocks[idx as int] matches Some(b0) && final(self)@.blocks[idx as int]
                matches Some(b1) && ({
                &&& b1.heap_id == b0.heap_id
                &&& b1.size == b0.size
                &&& sa_wf(b1.sub)
                &&& match r {
                    Ok(ret) => sa_alloc_ok(b0.sub, b1.sub, ret.0, ret.1, size, alignment),
                    Err(e) => sa_alloc_err(b0.sub, b1.sub, e, size, alignment),
                }
                &&& (sa_can_take(b0.sub, size, alignment) && b0.sub.m.next_id < u64::MAX ==> r
                    is Ok)
            }),
    {
        let ghost t0 = self@;
        let n = self.memory_blocks.len();
        assert(idx < n);
        let ob = &mut self.memory_blocks[idx];
        match ob {
            Some(block) => {
                proof {
                    assert(t0.blocks[idx as int] == Some((*block)@));
                }
                let r = block.sub_allocator.allocate(size, alignment, name);
                proof {
                    assert(final(self)@.blocks =~= t0.blocks.update(
                        idx as int,
                        final(self)@.blocks[idx as int],
                    ));
                }
                r
            },
            None => {
                proof {
                    assert(t0.blocks[idx as int] is Some);
                    assert(false);
                }
                vstd::pervasive::unreached()
            },
        }
    }

    /// Give chunk `chunk_id` of the block at slot `idx` back.
    fn free_in_block(&mut self, idx: usize, chunk_id: Option<u64>) -> (r: Result<
        (),
        AllocationError,
    >)
        requires
            idx < old(self)@.blocks.len(),
            old(self)@.blocks[idx as int] matches Some(b) && sa_wf(b.sub),
        ensures
            final(self)@.blocks.len() == old(self)@.blocks.len(),
            forall|j: int|
                0 <= j < old(self)@.blocks.len() && j != idx ==> #[trigger] final(self)@.blocks[j]
                    == old(self)@.blocks[j],
            final(self)@.committed_allocations == old(self)@.committed_allocations,
            final(self)@.memory_location == old(self)@.memory_location,
            final(self)@.heap_category == old(self)@.heap_category,
            final(self)@.heap_properties == old(self)@.heap_properties,
            final(self)@.memory_type_index == old(self)@.memory_type_index,
            final(self)@.active_general_blocks == old(self)@.active_general_blocks,
            old(self)@.blocks[idx as int] matches Some(b0) && final(self)@.blocks[idx as int]
                matches Some(b1) && ({
                &&& b1.heap_id == b0.heap_id
                &&& b1.size == b0.size
                &&& sa_wf(b1.sub)
                &&& match chunk_id {
                    None => r is Err && b1 == b0,
                    Some(id) => {
                        if has_live(b0.sub.m.chunks, id) {
                            r is Ok && sa_free_ok(b0.sub, b1.sub, id)
                        } else {
                            r is Err && b1 == b0
                        }
                    },
                }
                &&& (r is Err ==> r matches Err(AllocationError::Internal(_)))
            }),
    {
        let ghost t0 = self@;
        let n = self.memory_blocks.len();
        assert(idx < n);
        let ob = &mut self.memory_blocks[idx];
        match ob {
            Some(block) => {
                proof {
                    assert(t0.blocks[idx as int] == Some((*block)@));
                }
                let r = block.sub_allocator.free(chunk_id);
                proof {
                    assert(final(self)@.blocks =~= t0.blocks.update(
                        idx as int,
                        final(self)@.blocks[idx as int],
                    ));
                }
                r
            },
            None => {
                proof {
                    assert(t0.blocks[idx as int] is Some);
                    assert(false);
                }
                vstd::pervasive::unreached()
            },
        }
    }

    /// Create a dedicated block sized to the request, place it in the
    /// lowest free slot (or append it), and hand the whole block out.
    #[verifier::rlimit(100)]
    #[verifier::spinoff_prover]
    fn allocate_dedicated(
        &mut self,
        desc: &AllocationCreateDesc,
        heap_in_use: &mut u64,
        budget: u64,
        next_heap_id: &mut u64,
    ) -> (r: Result<Allocation, AllocationError>)
        requires
            mt_wf(old(self)@),
            desc.size >= 1,
            desc.alignment >= 1,
            *old(heap_in_use) <= budget,
        ensures
            mt_wf(final(self)@),
            final(self)@.memory_location == old(self)@.memory_location,
            final(self)@.heap_category == old(self)@.heap_category,
            final(self)@.heap_properties == old(self)@.heap_properties,
            final(self)@.memory_type_index == old(self)@.memory_type_index,
            final(self)@.committed_allocations == old(self)@.committed_allocations,
            *final(heap_in_use) <= budget,
            type_capacity(final(self)@.blocks) - type_capacity(old(self)@.blocks)
                == *final(heap_in_use) - *old(heap_in_use),
            match r {
                Ok(alloc) => ({
                    &&& token_matches(final(self)@, alloc@, desc.size, desc.alignment)
                    &&& alloc@.offset == 0
                    &&& alloc@.heap_id == *old(next_heap_id)
                    &&& type_live(final(self)@.blocks) == type_live(old(self)@.blocks) + desc.size
                    &&& forall|j: int|
                        0 <= j < old(self)@.blocks.len() && j != alloc@.memory_block_index
                            ==> #[trigger] final(self)@.blocks[j] == old(self)@.blocks[j]
                    &&& placed_dedicated(
                        old(self)@,
                        final(self)@,
                        alloc@.memory_block_index as int,
                        desc.size,
                    )
                    &&& *final(heap_in_use) == *old(heap_in_use) + desc.size
                    &&& *final(next_heap_id) == *old(next_heap_id) + 1
                }),
                Err(e) => ({
                    &&& final(self)@ == old(self)@
                    &&& *final(heap_in_use) == *old(heap_in_use)
                    &&& *final(next_heap_id) == *old(next_heap_id)
                    &&& (e == AllocationError::OutOfMemory <==> budget - *old(heap_in_use)
                        < desc.size)
                    &&& (e != AllocationError::OutOfMemory ==> (e
                        matches AllocationError::Internal(_) && *old(next_heap_id) == u64::MAX))
                }),
            },
    {
        let ghost t0 = self@;
        let size = desc.size;
        if budget - *heap_in_use < size {
            return Err(AllocationError::OutOfMemory);
        }
        if *next_heap_id == u64::MAX {
            return Err(AllocationError::Internal("Heap handle space exhausted.".to_owned()));
        }
        let heap_id = *next_heap_id;
        *next_heap_id = heap_id + 1;
        *heap_in_use = *heap_in_use + size;
        let mut block = MemoryBlock::new(heap_id, size, true);
        let alloc_res = block.sub_allocator.allocate(size, desc.alignment, desc.name.as_str());
        let (offset, chunk_id) = match alloc_res {
            Ok(v) => v,
            Err(_) => {
                proof {
                    assert(false);
                }
                vstd::pervasive::unreached()
            },
        };
        let ghost nbm = block@;
        // place it in the lowest tombstone slot, else append
        let n = self.memory_blocks.len();
        let mut i: usize = 0;
        let mut slot: Option<usize> = None;
        while i < n
            invariant
                *self == *old(self),
                t0 == self@,
                n == self.memory_blocks@.len(),
                i <= n,
                slot is None ==> forall|j: int| 0 <= j < i ==> #[trigger] t0.blocks[j] is Some,
                slot matches Some(s) ==> (s < i && t0.blocks[s as int] is None && (forall|j: int|
                    0 <= j < s ==> #[trigger] t0.blocks[j] is Some)),
            decreases n - i,
        {
            if self.memory_blocks[i].is_none() {
                proof {
                    assert(t0.blocks[i as int] is None);
                }
                if slot.is_none() {
                    slot = Some(i);
                }
            } else {
                proof {
                    assert(t0.blocks[i as int] is Some);
                }
            }
            i += 1;
        }
        let block_index: usize = match slot {
            Some(s) => {
                self.memory_blocks[s] = Some(block);
                s
            },
            None => {
                self.memory_blocks.push(Some(block));
                n
            },
        };
        proof {
            if block_index < t0.blocks.len() {
                assert(self@.blocks =~= t0.blocks.update(block_index as int, Some(nbm)));
                lemma_type_sums_update(t0.blocks, block_index as int, Some(nbm));
            } else {
                assert(self@.blocks =~= t0.blocks.push(Some(nbm)));
                lemma_type_sums_push(t0.blocks, Some(nbm));
            }
            assert(!all_free(nbm.sub.m.chunks)) by {
                if all_free(nbm.sub.m.chunks) {
                    let w = choose|k: int|
                        0 <= k < nbm.sub.m.chunks.len() && !(#[trigger] nbm.sub.m.chunks[k]).free
                            && nbm.sub.m.chunks[k].id == chunk_id;
                    assert(false);
                }
            }
            assert(block_wf(nbm));
            assert forall|k: int| 0 <= k < self@.blocks.len() implies (match #[trigger] self@
                .blocks[k] {
                Some(b) => block_wf(b),
                None => true,
            }) by {
                if k != block_index {
                    assert(self@.blocks[k] == t0.blocks[k]);
                }
            }
            assert(mt_wf(self@));
        }
        Ok(
            Allocation::make(
                Some(chunk_id),
                offset,
                size,
                block_index,
                self.memory_type_index,
                heap_id,
                Some(desc.name.clone()),
            ),
        )
    }

    /// Grow the pool: create a general block of the policy's size in the
    /// given tombstone slot (or append it) and place the request there.
    #[verifier::rlimit(100)]
    #[verifier::spinoff_prover]
    fn grow_and_allocate(
        &mut self,
        desc: &AllocationCreateDesc,
        memblock_size: u64,
        empty_slot: Option<usize>,
        heap_in_use: &mut u64,
        budget: u64,
        next_heap_id: &mut u64,
    ) -> (r: Result<Allocation, AllocationError>)
        requires
            mt_wf(old(self)@),
            desc.size >= 1,
            desc.alignment >= 1,
            desc.size <= memblock_size,
            *old(heap_in_use) <= budget,
            no_block_can_take(old(self)@, desc.size, desc.alignment),
            match empty_slot {
                Some(e) => e < old(self)@.blocks.len() && old(self)@.blocks[e as int] is None && (
                forall|j: int|
                    e < j < old(self)@.blocks.len() ==> #[trigger] old(self)@.blocks[j] is Some),
                None => forall|j: int|
                    0 <= j < old(self)@.blocks.len() ==> #[trigger] old(self)@.blocks[j] is Some,
            },
        ensures
            mt_wf(final(self)@),
            final(self)@.memory_location == old(self)@.memory_location,
            final(self)@.heap_category == old(self)@.heap_category,
            final(self)@.heap_properties == old(self)@.heap_properties,
            final(self)@.memory_type_index == old(self)@.memory_type_index,
            final(self)@.committed_allocations == old(self)@.committed_allocations,
            *final(heap_in_use) <= budget,
            type_capacity(final(self)@.blocks) - type_capacity(old(self)@.blocks)
                == *final(heap_in_use) - *old(heap_in_use),
            match r {
                Ok(alloc) => ({
                    &&& token_matches(final(self)@, alloc@, desc.size, desc.alignment)
                    &&& alloc@.heap_id == *old(next_heap_id)
                    &&& type_live(final(self)@.blocks) == type_live(old(self)@.blocks) + desc.size
                    &&& forall|j: int|
                        0 <= j < old(self)@.blocks.len() && j != alloc@.memory_block_index
                            ==> #[trigger] final(self)@.blocks[j] == old(self)@.blocks[j]
                    &&& placed_growth(
                        old(self)@,
                        final(self)@,
                        alloc@.memory_block_index as int,
                        memblock_size,
                        desc.size,
                        desc.alignment,
                    )
                    &&& *final(heap_in_use) == *old(heap_in_use) + memblock_size
                    &&& *final(next_heap_id) == *old(next_heap_id) + 1
                }),
                Err(e) => ({
                    &&& final(self)@ == old(self)@
                    &&& *final(heap_in_use) == *old(heap_in_use)
                    &&& *final(next_heap_id) == *old(next_heap_id)
                    &&& (e == AllocationError::OutOfMemory <==> budget - *old(heap_in_use)
                        < memblock_size)
                    &&& (e != AllocationError::OutOfMemory ==> (e
                        matches AllocationError::Internal(_) && *old(next_heap_id) == u64::MAX))
                }),
            },
    {
        let ghost t0 = self@;
        let size = desc.size;
        if budget - *heap_in_use < memblock_size {
            return Err(AllocationError::OutOfMemory);
        }
        if *next_heap_id == u64::MAX {
            return Err(AllocationError::Internal("Heap handle space exhausted.".to_owned()));
        }
        let heap_id = *next_heap_id;
        *next_heap_id = heap_id + 1;
        *heap_in_use = *heap_in_use + memblock_size;
        let mut block = MemoryBlock::new(heap_id, memblock_size, false);
        proof {
            assert(crate::free_list::chunk_fits(
                block@.sub.m.chunks[0],
                size,
                desc.alignment,
            )) by {
                assert(block@.sub.m.chunks[0].free);
                assert(block@.sub.m.chunks[0].offset == 0);
                assert(crate::free_list::spec_align_up(0, desc.alignment) == 0);
            }
            assert(sa_can_take(block@.sub, size, desc.alignment));
        }
        let alloc_res = block.sub_allocator.allocate(size, desc.alignment, desc.name.as_str());
        let (offset, chunk_id) = match alloc_res {
            Ok(v) => v,
            Err(_) => {
                proof {
                    assert(false);
                }
                vstd::pervasive::unreached()
            },
        };
        let ghost nbm = block@;
        let n = self.memory_blocks.len();
        let block_index: usize = match empty_slot {
            Some(s) => {
                assert(s < n);
                self.memory_blocks[s] = Some(block);
                s
            },
            None => {
                self.memory_blocks.push(Some(block));
                n
            },
        };
        proof {
            if block_index < t0.blocks.len() {
                assert(self@.blocks =~= t0.blocks.update(block_index as int, Some(nbm)));
                lemma_type_sums_update(t0.blocks, block_index as int, Some(nbm));
                lemma_type_general_gap(t0.blocks, block_index as int);
            } else {
                assert(self@.blocks =~= t0.blocks.push(Some(nbm)));
                lemma_type_sums_push(t0.blocks, Some(nbm));
                lemma_type_general_bounds(t0.blocks);
            }
            assert(!all_free(nbm.sub.m.chunks)) by {
                if all_free(nbm.sub.m.chunks) {
                    let w = choose|k: int|
                        0 <= k < nbm.sub.m.chunks.len() && !(#[trigger] nbm.sub.m.chunks[k]).free
                            && nbm.sub.m.chunks[k].id == chunk_id;
                    assert(false);
                }
            }
            assert(block_wf(nbm));
        }
        let n2 = self.memory_blocks.len();
        proof {
            assert(n2 == self@.blocks.len());
            assert(self.active_general_blocks as int <= n2 - 1);
        }
        self.active_general_blocks = self.active_general_blocks + 1;
        proof {
            assert forall|k: int| 0 <= k < self@.blocks.len() implies (match #[trigger] self@
                .blocks[k] {
                Some(b) => block_wf(b),
                None => true,
            }) by {
                if k != block_index {
                    assert(self@.blocks[k] == t0.blocks[k]);
                }
            }
            assert(mt_wf(self@));
        }
        Ok(
            Allocation::make(
                Some(chunk_id),
                offset,
                size,
                block_index,
                self.memory_type_index,
                heap_id,
                Some(desc.name.clone()),
            ),
        )
    }

    /// Place a request in this memory type.  Oversize requests get a fresh
    /// dedicated block.  Otherwise the pool is scanned from the newest
    /// block backwards and the first block with room takes the request;
    /// failing that, the pool grows by a general block of the policy's
    /// size, which is guaranteed to have room.
    #[verifier::rlimit(100)]
    #[verifier::spinoff_prover]
    pub fn allocate(
        &mut self,
        desc: &AllocationCreateDesc,
        allocation_sizes: &AllocationSizes,
        heap_in_use: &mut u64,
        budget: u64,
        next_heap_id: &mut u64,
    ) -> (r: Result<Allocation, AllocationError>)
        requires
            mt_wf(old(self)@),
            allocation_sizes.wf(),
            desc.size >= 1,
            desc.alignment >= 1,
            *old(heap_in_use) <= budget,
        ensures
            mt_wf(final(self)@),
            final(self)@.memory_location == old(self)@.memory_location,
            final(self)@.heap_category == old(self)@.heap_category,
            final(self)@.heap_properties == old(self)@.heap_properties,
            final(self)@.memory_type_index == old(self)@.memory_type_index,
            final(self)@.committed_allocations == old(self)@.committed_allocations,
            *final(heap_in_use) <= budget,
            type_capacity(final(self)@.blocks) - type_capacity(old(self)@.blocks)
                == *final(heap_in_use) - *old(heap_in_use),
            match r {
                Ok(alloc) => ({
                    let mb = allocation_sizes.spec_memblock_size(
                        old(self)@.heap_properties.spec_is_host(),
                        old(self)@.active_general_blocks,
                    );
                    &&& token_matches(final(self)@, alloc@, desc.size, desc.alignment)
                    &&& type_live(final(self)@.blocks) == type_live(old(self)@.blocks) + desc.size
                    &&& forall|j: int|
                        0 <= j < old(self)@.blocks.len() && j != alloc@.memory_block_index
                            ==> #[trigger] final(self)@.blocks[j] == old(self)@.blocks[j]
                    &&& (desc.size > mb ==> (placed_dedicated(
                        old(self)@,
                        final(self)@,
                        alloc@.memory_block_index as int,
                        desc.size,
                    ) && *final(heap_in_use) == *old(heap_in_use) + desc.size))
                    &&& (desc.size <= mb ==> ((placed_pooled(
                        old(self)@,
                        final(self)@,
                        alloc@.memory_block_index as int,
                        desc.size,
                        desc.alignment,
                    ) && *final(heap_in_use) == *old(heap_in_use)) || (placed_growth(
                        old(self)@,
                        final(self)@,
                        alloc@.memory_block_index as int,
                        mb,
                        desc.size,
                        desc.alignment,
                    ) && *final(heap_in_use) == *old(heap_in_use) + mb)))
                }),
                Err(e) => ({
                    let mb = allocation_sizes.spec_memblock_size(
                        old(self)@.heap_properties.spec_is_host(),
                        old(self)@.active_general_blocks,
                    );
                    &&& final(self)@ == old(self)@
                    &&& *final(heap_in_use) == *old(heap_in_use)
                    &&& *final(next_heap_id) == *old(next_heap_id)
                    &&& (e == AllocationError::OutOfMemory || e matches AllocationError::Internal(
                        _,
                    ))
                    &&& (e == AllocationError::OutOfMemory ==> ((desc.size > mb && budget - *old(
                        heap_in_use,
                    ) < desc.size) || (desc.size <= mb && no_block_can_take(
                        old(self)@,
                        desc.size,
                        desc.alignment,
                    ) && budget - *old(heap_in_use) < mb)))
                    &&& (e != AllocationError::OutOfMemory ==> (some_block_exhausted(
                        old(self)@,
                        desc.size,
                        desc.alignment,
                    ) || *old(next_heap_id) == u64::MAX))
                }),
            },
            ({
                let mb = allocation_sizes.spec_memblock_size(
                    old(self)@.heap_properties.spec_is_host(),
                    old(self)@.active_general_blocks,
                );
                &&& (desc.size > mb && desc.size <= budget - *old(heap_in_use) && *old(
                    next_heap_id,
                ) < u64::MAX ==> r is Ok)
                &&& (desc.size <= mb && *old(next_heap_id) < u64::MAX && no_block_exhausted(
                    old(self)@,
                ) && (budget - *old(heap_in_use) >= mb || !no_block_can_take(
                    old(self)@,
                    desc.size,
                    desc.alignment,
                )) ==> r is Ok)
            }),
    {
        let ghost t0 = self@;
        let is_host = self.heap_properties.is_host();
        let memblock_size = allocation_sizes.get_memblock_size(
            is_host,
            self.active_general_blocks,
        );
        let size = desc.size;
        let alignment = desc.alignment;
        if size > memblock_size {
            return self.allocate_dedicated(desc, heap_in_use, budget, next_heap_id);
        }
        let n = self.memory_blocks.len();
        let mut idx: usize = n;
        let mut empty_slot: Option<usize> = None;
        while idx > 0
            invariant
                self@ == t0,
                t0 == old(self)@,
                mt_wf(t0),
                *heap_in_use == *old(heap_in_use),
                *old(heap_in_use) <= budget,
                *next_heap_id == *old(next_heap_id),
                n == self@.blocks.len(),
                idx <= n,
                size == desc.size,
                alignment == desc.alignment,
                desc.size >= 1,
                desc.alignment >= 1,
                size <= memblock_size,
                memblock_size == allocation_sizes.spec_memblock_size(
                    t0.heap_properties.spec_is_host(),
                    t0.active_general_blocks,
                ),
                forall|j: int|
                    idx <= j < n ==> (match #[trigger] t0.blocks[j] {
                        Some(b) => !sa_can_take(b.sub, desc.size, desc.alignment),
                        None => true,
                    }),
                match empty_slot {
                    Some(e) => (idx <= e < n && t0.blocks[e as int] is None && (forall|j: int|
                        e < j < n ==> #[trigger] t0.blocks[j] is Some)),
                    None => forall|j: int| idx <= j < n ==> #[trigger] t0.blocks[j] is Some,
                },
            decreases idx,
        {
            idx = idx - 1;
            if self.memory_blocks[idx].is_some() {
                proof {
                    assert(t0.blocks[idx as int] is Some);
                }
                let res = self.allocate_in_block(idx, size, alignment, desc.name.as_str());
                match res {
                    Ok(v) => {
                        let heap_id = self.heap_id_at(idx);
                        proof {
                            let b0 = t0.blocks[idx as int]->Some_0;
                            let b1 = self@.blocks[idx as int]->Some_0;
                            if b0.sub.dedicated {
                                // an in-pool dedicated block is never empty, so it
                                // has no free chunk the request could fit in
                                assert(!all_free(b0.sub.m.chunks));
                                let i = choose|i: int|
                                    #![trigger crate::free_list::is_first_fit(b0.sub.m.chunks, desc.size, desc.alignment, i)]
                                    crate::free_list::is_first_fit(
                                        b0.sub.m.chunks,
                                        desc.size,
                                        desc.alignment,
                                        i,
                                    ) && v.0 == crate::free_list::spec_align_up(
                                        b0.sub.m.chunks[i].offset,
                                        desc.alignment,
                                    ) && b1.sub.m.chunks == crate::free_list::split_chunks(
                                        b0.sub.m.chunks,
                                        i,
                                        v.0,
                                        desc.size,
                                        v.1,
                                    );
                                assert(b0.sub.m.chunks[i].free);
                                assert(b0.sub.m.chunks.len() == 1);
                                assert(!b0.sub.m.chunks[0].free);
                                assert(false);
                            }
                            assert(self@.blocks =~= t0.blocks.update(
                                idx as int,
                                self@.blocks[idx as int],
                            ));
                            lemma_type_sums_update(
                                t0.blocks,
                                idx as int,
                                self@.blocks[idx as int],
                            );
                            assert(!all_free(b1.sub.m.chunks)) by {
                                if all_free(b1.sub.m.chunks) {
                                    let w = choose|k: int|
                                        0 <= k < b1.sub.m.chunks.len() && !(
                                        #[trigger] b1.sub.m.chunks[k]).free
                                            && b1.sub.m.chunks[k].id == v.1;
                                    assert(false);
                                }
                            }
                            assert(block_wf(b1));
                            assert forall|k: int| 0 <= k < self@.blocks.len() implies (
                            match #[trigger] self@.blocks[k] {
                                Some(b) => block_wf(b),
                                None => true,
                            }) by {
                                if k != idx {
                                    assert(self@.blocks[k] == t0.blocks[k]);
                                }
                            }
                            assert(mt_wf(self@));
                        }
                        return Ok(
                            Allocation::make(
                                Some(v.1),
                                v.0,
                                size,
                                idx,
                                self.memory_type_index,
                                heap_id,
                                Some(desc.name.clone()),
                            ),
                        );
                    },
                    Err(e2) => {
                        match e2 {
                            AllocationError::OutOfMemory => {
                                proof {
                                    assert(self@.blocks =~= t0.blocks);
                                    assert(self@ =~= t0);
                                }
                            },
                            other => {
                                proof {
                                    assert(self@.blocks =~= t0.blocks);
                                    assert(self@ =~= t0);
                                    let b0 = t0.blocks[idx as int]->Some_0;
                                    if b0.sub.dedicated {
                                        assert(!all_free(b0.sub.m.chunks));
                                        assert(false);
                                    }
                                    assert(sa_can_take(b0.sub, desc.size, desc.alignment)
                                        && b0.sub.m.next_id == u64::MAX);
                                    assert(some_block_exhausted(t0, desc.size, desc.alignment));
                                }
                                return Err(other);
                            },
                        }
                    },
                }
            } else {
                proof {
                    assert(t0.blocks[idx as int] is None);
                }
                if empty_slot.is_none() {
                    empty_slot = Some(idx);
                }
            }
        }
        proof {
            assert(no_block_can_take(self@, desc.size, desc.alignment));
        }
        self.grow_and_allocate(desc, memblock_size, empty_slot, heap_in_use, budget, next_heap_id)
    }

    /// Give an allocation back to its block.  The block is destroyed once
    /// empty, unless it is the last general block of the type, which is
    /// retained as a warm pool entry.
    #[verifier::rlimit(100)]
    #[verifier::spinoff_prover]
    pub fn free(&mut self, allocation: Allocation, heap_in_use: &mut u64) -> (r: Result<
        (),
        AllocationError,
    >)
        requires
            mt_wf(old(self)@),
            type_capacity(old(self)@.blocks) <= *old(heap_in_use),
        ensures
            mt_wf(final(self)@),
            final(self)@.memory_location == old(self)@.memory_location,
            final(self)@.heap_category == old(self)@.heap_category,
            final(self)@.heap_properties == old(self)@.heap_properties,
            final(self)@.memory_type_index == old(self)@.memory_type_index,
            final(self)@.committed_allocations == old(self)@.committed_allocations,
            type_capacity(final(self)@.blocks) - type_capacity(old(self)@.blocks)
                == *final(heap_in_use) - *old(heap_in_use),
            *final(heap_in_use) <= *old(heap_in_use),
            match r {
                Ok(u) => ({
                    let bi = allocation@.memory_block_index as int;
                    let cid = allocation@.chunk_id->Some_0;
                    &&& allocation@.chunk_id is Some
                    &&& 0 <= bi < old(self)@.blocks.len()
                    &&& old(self)@.blocks[bi] matches Some(b0) && has_live(b0.sub.m.chunks, cid)
                        && type_live(final(self)@.blocks) == type_live(old(self)@.blocks)
                        - b0.sub.m.chunks[live_index_of(b0.sub.m.chunks, cid)].size
                    &&& freed_outcome(old(self)@, final(self)@, bi, cid)
                    &&& forall|j: int|
                        0 <= j < old(self)@.blocks.len() && j != bi
                            ==> #[trigger] final(self)@.blocks[j] == old(self)@.blocks[j]
                }),
                Err(e) => ({
                    &&& final(self)@ == old(self)@
                    &&& *final(heap_in_use) == *old(heap_in_use)
                    &&& e matches AllocationError::Internal(_)
                    &&& !valid_free_token(old(self)@, allocation@)
                }),
            },
            valid_free_token(old(self)@, allocation@) ==> r is Ok,
    {
        let ghost t0 = self@;
        let block_idx = allocation.memory_block_index();
        let n = self.memory_blocks.len();
        if block_idx >= n {
            return Err(AllocationError::Internal("Memory block must be Some.".to_owned()));
        }
        if self.memory_blocks[block_idx].is_none() {
            proof {
                assert(t0.blocks[block_idx as int] is None);
            }
            return Err(AllocationError::Internal("Memory block must be Some.".to_owned()));
        }
        proof {
            assert(t0.blocks[block_idx as int] is Some);
        }
        let chunk_id = allocation.chunk_id();
        let res = self.free_in_block(block_idx, chunk_id);
        match res {
            Err(e) => {
                proof {
                    assert(self@.blocks =~= t0.blocks);
                    assert(self@ =~= t0);
                }
                Err(e)
            },
            Ok(u) => {
                let ghost b0 = t0.blocks[block_idx as int]->Some_0;
                let ghost b1 = self@.blocks[block_idx as int]->Some_0;
                proof {
                    assert(self@.blocks =~= t0.blocks.update(
                        block_idx as int,
                        self@.blocks[block_idx as int],
                    ));
                    lemma_type_sums_update(
                        t0.blocks,
                        block_idx as int,
                        self@.blocks[block_idx as int],
                    );
                    // the freed block stays wellformed, except that a
                    // dedicated block may now be empty; the retention
                    // decision below destroys exactly those
                    assert(block_wf(b1) || (b1.sub.dedicated && all_free(b1.sub.m.chunks)));
                }
                let ghost t_mid = self@;
                proof {
                    let cid = chunk_id->Some_0;
                    let j = live_index_of(b0.sub.m.chunks, cid);
                    let after = merge_free_at(b0.sub.m.chunks, j);
                    assert(b1 =~= (BlockModel {
                        heap_id: b0.heap_id,
                        size: b0.size,
                        sub: SubAllocatorModel {
                            dedicated: b0.sub.dedicated,
                            m: FreeListModel {
                                block_size: b0.sub.m.block_size,
                                next_id: if b0.sub.dedicated {
                                    1u64
                                } else {
                                    b0.sub.m.next_id
                                },
                                chunks: after,
                            },
                        },
                    }));
                }
                let empty = self.is_empty_at(block_idx);
                let general = self.supports_general_at(block_idx);
                if empty && (!general || self.active_general_blocks > 1) {
                    let size = self.block_size_at(block_idx);
                    proof {
                        // the destroyed block's size is covered by the tracked bytes
                        crate::sums::lemma_sum_by_bound(
                            t_mid.blocks,
                            block_idx as int,
                            |ob: Option<BlockModel>| block_capacity(ob),
                        );
                        crate::sums::lemma_sum_by_nonneg(
                            t_mid.blocks,
                            |ob: Option<BlockModel>| block_capacity(ob),
                        );
                        if general {
                            crate::sums::lemma_sum_by_bound(
                                t_mid.blocks,
                                block_idx as int,
                                |ob: Option<BlockModel>| block_general(ob),
                            );
                        }
                    }
                    self.memory_blocks[block_idx] = None;
                    proof {
                        assert(self@.blocks =~= t_mid.blocks.update(block_idx as int, None));
                        lemma_type_sums_update(t_mid.blocks, block_idx as int, None);
                        assert(self@.blocks =~= t0.blocks.update(block_idx as int, None));
                    }
                    if general {
                        self.active_general_blocks = self.active_general_blocks - 1;
                    }
                    *heap_in_use = *heap_in_use - size;
                    proof {
                        assert forall|k: int| 0 <= k < self@.blocks.len() implies (
                        match #[trigger] self@.blocks[k] {
                            Some(b) => block_wf(b),
                            None => true,
                        }) by {
                            if k != block_idx {
                                assert(self@.blocks[k] == t0.blocks[k]);
                            }
                        }
                        lemma_type_general_bounds(self@.blocks);
                        assert(mt_wf(self@));
                        crate::free_list::lemma_all_free_live_bytes(b1.sub.m.chunks);
                        assert(freed_outcome(t0, self@, block_idx as int, chunk_id->Some_0));
                    }
                } else {
                    proof {
                        // the retained block may now be the one empty general
                        // block; there is no other, because it was the last
                        // general block
                        assert forall|k: int| 0 <= k < self@.blocks.len() implies (
                        match #[trigger] self@.blocks[k] {
                            Some(b) => block_wf(b),
                            None => true,
                        }) by {
                            if k != block_idx {
                                assert(self@.blocks[k] == t0.blocks[k]);
                            } else {
                                assert(!b1.sub.dedicated || !all_free(b1.sub.m.chunks));
                            }
                        }
                        crate::sums::lemma_sum_by_le(
                            self@.blocks,
                            |ob: Option<BlockModel>| block_empty_general(ob),
                            |ob: Option<BlockModel>| block_general(ob),
                        );
                        assert(mt_wf(self@));
                        assert(freed_outcome(t0, self@, block_idx as int, chunk_id->Some_0));
                    }
                }
                Ok(())
            },
        }
    }

    /// Update the advisory display name of a chunk of block `idx`.
    pub(crate) fn rename_in_block(&mut self, idx: usize, chunk_id: Option<u64>, name: &str) -> (r:
        Result<(), AllocationError>)
        requires
            idx < old(self)@.blocks.len(),
            old(self)@.blocks[idx as int] matches Some(b) && sa_wf(b.sub),
        ensures
            final(self)@ == old(self)@,
            old(self)@.blocks[idx as int] matches Some(b0) && (match chunk_id {
                Some(id) => r is Ok <==> has_live(b0.sub.m.chunks, id),
                None => r is Err,
            }),
            r is Err ==> r matches Err(AllocationError::Internal(_)),
    {
        let ghost t0 = self@;
        let n = self.memory_blocks.len();
        assert(idx < n);
        let ob = &mut self.memory_blocks[idx];
        match ob {
            Some(block) => {
                proof {
                    assert(t0.blocks[idx as int] == Some((*block)@));
                }
                let r = block.sub_allocator.rename_allocation(chunk_id, name);
                proof {
                    assert(final(self)@.blocks =~= t0.blocks);
                    assert(final(self)@ =~= t0);
                }
                r
            },
            None => {
                proof {
                    assert(t0.blocks[idx as int] is Some);
                    assert(false);
                }
                vstd::pervasive::unreached()
            },
        }
    }

    /// Update the advisory display name of a live chunk; the bucket itself
    /// is unchanged.
    pub(crate) fn rename_allocation(
        &mut self,
        block_idx: usize,
        chunk_id: Option<u64>,
        name: &str,
    ) -> (r: Result<(), AllocationError>)
        requires
            mt_wf(old(self)@),
        ensures
            final(self)@ == old(self)@,
            r is Ok <==> live_chunk_in_block(old(self)@, block_idx as int, chunk_id),
            r is Err ==> r matches Err(AllocationError::Internal(_)),
    {
        let n = self.memory_blocks.len();
        if block_idx >= n {
            return Err(AllocationError::Internal("Memory block must be Some.".to_owned()));
        }
        if self.memory_blocks[block_idx].is_none() {
            proof {
                assert(self@.blocks[block_idx as int] is None);
            }
            return Err(AllocationError::Internal("Memory block must be Some.".to_owned()));
        }
        proof {
            assert(self@.blocks[block_idx as int] is Some);
        }
        self.rename_in_block(block_idx, chunk_id, name)
    }

    /// Size of this type's block over the given heap, if any.
    pub(crate) fn find_heap(&self, heap_id: u64) -> (r: Option<u64>)
        ensures
            match r {
                Some(s) => exists|j: int|
                    0 <= j < self@.blocks.len() && ((#[trigger] self@.blocks[j]) matches Some(b)
                        && b.heap_id == heap_id && b.size == s),
                None => forall|j: int|
                    0 <= j < self@.blocks.len() ==> (match #[trigger] self@.blocks[j] {
                        Some(b) => b.heap_id != heap_id,
                        None => true,
                    }),
            },
    {
        let n = self.memory_blocks.len();
        let mut i: usize = 0;
        while i < n
            invariant
                n == self@.blocks.len(),
                i <= n,
                forall|j: int|
                    0 <= j < i ==> (match #[trigger] self@.blocks[j] {
                        Some(b) => b.heap_id != heap_id,
                        None => true,
                    }),
            decreases n - i,
        {
            match &self.memory_blocks[i] {
                Some(block) => {
                    proof {
                        assert(self@.blocks[i as int] == Some(block@));
                    }
                    if block.heap_id == heap_id {
                        return Some(block.size);
                    }
                },
                None => {
                    proof {
                        assert(self@.blocks[i as int] is None);
                    }
                },
            }
            i += 1;
        }
        None
    }

    /// Live bytes never exceed capacity in a wellformed type.
    pub proof fn lemma_live_le_capacity(t: MemoryTypeModel)
        requires
            mt_wf(t),
        ensures
            0 <= type_live(t.blocks) <= type_capacity(t.blocks),
            0 <= type_capacity(t.blocks),
    {
        assert forall|i: int| 0 <= i < t.blocks.len() implies 0 <= #[trigger] block_live(
            t.blocks[i],
        ) && block_live(t.blocks[i]) <= block_capacity(t.blocks[i]) by {
            match t.blocks[i] {
                Some(b) => {
                    crate::free_list::lemma_live_bytes_bound(b.sub.m);
                },
                None => {},
            }
        }
        crate::sums::lemma_sum_by_le(
            t.blocks,
            |ob: Option<BlockModel>| block_live(ob),
            |ob: Option<BlockModel>| block_capacity(ob),
        );
        crate::sums::lemma_sum_by_nonneg(t.blocks, |ob: Option<BlockModel>| block_live(ob));
        crate::sums::lemma_sum_by_nonneg(t.blocks, |ob: Option<BlockModel>| block_capacity(ob));
    }

    /// Sum of the live blocks' sizes, in bytes.
    pub(crate) fn capacity(&self) -> (r: u64)
        requires
            mt_wf(self@),
            type_capacity(self@.blocks) <= u64::MAX,
        ensures
            r == type_capacity(self@.blocks),
    {
        proof {
            MemoryType::lemma_live_le_capacity(self@);
        }
        let n = self.memory_blocks.len();
        let mut total: u64 = 0;
        let mut i: usize = 0;
        while i < n
            invariant
                mt_wf(self@),
                n == self@.blocks.len(),
                i <= n,
                type_capacity(self@.blocks) <= u64::MAX,
                total == crate::sums::sum_by(
                    self@.blocks.take(i as int),
                    |ob: Option<BlockModel>| block_capacity(ob),
                ),
            decreases n - i,
        {
            proof {
                crate::sums::lemma_sum_by_take_step(
                    self@.blocks,
                    i as int,
                    |ob: Option<BlockModel>| block_capacity(ob),
                );
                assert forall|j: int|
                    0 <= j < self@.blocks.len() implies #[trigger] block_capacity(self@.blocks[j])
                    >= 0 by {}
                crate::sums::lemma_sum_by_take_le(
                    self@.blocks,
                    i as int + 1,
                    |ob: Option<BlockModel>| block_capacity(ob),
                );
            }
            match &self.memory_blocks[i] {
                Some(block) => {
                    proof {
                        assert(self@.blocks[i as int] == Some(block@));
                    }
                    total = total + block.size;
                },
                None => {
                    proof {
                        assert(self@.blocks[i as int] is None);
                    }
                },
            }
            i += 1;
        }
        proof {
            crate::sums::lemma_sum_by_take_all(
                self@.blocks,
                |ob: Option<BlockModel>| block_capacity(ob),
            );
        }
        total
    }

    /// Append the per-allocation reports of every live block, and one block
    /// entry per live block pointing at its slice of the allocation list.
    pub(crate) fn collect_reports(
        &self,
        allocations: &mut Vec<AllocationReport>,
        blocks: &mut Vec<crate::report::MemoryBlockReport>,
    )
        requires
            mt_wf(self@),
        ensures
            old(allocations)@.len() <= final(allocations)@.len(),
            final(allocations)@.len() == old(allocations)@.len() + type_live_count(self@.blocks),
            reports_bytes(final(allocations)@) == reports_bytes(old(allocations)@) + type_live(
                self@.blocks,
            ),
            forall|k: int|
                0 <= k < old(allocations)@.len() ==> #[trigger] final(allocations)@[k] == old(
                    allocations,
                )@[k],
            forall|k: int|
                0 <= k < old(blocks)@.len() ==> #[trigger] final(blocks)@[k] == old(blocks)@[k],
            crate::report::block_reports_bytes(final(blocks)@) == crate::report::block_reports_bytes(
                old(blocks)@,
            ) + type_capacity(self@.blocks),
            forall|k: int|
                old(blocks)@.len() <= k < final(blocks)@.len()
                    ==> ((#[trigger] final(blocks)@[k]).allocations_start
                    <= final(blocks)@[k].allocations_end && final(blocks)@[k].allocations_end
                    <= final(allocations)@.len()),
    {
        let n = self.memory_blocks.len();
        let mut i: usize = 0;
        while i < n
            invariant
                mt_wf(self@),
                n == self@.blocks.len(),
                i <= n,
                old(allocations)@.len() <= allocations@.len(),
                old(blocks)@.len() <= blocks@.len(),
                allocations@.len() == old(allocations)@.len() + crate::sums::sum_by(
                    self@.blocks.take(i as int),
                    |ob: Option<BlockModel>| block_live_count(ob),
                ),
                reports_bytes(allocations@) == reports_bytes(old(allocations)@)
                    + crate::sums::sum_by(
                    self@.blocks.take(i as int),
                    |ob: Option<BlockModel>| block_live(ob),
                ),
                forall|k: int|
                    0 <= k < old(allocations)@.len() ==> #[trigger] allocations@[k] == old(
                        allocations,
                    )@[k],
                forall|k: int|
                    0 <= k < old(blocks)@.len() ==> #[trigger] blocks@[k] == old(blocks)@[k],
                crate::report::block_reports_bytes(blocks@)
                    == crate::report::block_reports_bytes(old(blocks)@) + crate::sums::sum_by(
                    self@.blocks.take(i as int),
                    |ob: Option<BlockModel>| block_capacity(ob),
                ),
                forall|k: int|
                    old(blocks)@.len() <= k < blocks@.len() ==> ((#[trigger] blocks@[k]).allocations_start
                        <= blocks@[k].allocations_end && blocks@[k].allocations_end
                        <= allocations@.len()),
            decreases n - i,
        {
            proof {
                crate::sums::lemma_sum_by_take_step(
                    self@.blocks,
                    i as int,
                    |ob: Option<BlockModel>| block_live_count(ob),
                );
                crate::sums::lemma_sum_by_take_step(
                    self@.blocks,
                    i as int,
                    |ob: Option<BlockModel>| block_live(ob),
                );
                crate::sums::lemma_sum_by_take_step(
                    self@.blocks,
                    i as int,
                    |ob: Option<BlockModel>| block_capacity(ob),
                );
            }
            match &self.memory_blocks[i] {
                Some(block) => {
                    proof {
                        assert(self@.blocks[i as int] == Some(block@));
                        crate::free_list::lemma_live_count_nonneg(block@.sub.m.chunks);
                    }
                    let first_allocation = allocations.len();
                    block.sub_allocator.append_reports(allocations);
                    let ghost prev_blocks = blocks@;
                    blocks.push(
                        crate::report::MemoryBlockReport {
                            size: block.size,
                            allocations_start: first_allocation,
                            allocations_end: allocations.len(),
                        },
                    );
                    proof {
                        assert(blocks@.drop_last() =~= prev_blocks);
                        assert(forall|k: int|
                            0 <= k < prev_blocks.len() ==> #[trigger] blocks@[k]
                                == prev_blocks[k]);
                    }
                },
                None => {
                    proof {
                        assert(self@.blocks[i as int] is None);
                    }
                },
            }
            i += 1;
        }
        proof {
            crate::sums::lemma_sum_by_take_all(
                self@.blocks,
                |ob: Option<BlockModel>| block_live_count(ob),
            );
            crate::sums::lemma_sum_by_take_all(
                self@.blocks,
                |ob: Option<BlockModel>| block_live(ob),
            );
            crate::sums::lemma_sum_by_take_all(
                self@.blocks,
                |ob: Option<BlockModel>| block_capacity(ob),
            );
        }
    }

    /// Whether the block at slot `idx` holds no live allocation.
    fn is_empty_at(&self, idx: usize) -> (r: bool)
        requires
            idx < self@.blocks.len(),
            self@.blocks[idx as int] matches Some(b) && sa_wf(b.sub),
        ensures
            self@.blocks[idx as int] matches Some(b) && r == all_free(b.sub.m.chunks),
    {
        let n = self.memory_blocks.len();
        assert(idx < n);
        match &self.memory_blocks[idx] {
            Some(block) => block.sub_allocator.is_empty(),
            None => {
                proof {
                    assert(self@.blocks[idx as int] is Some);
                    assert(false);
                }
                vstd::pervasive::unreached()
            },
        }
    }

    /// Whether the block at slot `idx` uses the general strategy.
    fn supports_general_at(&self, idx: usize) -> (r: bool)
        requires
            idx < self@.blocks.len(),
            self@.blocks[idx as int] is Some,
        ensures
            self@.blocks[idx as int] matches Some(b) && r == !b.sub.dedicated,
    {
        let n = self.memory_blocks.len();
        assert(idx < n);
        match &self.memory_blocks[idx] {
            Some(block) => block.sub_allocator.supports_general_allocations(),
            None => {
                proof {
                    assert(self@.blocks[idx as int] is Some);
                    assert(false);
                }
                vstd::pervasive::unreached()
            },
        }
    }

    /// Size of the block at slot `idx`.
    fn block_size_at(&self, idx: usize) -> (r: u64)
        requires
            idx < self@.blocks.len(),
            self@.blocks[idx as int] is Some,
        ensures
            self@.blocks[idx as int] matches Some(b) && r == b.size,
    {
        let n = self.memory_blocks.len();
        assert(idx < n);
        match &self.memory_blocks[idx] {
            Some(block) => block.size,
            None => {
                proof {
                    assert(self@.blocks[idx as int] is Some);
                    assert(false);
                }
                vstd::pervasive::unreached()
            },
        }
    }

    /// Heap handle of the block at slot `idx`.
    fn heap_id_at(&self, idx: usize) -> (r: u64)
        requires
            idx < self@.blocks.len(),
            self@.blocks[idx as int] is Some,
        ensures
            self@.blocks[idx as int] matches Some(b) && r == b.heap_id,
    {
        let n = self.memory_blocks.len();
        assert(idx < n);
        match &self.memory_blocks[idx] {
            Some(block) => block.heap_id,
            None => {
                proof {
                    assert(self@.blocks[idx as int] is Some);
                    assert(false);
                }
                vstd::pervasive::unreached()
            },
        }
    }
}

} // verus!
