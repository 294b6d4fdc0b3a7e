//! A verified sub-allocator for dedicated blocks: the whole block is handed
//! out as a single allocation with chunk id 1.
//!
//! Its model is the one-chunk instance of the free-list tiling, so callers
//! can reason about both strategies through the same
//! [`crate::free_list::FreeListModel`].

use vstd::prelude::*;
use crate::free_list::ChunkModel;
use crate::free_list::FreeListModel;
use crate::free_list::all_free;
use crate::free_list::fl_wf;
use crate::free_list::has_live;
use crate::free_list::is_first_fit;
use crate::free_list::lemma_live_bytes_singleton;
use crate::free_list::live_at;
use crate::free_list::live_bytes;
use crate::free_list::live_count;
use crate::free_list::live_index_of;
use crate::free_list::merge_free_at;
use crate::free_list::spec_align_up;
use crate::free_list::split_chunks;
use crate::result::AllocationError;

verus! {

/// Sub-allocator of a block sized for exactly one allocation.
pub struct DedicatedBlockAllocator {
    pub(crate) block_size: u64,
    pub(crate) allocated: bool,
    pub(crate) name: Option<String>,
}

impl View for DedicatedBlockAllocator {
    type V = FreeListModel;

    open(crate) spec fn view(&self) -> FreeListModel {
        FreeListModel {
            block_size: self.block_size,
            next_id: if self.allocated {
                2
            } else {
                1
            },
            chunks: seq![
                ChunkModel {
                    free: !self.allocated,
                    id: if self.allocated {
                        1
                    } else {
                        0
                    },
                    offset: 0,
                    size: self.block_size,
                },
            ],
        }
    }
}

/// The one-chunk shape of a dedicated block's model.
pub open spec fn ded_wf(m: FreeListModel) -> bool {
    &&& fl_wf(m)
    &&& m.chunks.len() == 1
    &&& m.chunks[0].offset == 0
    &&& m.chunks[0].size == m.block_size
    &&& (m.chunks[0].free ==> m.next_id == 1)
    &&& (!m.chunks[0].free ==> m.next_id == 2 && m.chunks[0].id == 1)
}

impl DedicatedBlockAllocator {
    /// A fresh dedicated allocator: the whole block is one free chunk.
    pub fn new(size: u64) -> (r: Self)
        requires
            size >= 1,
        ensures
            ded_wf(r@),
            r@.block_size == size,
            r@.next_id == 1,
            all_free(r@.chunks),
            live_bytes(r@.chunks) == 0,
    {
        let r = DedicatedBlockAllocator { block_size: size, allocated: false, name: None };
        proof {
            lemma_live_bytes_singleton(r@.chunks[0]);
            assert(r@.chunks.drop_last() =~= Seq::<ChunkModel>::empty());
        }
        r
    }

    /// Hand out the whole block as chunk 1.  The request must be exactly the
    /// block size; a smaller or larger request is an internal error, and a
    /// block already handed out reports out-of-memory.
    pub fn allocate(&mut self, size: u64, alignment: u64, name: &str) -> (r: Result<
        (u64, u64),
        AllocationError,
    >)
        requires
            ded_wf(old(self)@),
            size >= 1,
            alignment >= 1,
        ensures
            ded_wf(final(self)@),
            final(self)@.block_size == old(self)@.block_size,
            match r {
                Ok(ret) => ({
                    &&& size == old(self)@.block_size
                    &&& ret.1 == old(self)@.next_id
                    &&& final(self)@.next_id == old(self)@.next_id + 1
                    &&& ret.0 % alignment == 0
                    &&& ret.0 + size <= old(self)@.block_size
                    &&& is_first_fit(old(self)@.chunks, size, alignment, 0)
                    &&& ret.0 == spec_align_up(old(self)@.chunks[0].offset, alignment)
                    &&& final(self)@.chunks == split_chunks(old(self)@.chunks, 0, ret.0, size, ret.1)
                    &&& live_bytes(final(self)@.chunks) == live_bytes(old(self)@.chunks) + size
                    &&& has_live(final(self)@.chunks, ret.1)
                    &&& live_at(final(self)@.chunks, ret.1, ret.0, size)
                    &&& !has_live(old(self)@.chunks, ret.1)
                }),
                Err(e) => ({
                    &&& final(self)@ == old(self)@
                    &&& (e == AllocationError::OutOfMemory <==> !all_free(old(self)@.chunks))
                    &&& (e != AllocationError::OutOfMemory ==> (e matches AllocationError::Internal(
                        _,
                    ) && all_free(old(self)@.chunks) && size != old(self)@.block_size))
                }),
            },
    {
        if self.allocated {
            proof {
                assert(!self@.chunks[0].free);
            }
            return Err(AllocationError::OutOfMemory);
        }
        if size != self.block_size {
            proof {
                assert(self@.chunks[0].free);
                assert forall|i: int| 0 <= i < self@.chunks.len() implies (
                #[trigger] self@.chunks[i]).free by {
                    assert(i == 0);
                }
            }
            return Err(
                AllocationError::Internal(
                    "DedicatedBlockAllocator size must match allocation size.".to_owned(),
                ),
            );
        }
        let ghost m0 = self@;
        self.allocated = true;
        self.name = Some(name.to_owned());
        proof {
            reveal(split_chunks);
            assert(m0.chunks[0].offset == 0);
            assert(spec_align_up(0, alignment) == 0);
            assert(self@.chunks =~= split_chunks(m0.chunks, 0, 0, size, 1));
            lemma_live_bytes_singleton(m0.chunks[0]);
            lemma_live_bytes_singleton(self@.chunks[0]);
            assert(m0.chunks.drop_last() =~= Seq::<ChunkModel>::empty());
            assert(self@.chunks.drop_last() =~= Seq::<ChunkModel>::empty());
            assert(!self@.chunks[0].free && self@.chunks[0].id == 1);
            if has_live(m0.chunks, 1) {
                let w = choose|k: int|
                    0 <= k < m0.chunks.len() && !(#[trigger] m0.chunks[k]).free && m0.chunks[k].id
                        == 1;
                assert(false);
            }
            assert forall|i: int| 0 <= i < m0.chunks.len() implies (
            #[trigger] m0.chunks[i]).free by {
                assert(i == 0);
            }
        }
        Ok((0, 1))
    }

    /// Free chunk 1, returning the whole block to the free state.
    pub fn free(&mut self, chunk_id: Option<u64>) -> (r: Result<(), AllocationError>)
        requires
            ded_wf(old(self)@),
        ensures
            ded_wf(final(self)@),
            final(self)@.block_size == old(self)@.block_size,
            match chunk_id {
                None => r is Err && final(self)@ == old(self)@,
                Some(id) => {
                    if has_live(old(self)@.chunks, id) {
                        let j = live_index_of(old(self)@.chunks, id);
                        &&& r is Ok
                        &&& final(self)@.chunks == merge_free_at(old(self)@.chunks, j)
                        &&& final(self)@.next_id == 1
                        &&& live_bytes(final(self)@.chunks) == live_bytes(old(self)@.chunks)
                            - old(self)@.chunks[j].size
                        &&& !has_live(final(self)@.chunks, id)
                    } else {
                        r is Err && final(self)@ == old(self)@
                    }
                },
            },
            r is Err ==> r matches Err(AllocationError::Internal(_)),
    {
        let id = match chunk_id {
            Some(id) => id,
            None => {
                return Err(
                    AllocationError::Internal("Chunk id must be a valid value.".to_owned()),
                );
            },
        };
        if id != 1 || !self.allocated {
            proof {
                if has_live(self@.chunks, id) {
                    let w = choose|k: int|
                        0 <= k < self@.chunks.len() && !(#[trigger] self@.chunks[k]).free
                            && self@.chunks[k].id == id;
                    assert(w == 0);
                    assert(false);
                }
            }
            return Err(AllocationError::Internal("Chunk id must be 1.".to_owned()));
        }
        let ghost m0 = self@;
        self.allocated = false;
        self.name = None;
        proof {
            assert(!m0.chunks[0].free && m0.chunks[0].id == 1);
            assert(has_live(m0.chunks, 1));
            let j = live_index_of(m0.chunks, 1);
            assert(!m0.chunks[j].free && m0.chunks[j].id == 1);
            assert(j == 0);
            reveal(merge_free_at);
            assert(self@.chunks =~= merge_free_at(m0.chunks, 0));
            lemma_live_bytes_singleton(m0.chunks[0]);
            lemma_live_bytes_singleton(self@.chunks[0]);
            assert(m0.chunks.drop_last() =~= Seq::<ChunkModel>::empty());
            assert(self@.chunks.drop_last() =~= Seq::<ChunkModel>::empty());
            if has_live(self@.chunks, 1) {
                let w = choose|k: int|
                    0 <= k < self@.chunks.len() && !(#[trigger] self@.chunks[k]).free
                        && self@.chunks[k].id == 1;
                assert(false);
            }
        }
        Ok(())
    }

    /// Update the advisory display name of the single live chunk.
    pub fn rename_allocation(&mut self, chunk_id: Option<u64>, name: &str) -> (r: Result<
        (),
        AllocationError,
    >)
        requires
            ded_wf(old(self)@),
        ensures
            final(self)@ == old(self)@,
            match chunk_id {
                Some(id) => r is Ok <==> has_live(old(self)@.chunks, id),
                None => r is Err,
            },
            r is Err ==> r matches Err(AllocationError::Internal(_)),
    {
        let id = match chunk_id {
            Some(id) => id,
            None => {
                return Err(
                    AllocationError::Internal("Chunk id must be a valid value.".to_owned()),
                );
            },
        };
        if id == 1 && self.allocated {
            proof {
                assert(!self@.chunks[0].free && self@.chunks[0].id == 1);
            }
            self.name = Some(name.to_owned());
            return Ok(());
        }
        proof {
            if has_live(self@.chunks, id) {
                let w = choose|k: int|
                    0 <= k < self@.chunks.len() && !(#[trigger] self@.chunks[k]).free
                        && self@.chunks[k].id == id;
                assert(w == 0);
                assert(false);
            }
        }
        Err(AllocationError::Internal("Chunk id must be 1.".to_owned()))
    }

    /// True exactly when the block has not been handed out.
    pub fn is_empty(&self) -> (r: bool)
        requires
            ded_wf(self@),
        ensures
            r == all_free(self@.chunks),
    {
        let r = !self.allocated;
        proof {
            if r {
                assert forall|i: int| 0 <= i < self@.chunks.len() implies (
                #[trigger] self@.chunks[i]).free by {
                    assert(i == 0);
                }
            } else {
                assert(!self@.chunks[0].free);
            }
        }
        r
    }

    /// Append a report entry for the single live chunk, if any.
    pub fn append_reports(&self, out: &mut Vec<crate::report::AllocationReport>)
        requires
            ded_wf(self@),
        ensures
            final(out)@.len() == old(out)@.len() + live_count(self@.chunks),
            crate::report::reports_bytes(final(out)@) == crate::report::reports_bytes(old(out)@)
                + live_bytes(self@.chunks),
            forall|k: int| 0 <= k < old(out)@.len() ==> #[trigger] final(out)@[k] == old(out)@[k],
            forall|k: int|
                old(out)@.len() <= k < final(out)@.len() ==> exists|j: int|
                    0 <= j < self@.chunks.len() && !(#[trigger] self@.chunks[j]).free
                        && (#[trigger] final(out)@[k]).offset == self@.chunks[j].offset
                        && final(out)@[k].size == self@.chunks[j].size,
    {
        proof {
            lemma_live_bytes_singleton(self@.chunks[0]);
            assert(self@.chunks.drop_last() =~= Seq::<ChunkModel>::empty());
            assert(live_count(self@.chunks.drop_last()) == 0);
            assert(live_count(self@.chunks) == if self@.chunks[0].free {
                0int
            } else {
                1int
            });
        }
        if self.allocated {
            let entry_name = match &self.name {
                Some(s) => s.clone(),
                None => String::new(),
            };
            let ghost prev = out@;
            out.push(
                crate::report::AllocationReport {
                    name: entry_name,
                    offset: 0,
                    size: self.block_size,
                },
            );
            proof {
                assert(out@.drop_last() =~= prev);
                assert(forall|k: int| 0 <= k < prev.len() ==> #[trigger] out@[k] == prev[k]);
                assert(!self@.chunks[0].free);
                assert(out@.last().offset == self@.chunks[0].offset && out@.last().size
                    == self@.chunks[0].size);
            }
        } else {
            proof {
                assert(self@.chunks[0].free);
            }
        }
    }
}

} // verus!
