//! A verified first-fit free-list sub-allocator.
//!
//! The block is modeled as a sequence of chunks that tile `[0, block_size)`
//! without gaps.  Each chunk is either free or carries a live allocation with
//! a non-zero id.  Allocation splits a free chunk, freeing merges the chunk
//! back with its free neighbours, so the tiling is kept canonical: no two
//! adjacent chunks are free.  Non-overlap of live allocations is a direct
//! consequence of the tiling.

use vstd::prelude::*;
use vstd::arithmetic::div_mod::lemma_fundamental_div_mod;
use vstd::arithmetic::div_mod::lemma_mod_multiples_basic;
use vstd::arithmetic::mul::lemma_mul_is_distributive_add;
use vstd::arithmetic::mul::lemma_mul_is_commutative;
use crate::result::AllocationError;

verus! {

/// Ghost image of one chunk of a block.  Display names are advisory
/// metadata and are not part of the model.
#[verifier::ext_equal]
pub ghost struct ChunkModel {
    pub free: bool,
    /// 0 for free chunks, otherwise the live allocation's id.
    pub id: u64,
    pub offset: u64,
    pub size: u64,
}

/// Ghost image of a free-list sub-allocator.
#[verifier::ext_equal]
pub ghost struct FreeListModel {
    pub block_size: u64,
    /// Next chunk id to hand out; ids grow strictly, so every id below is
    /// stale or live and every id at or above is fresh.
    pub next_id: u64,
    pub chunks: Seq<ChunkModel>,
}

/// The chunks tile `[0, block_size)`: they start at 0, abut each other,
/// have positive sizes, and end at `block_size`.
pub open spec fn chunks_tile(chunks: Seq<ChunkModel>, block_size: u64) -> bool {
    &&& chunks.len() > 0
    &&& chunks[0].offset == 0
    &&& forall|i: int| 0 <= i < chunks.len() ==> (#[trigger] chunks[i]).size > 0
    &&& forall|i: int|
        0 <= i < chunks.len() - 1 ==> (#[trigger] chunks[i]).offset + chunks[i].size
            == chunks[i + 1].offset
    &&& chunks.last().offset + chunks.last().size == block_size
}

/// Free chunks carry id 0; live chunks carry distinct ids below `next_id`.
pub open spec fn chunk_ids_ok(chunks: Seq<ChunkModel>, next_id: u64) -> bool {
    &&& forall|i: int| 0 <= i < chunks.len() ==> ((#[trigger] chunks[i]).free <==> chunks[i].id == 0)
    &&& forall|i: int|
        0 <= i < chunks.len() && !(#[trigger] chunks[i]).free ==> 0 < chunks[i].id < next_id
    &&& forall|i: int, j: int|
        #![trigger chunks[i], chunks[j]]
        0 <= i < j < chunks.len() && !chunks[i].free && !chunks[j].free
            ==> chunks[i].id != chunks[j].id
}

/// No two adjacent chunks are free; freeing coalesces eagerly.
pub open spec fn chunks_canonical(chunks: Seq<ChunkModel>) -> bool {
    forall|i: int|
        0 <= i < chunks.len() - 1 ==> !((#[trigger] chunks[i]).free && chunks[i + 1].free)
}

/// Well-formedness of the whole model.
pub open spec fn fl_wf(m: FreeListModel) -> bool {
    &&& m.block_size > 0
    &&& m.next_id >= 1
    &&& chunks_tile(m.chunks, m.block_size)
    &&& chunk_ids_ok(m.chunks, m.next_id)
    &&& chunks_canonical(m.chunks)
}

/// Least multiple-of-`alignment` at or above `offset`.
pub open spec fn spec_align_up(offset: u64, alignment: u64) -> int
    recommends
        alignment >= 1,
{
    if offset % alignment == 0 {
        offset as int
    } else {
        offset + alignment - offset % alignment
    }
}

/// Whether a request of `size` bytes at `alignment` fits inside chunk `c`.
pub open spec fn chunk_fits(c: ChunkModel, size: u64, alignment: u64) -> bool {
    c.free && spec_align_up(c.offset, alignment) + size <= c.offset + c.size
}

/// Whether any chunk can take the request.
pub open spec fn has_fit(chunks: Seq<ChunkModel>, size: u64, alignment: u64) -> bool {
    exists|i: int| 0 <= i < chunks.len() && chunk_fits(#[trigger] chunks[i], size, alignment)
}

/// `i` is the first chunk the request fits in.
pub open spec fn is_first_fit(chunks: Seq<ChunkModel>, size: u64, alignment: u64, i: int) -> bool {
    &&& 0 <= i < chunks.len()
    &&& chunk_fits(chunks[i], size, alignment)
    &&& forall|j: int| 0 <= j < i ==> !chunk_fits(#[trigger] chunks[j], size, alignment)
}

/// A live chunk with this id exists.
pub open spec fn has_live(chunks: Seq<ChunkModel>, id: u64) -> bool {
    exists|i: int| 0 <= i < chunks.len() && !(#[trigger] chunks[i]).free && chunks[i].id == id
}

/// A live chunk with this id, offset and size exists.
pub open spec fn live_at(chunks: Seq<ChunkModel>, id: u64, offset: u64, size: u64) -> bool {
    exists|i: int|
        0 <= i < chunks.len() && !(#[trigger] chunks[i]).free && chunks[i].id == id
            && chunks[i].offset == offset && chunks[i].size == size
}

/// Index of the live chunk with this id.
pub open spec fn live_index_of(chunks: Seq<ChunkModel>, id: u64) -> int {
    choose|i: int| 0 <= i < chunks.len() && !(#[trigger] chunks[i]).free && chunks[i].id == id
}

/// Bytes carried by live chunks.
pub open spec fn live_bytes(chunks: Seq<ChunkModel>) -> int
    decreases chunks.len(),
{
    if chunks.len() == 0 {
        0
    } else {
        live_bytes(chunks.drop_last()) + if chunks.last().free {
            0
        } else {
            chunks.last().size as int
        }
    }
}

/// Bytes covered by all chunks.
pub open spec fn total_bytes(chunks: Seq<ChunkModel>) -> int
    decreases chunks.len(),
{
    if chunks.len() == 0 {
        0
    } else {
        total_bytes(chunks.drop_last()) + chunks.last().size
    }
}

/// Number of live chunks.
pub open spec fn live_count(chunks: Seq<ChunkModel>) -> int
    decreases chunks.len(),
{
    if chunks.len() == 0 {
        0
    } else {
        live_count(chunks.drop_last()) + if chunks.last().free {
            0int
        } else {
            1int
        }
    }
}

/// All chunks are free: no live allocation remains.
pub open spec fn all_free(chunks: Seq<ChunkModel>) -> bool {
    forall|i: int| 0 <= i < chunks.len() ==> (#[trigger] chunks[i]).free
}

/// Result of carving a request out of free chunk `i`: an optional free pad
/// up to `aligned`, the live chunk, and an optional free remainder.
#[verifier::opaque]
pub open spec fn split_chunks(
    chunks: Seq<ChunkModel>,
    i: int,
    aligned: u64,
    size: u64,
    id: u64,
) -> Seq<ChunkModel>
    recommends
        0 <= i < chunks.len(),
{
    let c = chunks[i];
    let pad = if aligned > c.offset {
        seq![ChunkModel { free: true, id: 0, offset: c.offset, size: (aligned - c.offset) as u64 }]
    } else {
        Seq::<ChunkModel>::empty()
    };
    let live = seq![ChunkModel { free: false, id, offset: aligned, size }];
    let rest_size = c.offset + c.size - aligned - size;
    let rest = if rest_size > 0 {
        seq![
            ChunkModel {
                free: true,
                id: 0,
                offset: (aligned + size) as u64,
                size: rest_size as u64,
            },
        ]
    } else {
        Seq::<ChunkModel>::empty()
    };
    chunks.subrange(0, i) + pad + live + rest + chunks.subrange(i + 1, chunks.len() as int)
}

/// 1 when the split leaves a free pad before the live chunk.
pub open spec fn split_padn(s: Seq<ChunkModel>, i: int, aligned: u64) -> int {
    if aligned > s[i].offset {
        1
    } else {
        0
    }
}

/// 1 when the split leaves a free remainder after the live chunk.
pub open spec fn split_restn(s: Seq<ChunkModel>, i: int, aligned: u64, size: u64) -> int {
    if s[i].offset + s[i].size - aligned - size > 0 {
        1
    } else {
        0
    }
}

/// Result of freeing chunk `i`: it becomes free and is merged with its free
/// neighbours.
#[verifier::opaque]
pub open spec fn merge_free_at(chunks: Seq<ChunkModel>, i: int) -> Seq<ChunkModel>
    recommends
        0 <= i < chunks.len(),
{
    let left = i > 0 && chunks[i - 1].free;
    let right = i + 1 < chunks.len() && chunks[i + 1].free;
    let lo = if left {
        i - 1
    } else {
        i
    };
    let hi = if right {
        i + 2
    } else {
        i + 1
    };
    let merged = ChunkModel {
        free: true,
        id: 0,
        offset: chunks[lo].offset,
        size: (chunks[hi - 1].offset + chunks[hi - 1].size - chunks[lo].offset) as u64,
    };
    chunks.subrange(0, lo) + seq![merged] + chunks.subrange(hi, chunks.len() as int)
}

/// In a tiling, an earlier chunk ends at or before a later chunk starts.
pub proof fn lemma_tile_ordered(chunks: Seq<ChunkModel>, block_size: u64, i: int, j: int)
    requires
        chunks_tile(chunks, block_size),
        0 <= i < j < chunks.len(),
    ensures
        chunks[i].offset + chunks[i].size <= chunks[j].offset,
    decreases j - i,
{
    if j == i + 1 {
    } else {
        lemma_tile_ordered(chunks, block_size, i + 1, j);
    }
}

/// In a tiling, every chunk lies inside `[0, block_size)`.
pub proof fn lemma_tile_bounds(chunks: Seq<ChunkModel>, block_size: u64, i: int)
    requires
        chunks_tile(chunks, block_size),
        0 <= i < chunks.len(),
    ensures
        chunks[i].offset + chunks[i].size <= block_size,
    decreases chunks.len() - i,
{
    if i == chunks.len() - 1 {
    } else {
        lemma_tile_bounds(chunks, block_size, i + 1);
    }
}

/// In a tiling, the chunk sizes sum to the block size.
pub proof fn lemma_tile_total(chunks: Seq<ChunkModel>, block_size: u64)
    requires
        chunks_tile(chunks, block_size),
    ensures
        total_bytes(chunks) == block_size,
    decreases chunks.len(),
{
    if chunks.len() == 1 {
        assert(chunks.drop_last().len() == 0);
        assert(total_bytes(chunks.drop_last()) == 0);
        assert(chunks.last() == chunks[0]);
    } else {
        let head = chunks.drop_last();
        assert(chunks_tile(head, chunks.last().offset)) by {
            assert(head[0] == chunks[0]);
            assert forall|i: int| 0 <= i < head.len() implies (#[trigger] head[i]).size > 0 by {
                assert(head[i] == chunks[i]);
            }
            assert forall|i: int|
                0 <= i < head.len() - 1 implies (#[trigger] head[i]).offset + head[i].size
                == head[i + 1].offset by {
                assert(head[i] == chunks[i]);
                assert(head[i + 1] == chunks[i + 1]);
            }
            assert(head.last() == chunks[chunks.len() - 2]);
            assert(chunks[chunks.len() - 2].offset + chunks[chunks.len() - 2].size
                == chunks[chunks.len() - 1].offset);
        }
        lemma_tile_total(head, chunks.last().offset);
        assert(total_bytes(chunks) == total_bytes(head) + chunks.last().size);
    }
}

/// Live bytes never exceed the bytes covered.
pub proof fn lemma_live_le_total(chunks: Seq<ChunkModel>)
    ensures
        live_bytes(chunks) <= total_bytes(chunks),
    decreases chunks.len(),
{
    if chunks.len() == 0 {
    } else {
        lemma_live_le_total(chunks.drop_last());
    }
}

/// Live bytes of a wellformed block stay within the block size.
pub proof fn lemma_live_bytes_bound(m: FreeListModel)
    requires
        fl_wf(m),
    ensures
        0 <= live_bytes(m.chunks) <= m.block_size,
    decreases m.chunks.len(),
{
    lemma_tile_total(m.chunks, m.block_size);
    lemma_live_le_total(m.chunks);
    lemma_live_bytes_nonneg(m.chunks);
}

/// Live chunk counts are non-negative.
pub proof fn lemma_live_count_nonneg(chunks: Seq<ChunkModel>)
    ensures
        live_count(chunks) >= 0,
    decreases chunks.len(),
{
    if chunks.len() > 0 {
        lemma_live_count_nonneg(chunks.drop_last());
    }
}

/// A block with only free chunks carries no live bytes.
pub proof fn lemma_all_free_live_bytes(chunks: Seq<ChunkModel>)
    requires
        all_free(chunks),
    ensures
        live_bytes(chunks) == 0,
    decreases chunks.len(),
{
    if chunks.len() > 0 {
        assert(forall|i: int|
            0 <= i < chunks.drop_last().len() ==> #[trigger] chunks.drop_last()[i] == chunks[i]);
        lemma_all_free_live_bytes(chunks.drop_last());
        assert(chunks.last() == chunks[chunks.len() - 1]);
    }
}

/// Live bytes are non-negative when all sizes are.
pub proof fn lemma_live_bytes_nonneg(chunks: Seq<ChunkModel>)
    ensures
        live_bytes(chunks) >= 0,
    decreases chunks.len(),
{
    if chunks.len() > 0 {
        lemma_live_bytes_nonneg(chunks.drop_last());
    }
}

/// Splitting live bytes over a concatenation.
pub proof fn lemma_live_bytes_concat(a: Seq<ChunkModel>, b: Seq<ChunkModel>)
    ensures
        live_bytes(a + b) == live_bytes(a) + live_bytes(b),
    decreases b.len(),
{
    if b.len() == 0 {
        assert(a + b =~= a);
    } else {
        assert((a + b).drop_last() =~= a + b.drop_last());
        assert((a + b).last() == b.last());
        lemma_live_bytes_concat(a, b.drop_last());
    }
}

/// Live bytes of a single chunk.
pub proof fn lemma_live_bytes_singleton(c: ChunkModel)
    ensures
        live_bytes(seq![c]) == if c.free {
            0int
        } else {
            c.size as int
        },
{
    assert(seq![c].drop_last() =~= Seq::<ChunkModel>::empty());
    assert(live_bytes(seq![c].drop_last()) == 0);
}

/// Index-wise description of [`split_chunks`].
#[verifier::spinoff_prover]
pub proof fn lemma_split_parts(s: Seq<ChunkModel>, i: int, aligned: u64, size: u64, id: u64)
    requires
        0 <= i < s.len(),
        s[i].offset <= aligned,
        aligned + size <= s[i].offset + s[i].size,
    ensures
        ({
            let s2 = split_chunks(s, i, aligned, size, id);
            let padn = split_padn(s, i, aligned);
            let restn = split_restn(s, i, aligned, size);
            &&& s2.len() == s.len() + padn + restn
            &&& forall|k: int| 0 <= k < i ==> #[trigger] s2[k] == s[k]
            &&& forall|k: int|
                i + padn + 1 + restn <= k < s2.len() ==> #[trigger] s2[k] == s[k - padn - restn]
            &&& (padn == 1 ==> s2[i] == ChunkModel {
                free: true,
                id: 0,
                offset: s[i].offset,
                size: (aligned - s[i].offset) as u64,
            })
            &&& s2[i + padn] == ChunkModel { free: false, id, offset: aligned, size }
            &&& (restn == 1 ==> s2[i + padn + 1] == ChunkModel {
                free: true,
                id: 0,
                offset: (aligned + size) as u64,
                size: (s[i].offset + s[i].size - aligned - size) as u64,
            })
        }),
{
    reveal(split_chunks);
}

/// Live bytes grow by exactly the carved size.
#[verifier::spinoff_prover]
pub proof fn lemma_split_bytes(s: Seq<ChunkModel>, i: int, aligned: u64, size: u64, id: u64)
    requires
        0 <= i < s.len(),
        s[i].free,
        s[i].offset <= aligned,
        aligned + size <= s[i].offset + s[i].size,
    ensures
        live_bytes(split_chunks(s, i, aligned, size, id)) == live_bytes(s) + size,
{
    reveal(split_chunks);
    let s2 = split_chunks(s, i, aligned, size, id);
    let c = s[i];
    let padn = split_padn(s, i, aligned);
    let restn = split_restn(s, i, aligned, size);
    let pad_chunk = ChunkModel {
        free: true,
        id: 0,
        offset: c.offset,
        size: (aligned - c.offset) as u64,
    };
    let live_chunk = ChunkModel { free: false, id, offset: aligned, size };
    let rest_chunk = ChunkModel {
        free: true,
        id: 0,
        offset: (aligned + size) as u64,
        size: (c.offset + c.size - aligned - size) as u64,
    };
    let pre = s.subrange(0, i);
    let post = s.subrange(i + 1, s.len() as int);
    let pad_seq = if padn == 1 {
        seq![pad_chunk]
    } else {
        Seq::<ChunkModel>::empty()
    };
    let rest_seq = if restn == 1 {
        seq![rest_chunk]
    } else {
        Seq::<ChunkModel>::empty()
    };
    assert(s =~= pre + seq![c] + post);
    lemma_live_bytes_concat(pre + seq![c], post);
    lemma_live_bytes_concat(pre, seq![c]);
    lemma_live_bytes_singleton(c);
    assert(s2 =~= pre + pad_seq + seq![live_chunk] + rest_seq + post);
    lemma_live_bytes_concat(pre + pad_seq + seq![live_chunk] + rest_seq, post);
    lemma_live_bytes_concat(pre + pad_seq + seq![live_chunk], rest_seq);
    lemma_live_bytes_concat(pre + pad_seq, seq![live_chunk]);
    lemma_live_bytes_concat(pre, pad_seq);
    lemma_live_bytes_singleton(live_chunk);
    if padn == 1 {
        lemma_live_bytes_singleton(pad_chunk);
    }
    if restn == 1 {
        lemma_live_bytes_singleton(rest_chunk);
    }
    if rest_seq.len() == 0 {
        assert(live_bytes(rest_seq) == 0);
    }
    if pad_seq.len() == 0 {
        assert(live_bytes(pad_seq) == 0);
    }
}

/// The split keeps the tiling.
#[verifier::rlimit(50)]
#[verifier::spinoff_prover]
proof fn lemma_split_tile(s: Seq<ChunkModel>, block_size: u64, i: int, aligned: u64, size: u64, id: u64)
    requires
        chunks_tile(s, block_size),
        0 <= i < s.len(),
        s[i].free,
        s[i].offset <= aligned,
        aligned + size <= s[i].offset + s[i].size,
        size >= 1,
    ensures
        chunks_tile(split_chunks(s, i, aligned, size, id), block_size),
{
    let len = s.len() as int;
    let c = s[i];
    let s2 = split_chunks(s, i, aligned, size, id);
    let padn = split_padn(s, i, aligned);
    let restn = split_restn(s, i, aligned, size);
    let live_chunk = ChunkModel { free: false, id, offset: aligned, size };
    let rest_chunk = ChunkModel {
        free: true,
        id: 0,
        offset: (aligned + size) as u64,
        size: (c.offset + c.size - aligned - size) as u64,
    };
    lemma_split_parts(s, i, aligned, size, id);
    assert(padn == 0 ==> aligned == c.offset);
    assert(restn == 0 ==> aligned + size == c.offset + c.size);
    assert(s2[0].offset == 0);
    assert forall|k: int| 0 <= k < s2.len() implies (#[trigger] s2[k]).size > 0 by {
        if k < i {
        } else if k >= i + padn + 1 + restn {
            assert(s2[k] == s[k - padn - restn]);
        }
    }
    assert forall|k: int|
        0 <= k < s2.len() - 1 implies (#[trigger] s2[k]).offset + s2[k].size
        == s2[k + 1].offset by {
        if k < i - 1 {
            assert(s2[k] == s[k] && s2[k + 1] == s[k + 1]);
        } else if k == i - 1 {
            assert(s2[k] == s[k]);
        } else if k >= i + padn + 1 + restn {
            assert(s2[k] == s[k - padn - restn] && s2[k + 1] == s[k + 1 - padn - restn]);
        } else if k == i + padn + restn {
            // last piece of the split against the old right neighbour
            assert(s2[k + 1] == s[i + 1]);
        }
    }
    assert(s2.last() == (if i + padn + restn == s2.len() - 1 {
        if restn == 1 {
            rest_chunk
        } else {
            live_chunk
        }
    } else {
        s[len - 1]
    }));
}

/// The split keeps the id discipline, now up to `id + 1`.
#[verifier::rlimit(50)]
#[verifier::spinoff_prover]
proof fn lemma_split_ids(s: Seq<ChunkModel>, i: int, aligned: u64, size: u64, id: u64)
    requires
        chunk_ids_ok(s, id),
        0 <= i < s.len(),
        s[i].free,
        s[i].offset <= aligned,
        aligned + size <= s[i].offset + s[i].size,
        0 < id < u64::MAX,
    ensures
        chunk_ids_ok(split_chunks(s, i, aligned, size, id), (id + 1) as u64),
{
    let s2 = split_chunks(s, i, aligned, size, id);
    let padn = split_padn(s, i, aligned);
    let restn = split_restn(s, i, aligned, size);
    lemma_split_parts(s, i, aligned, size, id);
    assert forall|k: int| 0 <= k < s2.len() implies ((#[trigger] s2[k]).free <==> s2[k].id
        == 0) by {
        if k < i {
        } else if k >= i + padn + 1 + restn {
            assert(s2[k] == s[k - padn - restn]);
        }
    }
    assert forall|k: int| 0 <= k < s2.len() && !(#[trigger] s2[k]).free implies 0 < s2[k].id
        < id + 1 by {
        if k < i {
        } else if k >= i + padn + 1 + restn {
            assert(s2[k] == s[k - padn - restn]);
        }
    }
    assert forall|k: int, l: int|
        #![trigger s2[k], s2[l]]
        0 <= k < l < s2.len() && !s2[k].free && !s2[l].free implies s2[k].id != s2[l].id by {
        let ok = if k < i {
            k
        } else {
            k - padn - restn
        };
        let ol = if l < i {
            l
        } else {
            l - padn - restn
        };
        if k != i + padn && l != i + padn {
            assert(s2[k] == s[ok] && s2[l] == s[ol]);
            assert(s[ok].id != s[ol].id);
        } else if k == i + padn {
            assert(s2[l] == s[ol] && !s[ol].free);
            assert(s[ol].id < id);
        } else {
            assert(s2[k] == s[ok] && !s[ok].free);
            assert(s[ok].id < id);
        }
    }
}

/// The split leaves no two adjacent free chunks.
#[verifier::rlimit(50)]
#[verifier::spinoff_prover]
proof fn lemma_split_canonical(s: Seq<ChunkModel>, i: int, aligned: u64, size: u64, id: u64)
    requires
        chunks_canonical(s),
        0 <= i < s.len(),
        s[i].free,
        s[i].offset <= aligned,
        aligned + size <= s[i].offset + s[i].size,
    ensures
        chunks_canonical(split_chunks(s, i, aligned, size, id)),
{
    let s2 = split_chunks(s, i, aligned, size, id);
    let padn = split_padn(s, i, aligned);
    let restn = split_restn(s, i, aligned, size);
    lemma_split_parts(s, i, aligned, size, id);
    assert forall|k: int| 0 <= k < s2.len() - 1 implies !((#[trigger] s2[k]).free && s2[k
        + 1].free) by {
        if k < i - 1 {
            assert(s2[k] == s[k] && s2[k + 1] == s[k + 1]);
        } else if k == i - 1 {
            assert(s2[k] == s[i - 1]);
            assert(!(s[i - 1].free && s[i].free));
        } else if k >= i + padn + 1 + restn {
            assert(s2[k] == s[k - padn - restn] && s2[k + 1] == s[k + 1 - padn - restn]);
        } else if k == i + padn + restn && k < s2.len() - 1 {
            assert(s2[k + 1] == s[i + 1]);
            if restn == 1 {
                assert(!(s[i].free && s[i + 1].free));
            } else {
                assert(!s2[k].free);
            }
        }
    }
}

/// Carving a fitting request out of free chunk `i` preserves the invariant,
/// adds `size` live bytes and introduces exactly the fresh id.
#[verifier::rlimit(50)]
#[verifier::spinoff_prover]
pub proof fn lemma_split_wf(m: FreeListModel, i: int, aligned: u64, size: u64, id: u64)
    requires
        fl_wf(m),
        0 <= i < m.chunks.len(),
        m.chunks[i].free,
        m.chunks[i].offset <= aligned,
        aligned + size <= m.chunks[i].offset + m.chunks[i].size,
        size >= 1,
        id == m.next_id,
        id < u64::MAX,
    ensures
        ({
            let s2 = split_chunks(m.chunks, i, aligned, size, id);
            &&& chunks_tile(s2, m.block_size)
            &&& chunk_ids_ok(s2, (id + 1) as u64)
            &&& chunks_canonical(s2)
            &&& live_bytes(s2) == live_bytes(m.chunks) + size
            &&& has_live(s2, id)
            &&& live_at(s2, id, aligned, size)
            &&& !has_live(m.chunks, id)
            &&& aligned + size <= m.block_size
        }),
{
    let s = m.chunks;
    let s2 = split_chunks(s, i, aligned, size, id);
    let padn = split_padn(s, i, aligned);
    lemma_tile_bounds(s, m.block_size, i);
    lemma_split_parts(s, i, aligned, size, id);
    lemma_split_bytes(s, i, aligned, size, id);
    lemma_split_tile(s, m.block_size, i, aligned, size, id);
    lemma_split_ids(s, i, aligned, size, id);
    lemma_split_canonical(s, i, aligned, size, id);
    // the fresh id is live now and was not before
    assert(has_live(s2, id) && live_at(s2, id, aligned, size)) by {
        assert(!s2[i + padn].free && s2[i + padn].id == id && s2[i + padn].offset == aligned && s2[
            i + padn].size == size);
    }
    if has_live(s, id) {
        let w = choose|k: int| 0 <= k < s.len() && !(#[trigger] s[k]).free && s[k].id == id;
        assert(s[w].id < m.next_id);
        assert(false);
    }
}

/// Number of chunks a merge swallows to the left.
pub open spec fn merge_leftn(s: Seq<ChunkModel>, i: int) -> int {
    if i > 0 && s[i - 1].free {
        1
    } else {
        0
    }
}

/// Number of chunks a merge swallows to the right.
pub open spec fn merge_rightn(s: Seq<ChunkModel>, i: int) -> int {
    if i + 1 < s.len() && s[i + 1].free {
        1
    } else {
        0
    }
}

/// Index-wise description of [`merge_free_at`].
#[verifier::spinoff_prover]
pub proof fn lemma_merge_parts(s: Seq<ChunkModel>, i: int)
    requires
        0 <= i < s.len(),
    ensures
        ({
            let s2 = merge_free_at(s, i);
            let lo = i - merge_leftn(s, i);
            let hi = i + 1 + merge_rightn(s, i);
            &&& s2.len() == s.len() - (hi - lo) + 1
            &&& forall|k: int| 0 <= k < lo ==> #[trigger] s2[k] == s[k]
            &&& forall|k: int| lo < k < s2.len() ==> #[trigger] s2[k] == s[k + (hi - lo) - 1]
            &&& s2[lo] == ChunkModel {
                free: true,
                id: 0,
                offset: s[lo].offset,
                size: (s[hi - 1].offset + s[hi - 1].size - s[lo].offset) as u64,
            }
        }),
{
    reveal(merge_free_at);
}

/// Merging free bytes drops exactly the freed chunk's live bytes.
#[verifier::spinoff_prover]
pub proof fn lemma_merge_bytes(s: Seq<ChunkModel>, i: int)
    requires
        0 <= i < s.len(),
        !s[i].free,
        chunks_canonical(s),
    ensures
        live_bytes(merge_free_at(s, i)) == live_bytes(s) - s[i].size,
    decreases s.len(),
{
    reveal(merge_free_at);
    let s2 = merge_free_at(s, i);
    let lo = i - merge_leftn(s, i);
    let hi = i + 1 + merge_rightn(s, i);
    let merged = ChunkModel {
        free: true,
        id: 0,
        offset: s[lo].offset,
        size: (s[hi - 1].offset + s[hi - 1].size - s[lo].offset) as u64,
    };
    let pre = s.subrange(0, lo);
    let mid = s.subrange(lo, hi);
    let post = s.subrange(hi, s.len() as int);
    assert(s =~= pre + mid + post);
    lemma_live_bytes_concat(pre + mid, post);
    lemma_live_bytes_concat(pre, mid);
    assert(s2 =~= pre + seq![merged] + post);
    lemma_live_bytes_concat(pre + seq![merged], post);
    lemma_live_bytes_concat(pre, seq![merged]);
    lemma_live_bytes_singleton(merged);
    // live bytes of the swallowed window are exactly the freed chunk's
    let le = merge_leftn(s, i);
    let ri = merge_rightn(s, i);
    let mid0 = s.subrange(lo, i);
    let mid1 = s.subrange(lo, i + 1);
    if le == 1 {
        assert(mid0 =~= seq![s[i - 1]]);
        lemma_live_bytes_singleton(s[i - 1]);
        assert(live_bytes(mid0) == 0);
    } else {
        assert(mid0 =~= Seq::<ChunkModel>::empty());
        assert(live_bytes(mid0) == 0);
    }
    assert(mid1.drop_last() =~= mid0);
    assert(mid1.last() == s[i]);
    assert(live_bytes(mid1) == live_bytes(mid0) + s[i].size);
    if ri == 1 {
        assert(mid.drop_last() =~= mid1);
        assert(mid.last() == s[i + 1]);
        assert(s[i + 1].free);
        assert(live_bytes(mid) == live_bytes(mid1));
    } else {
        assert(mid =~= mid1);
    }
    assert(live_bytes(mid) == s[i].size);
}

/// Freeing chunk `i` and coalescing preserves the invariant, removes the
/// chunk's id and returns its bytes.
#[verifier::rlimit(100)]
#[verifier::spinoff_prover]
pub proof fn lemma_merge_wf(m: FreeListModel, i: int)
    requires
        fl_wf(m),
        0 <= i < m.chunks.len(),
        !m.chunks[i].free,
    ensures
        ({
            let s2 = merge_free_at(m.chunks, i);
            &&& chunks_tile(s2, m.block_size)
            &&& chunk_ids_ok(s2, m.next_id)
            &&& chunks_canonical(s2)
            &&& live_bytes(s2) == live_bytes(m.chunks) - m.chunks[i].size
            &&& !has_live(s2, m.chunks[i].id)
        }),
{
    let s = m.chunks;
    let len = s.len() as int;
    let s2 = merge_free_at(s, i);
    let le = merge_leftn(s, i);
    let ri = merge_rightn(s, i);
    let lo = i - le;
    let hi = i + 1 + ri;
    lemma_merge_parts(s, i);
    lemma_merge_bytes(s, i);
    lemma_tile_bounds(s, m.block_size, hi - 1);
    assert(chunks_tile(s2, m.block_size)) by {
        assert(s2[0].offset == 0);
        assert forall|k: int| 0 <= k < s2.len() implies (#[trigger] s2[k]).size > 0 by {
            if k < lo {
            } else if k > lo {
                assert(s2[k] == s[k + (hi - lo) - 1]);
            } else {
                if le == 1 {
                    assert(s[lo].offset + s[lo].size == s[lo + 1].offset);
                }
                if ri == 1 {
                    assert(s[hi - 2].offset + s[hi - 2].size == s[hi - 1].offset);
                }
            }
        }
        assert forall|k: int|
            0 <= k < s2.len() - 1 implies (#[trigger] s2[k]).offset + s2[k].size
            == s2[k + 1].offset by {
            if k < lo - 1 {
                assert(s2[k] == s[k] && s2[k + 1] == s[k + 1]);
            } else if k == lo - 1 {
                assert(s2[k] == s[k]);
            } else if k == lo {
                assert(s2[k + 1] == s[hi]);
            } else {
                assert(s2[k] == s[k + (hi - lo) - 1] && s2[k + 1] == s[k + (hi - lo)]);
            }
        }
        assert(s2.last() == (if lo == s2.len() - 1 {
            s2[lo]
        } else {
            s[len - 1]
        }));
    }
    assert(chunk_ids_ok(s2, m.next_id)) by {
        assert forall|k: int| 0 <= k < s2.len() implies ((#[trigger] s2[k]).free <==> s2[k].id
            == 0) by {
            if k > lo {
                assert(s2[k] == s[k + (hi - lo) - 1]);
            }
        }
        assert forall|k: int| 0 <= k < s2.len() && !(#[trigger] s2[k]).free implies 0 < s2[k].id
            < m.next_id by {
            if k > lo {
                assert(s2[k] == s[k + (hi - lo) - 1]);
            }
        }
        assert forall|k: int, l: int|
            #![trigger s2[k], s2[l]]
            0 <= k < l < s2.len() && !s2[k].free && !s2[l].free implies s2[k].id != s2[l].id by {
            let ok = if k < lo {
                k
            } else {
                k + (hi - lo) - 1
            };
            let ol = if l < lo {
                l
            } else {
                l + (hi - lo) - 1
            };
            assert(s2[k] == s[ok] && s2[l] == s[ol]);
            assert(s[ok].id != s[ol].id);
        }
    }
    assert(chunks_canonical(s2)) by {
        assert forall|k: int| 0 <= k < s2.len() - 1 implies !((#[trigger] s2[k]).free && s2[k
            + 1].free) by {
            if k < lo - 1 {
                assert(s2[k] == s[k] && s2[k + 1] == s[k + 1]);
            } else if k == lo - 1 {
                assert(s2[k] == s[k]);
                if le == 1 {
                    assert(!(s[lo - 1].free && s[lo].free));
                } else {
                    assert(!s[i - 1].free || i == 0);
                }
            } else if k == lo {
                assert(s2[k + 1] == s[hi]);
                if ri == 1 {
                    assert(!(s[hi - 1].free && s[hi].free));
                } else {
                    assert(hi == i + 1);
                    if hi < len {
                        assert(!s[i + 1].free);
                    }
                }
            } else {
                assert(s2[k] == s[k + (hi - lo) - 1] && s2[k + 1] == s[k + (hi - lo)]);
            }
        }
    }
    assert(!has_live(s2, s[i].id)) by {
        if has_live(s2, s[i].id) {
            let w = choose|k: int|
                0 <= k < s2.len() && !(#[trigger] s2[k]).free && s2[k].id == s[i].id;
            let ow = if w < lo {
                w
            } else {
                w + (hi - lo) - 1
            };
            assert(s2[w] == s[ow]);
            assert(ow != i);
            assert(!s[ow].free && !s[i].free && s[ow].id == s[i].id);
            assert(false);
        }
    }
}

/// Round trip: carving a request out of a wellformed tiling and then
/// freeing the carved chunk restores the tiling exactly, byte for byte.
#[verifier::rlimit(100)]
#[verifier::spinoff_prover]
pub proof fn lemma_split_free_round_trip(m: FreeListModel, i: int, aligned: u64, size: u64, id: u64)
    requires
        fl_wf(m),
        0 <= i < m.chunks.len(),
        m.chunks[i].free,
        m.chunks[i].offset <= aligned,
        aligned + size <= m.chunks[i].offset + m.chunks[i].size,
        size >= 1,
        id == m.next_id,
        id < u64::MAX,
    ensures
        ({
            let s2 = split_chunks(m.chunks, i, aligned, size, id);
            merge_free_at(s2, live_index_of(s2, id)) == m.chunks
        }),
{
    let s = m.chunks;
    let len = s.len() as int;
    let c = s[i];
    let s2 = split_chunks(s, i, aligned, size, id);
    let padn = split_padn(s, i, aligned);
    let restn = split_restn(s, i, aligned, size);
    lemma_split_parts(s, i, aligned, size, id);
    lemma_split_wf(m, i, aligned, size, id);
    // the carved chunk sits at i + padn
    let j = live_index_of(s2, id);
    assert(!s2[i + padn].free && s2[i + padn].id == id);
    assert(0 <= j < s2.len() && !s2[j].free && s2[j].id == id);
    if j != i + padn {
        assert(false);
    }
    lemma_merge_parts(s2, j);
    let le = merge_leftn(s2, j);
    let ri = merge_rightn(s2, j);
    // the merge swallows exactly the pad and the remainder
    assert(le == padn) by {
        if padn == 1 {
            assert(s2[j - 1].free);
        } else {
            if j > 0 {
                assert(s2[j - 1] == s[i - 1]);
                assert(!(s[i - 1].free && s[i].free));
            }
        }
    }
    assert(ri == restn) by {
        if restn == 1 {
            assert(s2[j + 1].free);
        } else {
            if j + 1 < s2.len() {
                assert(s2[j + 1] == s[i + 1]);
                assert(!(s[i].free && s[i + 1].free));
            }
        }
    }
    let lo = j - le;
    let hi = j + 1 + ri;
    assert(lo == i);
    let s3 = merge_free_at(s2, j);
    assert(s3.len() == len);
    assert(c.id == 0);
    assert forall|k: int| 0 <= k < len implies s3[k] == s[k] by {
        if k < i {
            assert(s3[k] == s2[k]);
        } else if k == i {
            assert(s2[lo].offset == c.offset);
            assert(s2[hi - 1].offset + s2[hi - 1].size == c.offset + c.size);
        } else {
            assert(s3[k] == s2[k + (hi - lo) - 1]);
            assert(s2[k + padn + restn] == s[k]);
        }
    }
    assert(s3 =~= s);
}

/// Two distinct live chunks of a tiling do not overlap.
pub proof fn lemma_live_chunks_disjoint(m: FreeListModel, i: int, j: int)
    requires
        fl_wf(m),
        0 <= i < m.chunks.len(),
        0 <= j < m.chunks.len(),
        i != j,
    ensures
        m.chunks[i].offset + m.chunks[i].size <= m.chunks[j].offset || m.chunks[j].offset
            + m.chunks[j].size <= m.chunks[i].offset,
{
    if i < j {
        lemma_tile_ordered(m.chunks, m.block_size, i, j);
    } else {
        lemma_tile_ordered(m.chunks, m.block_size, j, i);
    }
}

/// Non-overlap: two distinct live allocations of one block occupy
/// disjoint byte ranges.
pub proof fn lemma_live_allocations_disjoint(m: FreeListModel, id1: u64, id2: u64)
    requires
        fl_wf(m),
        has_live(m.chunks, id1),
        has_live(m.chunks, id2),
        id1 != id2,
    ensures
        ({
            let i = live_index_of(m.chunks, id1);
            let j = live_index_of(m.chunks, id2);
            m.chunks[i].offset + m.chunks[i].size <= m.chunks[j].offset || m.chunks[j].offset
                + m.chunks[j].size <= m.chunks[i].offset
        }),
{
    let i = live_index_of(m.chunks, id1);
    let j = live_index_of(m.chunks, id2);
    assert(0 <= i < m.chunks.len() && !m.chunks[i].free && m.chunks[i].id == id1);
    assert(0 <= j < m.chunks.len() && !m.chunks[j].free && m.chunks[j].id == id2);
    lemma_live_chunks_disjoint(m, i, j);
}

/// One range of the block, free or live, with its advisory display name.
pub struct Chunk {
    pub(crate) offset: u64,
    pub(crate) size: u64,
    /// 0 marks a free chunk.
    pub(crate) alloc_id: u64,
    pub(crate) name: Option<String>,
}

impl Chunk {
    /// Display name of a live chunk, if one was recorded.
    pub fn chunk_name(&self) -> &Option<String> {
        &self.name
    }
}

impl View for Chunk {
    type V = ChunkModel;

    open(crate) spec fn view(&self) -> ChunkModel {
        ChunkModel {
            free: self.alloc_id == 0,
            id: self.alloc_id,
            offset: self.offset,
            size: self.size,
        }
    }
}

/// First-fit sub-allocator over one block.
pub struct FreeListAllocator {
    pub(crate) block_size: u64,
    pub(crate) next_id: u64,
    pub(crate) chunks: Vec<Chunk>,
}

impl View for FreeListAllocator {
    type V = FreeListModel;

    open(crate) spec fn view(&self) -> FreeListModel {
        FreeListModel {
            block_size: self.block_size,
            next_id: self.next_id,
            chunks: self.chunks@.map_values(|c: Chunk| c@),
        }
    }
}

/// Least multiple of `alignment` at or above `offset`, or `None` when that
/// value does not fit in 64 bits.
fn align_up_exec(offset: u64, alignment: u64) -> (r: Option<u64>)
    requires
        alignment >= 1,
    ensures
        match r {
            Some(v) => ({
                &&& v == spec_align_up(offset, alignment)
                &&& v % alignment == 0
                &&& offset <= v < offset + alignment
            }),
            None => spec_align_up(offset, alignment) > u64::MAX,
        },
{
    let rem = offset % alignment;
    if rem == 0 {
        Some(offset)
    } else {
        let pad = alignment - rem;
        proof {
            lemma_fundamental_div_mod(offset as int, alignment as int);
            let q = offset as int / alignment as int;
            assert(offset + pad == (q + 1) * alignment) by {
                lemma_mul_is_distributive_add(alignment as int, q, 1);
                lemma_mul_is_commutative(alignment as int, q + 1);
                lemma_mul_is_commutative(alignment as int, q);
            }
            lemma_mod_multiples_basic(q + 1, alignment as int);
        }
        if pad > u64::MAX - offset {
            None
        } else {
            Some(offset + pad)
        }
    }
}

impl FreeListAllocator {
    /// The allocator's invariant; see [`fl_wf`].
    pub open spec fn wf(&self) -> bool {
        fl_wf(self@)
    }

    /// A fresh allocator: one free chunk covering the whole block.
    pub fn new(size: u64) -> (r: Self)
        requires
            size >= 1,
        ensures
            r.wf(),
            r@.block_size == size,
            r@.next_id == 1,
            r@.chunks.len() == 1,
            all_free(r@.chunks),
            live_bytes(r@.chunks) == 0,
    {
        let mut chunks: Vec<Chunk> = Vec::new();
        chunks.push(Chunk { offset: 0, size, alloc_id: 0, name: None });
        let r = FreeListAllocator { block_size: size, next_id: 1, chunks };
        proof {
            assert(r@.chunks =~= seq![
                ChunkModel { free: true, id: 0, offset: 0, size },
            ]);
            lemma_live_bytes_singleton(ChunkModel { free: true, id: 0, offset: 0, size });
            assert(r@.chunks.drop_last() =~= Seq::<ChunkModel>::empty());
        }
        r
    }

    /// True exactly when no live allocation remains.
    pub fn is_empty(&self) -> (r: bool)
        requires
            self.wf(),
        ensures
            r == all_free(self@.chunks),
    {
        let r = self.chunks.len() == 1 && self.chunks[0].alloc_id == 0;
        proof {
            if r {
                assert forall|i: int| 0 <= i < self@.chunks.len() implies (
                #[trigger] self@.chunks[i]).free by {
                    assert(i == 0);
                }
            } else {
                if self.chunks@.len() >= 2 && all_free(self@.chunks) {
                    assert(self@.chunks[0].free && self@.chunks[1].free);
                    assert(false);
                }
            }
        }
        r
    }

    /// Carve `size` bytes at offset `aligned` out of the free chunk `i`,
    /// handing out the next chunk id.
    #[verifier::rlimit(100)]
    #[verifier::spinoff_prover]
    fn carve(&mut self, i: usize, aligned: u64, size: u64, name: &str) -> (id: u64)
        requires
            fl_wf(old(self)@),
            i < old(self)@.chunks.len(),
            old(self)@.chunks[i as int].free,
            old(self)@.chunks[i as int].offset <= aligned,
            aligned + size <= old(self)@.chunks[i as int].offset + old(self)@.chunks[i as int].size,
            size >= 1,
            old(self)@.next_id < u64::MAX,
        ensures
            id == old(self)@.next_id,
            final(self)@.next_id == old(self)@.next_id + 1,
            final(self)@.block_size == old(self)@.block_size,
            final(self)@.chunks == split_chunks(old(self)@.chunks, i as int, aligned, size, id),
    {
        let ghost m0 = old(self)@;
        let n = self.chunks.len();
        assert(i < n);
        let c_off = self.chunks[i].offset;
        let c_size = self.chunks[i].size;
        proof {
            assert(self@.chunks[i as int] == self.chunks@[i as int]@);
            lemma_tile_bounds(self@.chunks, self@.block_size, i as int);
        }
        let end = c_off + c_size;
        let id = self.next_id;
        self.next_id = id + 1;
        let pad = aligned - c_off;
        let rest = end - aligned - size;
        let live_chunk = Chunk { offset: aligned, size, alloc_id: id, name: Some(name.to_owned()) };
        if pad == 0 && rest == 0 {
            self.chunks[i] = live_chunk;
        } else if pad == 0 {
            self.chunks[i] = live_chunk;
            self.chunks.insert(
                i + 1,
                Chunk { offset: aligned + size, size: rest, alloc_id: 0, name: None },
            );
        } else if rest == 0 {
            self.chunks[i] = Chunk { offset: c_off, size: pad, alloc_id: 0, name: None };
            self.chunks.insert(i + 1, live_chunk);
        } else {
            self.chunks[i] = Chunk { offset: c_off, size: pad, alloc_id: 0, name: None };
            self.chunks.insert(
                i + 1,
                Chunk { offset: aligned + size, size: rest, alloc_id: 0, name: None },
            );
            self.chunks.insert(i + 1, live_chunk);
        }
        proof {
            lemma_split_parts(m0.chunks, i as int, aligned, size, id);
            assert(self@.chunks =~= split_chunks(m0.chunks, i as int, aligned, size, id));
        }
        id
    }

    /// Carve `size` bytes at `alignment` out of the first free chunk with
    /// enough room.  Returns the aligned offset and the fresh chunk id.
    ///
    /// Fails with `OutOfMemory` exactly when no chunk fits, and with an
    /// internal error only when the id space is exhausted.
    pub fn allocate(&mut self, size: u64, alignment: u64, name: &str) -> (r: Result<
        (u64, u64),
        AllocationError,
    >)
        requires
            fl_wf(old(self)@),
            size >= 1,
            alignment >= 1,
        ensures
            fl_wf(final(self)@),
            final(self)@.block_size == old(self)@.block_size,
            match r {
                Ok(ret) => ({
                    &&& old(self)@.next_id < u64::MAX
                    &&& ret.1 == old(self)@.next_id
                    &&& final(self)@.next_id == old(self)@.next_id + 1
                    &&& ret.0 % alignment == 0
                    &&& ret.0 + size <= old(self)@.block_size
                    &&& exists|i: int|
                        #![trigger is_first_fit(old(self)@.chunks, size, alignment, i)]
                        ({
                            &&& is_first_fit(old(self)@.chunks, size, alignment, i)
                            &&& ret.0 == spec_align_up(old(self)@.chunks[i].offset, alignment)
                            &&& final(self)@.chunks == split_chunks(
                                old(self)@.chunks,
                                i,
                                ret.0,
                                size,
                                ret.1,
                            )
                        })
                    &&& live_bytes(final(self)@.chunks) == live_bytes(old(self)@.chunks) + size
                    &&& has_live(final(self)@.chunks, ret.1)
                    &&& live_at(final(self)@.chunks, ret.1, ret.0, size)
                    &&& !has_live(old(self)@.chunks, ret.1)
                }),
                Err(e) => ({
                    &&& final(self)@ == old(self)@
                    &&& (e == AllocationError::OutOfMemory <==> !has_fit(
                        old(self)@.chunks,
                        size,
                        alignment,
                    ))
                    &&& (e != AllocationError::OutOfMemory ==> (e matches AllocationError::Internal(
                        _,
                    ) && old(self)@.next_id == u64::MAX))
                }),
            },
    {
        let n = self.chunks.len();
        let mut i: usize = 0;
        while i < n
            invariant
                *self == *old(self),
                fl_wf(self@),
                n == self.chunks@.len(),
                size >= 1,
                alignment >= 1,
                forall|j: int|
                    0 <= j < i ==> !chunk_fits(#[trigger] self@.chunks[j], size, alignment),
            decreases n - i,
        {
            let c_off = self.chunks[i].offset;
            let c_size = self.chunks[i].size;
            let c_id = self.chunks[i].alloc_id;
            proof {
                assert(self@.chunks[i as int] == self.chunks@[i as int]@);
                lemma_tile_bounds(self@.chunks, self@.block_size, i as int);
            }
            if c_id == 0 {
                let end = c_off + c_size;
                match align_up_exec(c_off, alignment) {
                    Some(aligned) => {
                        if aligned <= end && size <= end - aligned {
                            proof {
                                assert(chunk_fits(self@.chunks[i as int], size, alignment));
                            }
                            if self.next_id == u64::MAX {
                                proof {
                                    assert(has_fit(self@.chunks, size, alignment));
                                }
                                return Err(
                                    AllocationError::Internal("Out of chunk ids.".to_owned()),
                                );
                            }
                            proof {
                                assert(is_first_fit(old(self)@.chunks, size, alignment, i as int));
                            }
                            let ghost m0 = self@;
                            let id = self.carve(i, aligned, size, name);
                            proof {
                                lemma_split_wf(m0, i as int, aligned, size, id);
                            }
                            return Ok((aligned, id));
                        } else {
                            proof {
                                assert(!chunk_fits(self@.chunks[i as int], size, alignment));
                            }
                        }
                    },
                    None => {
                        proof {
                            lemma_tile_bounds(self@.chunks, self@.block_size, i as int);
                            assert(!chunk_fits(self@.chunks[i as int], size, alignment));
                        }
                    },
                }
            } else {
                proof {
                    assert(!(#[trigger] self@.chunks[i as int]).free);
                    assert(!chunk_fits(self@.chunks[i as int], size, alignment));
                }
            }
            i += 1;
        }
        proof {
            if has_fit(self@.chunks, size, alignment) {
                let w = choose|k: int|
                    0 <= k < self@.chunks.len() && chunk_fits(
                        #[trigger] self@.chunks[k],
                        size,
                        alignment,
                    );
                assert(!chunk_fits(self@.chunks[w], size, alignment));
                assert(false);
            }
        }
        Err(AllocationError::OutOfMemory)
    }

    /// Mark live chunk `i` free and coalesce it with its free neighbours.
    #[verifier::rlimit(100)]
    #[verifier::spinoff_prover]
    fn coalesce(&mut self, i: usize)
        requires
            fl_wf(old(self)@),
            i < old(self)@.chunks.len(),
            !old(self)@.chunks[i as int].free,
        ensures
            final(self)@.next_id == old(self)@.next_id,
            final(self)@.block_size == old(self)@.block_size,
            final(self)@.chunks == merge_free_at(old(self)@.chunks, i as int),
    {
        let ghost m0 = old(self)@;
        let n = self.chunks.len();
        assert(i < n);
        proof {
            lemma_merge_parts(m0.chunks, i as int);
            lemma_tile_bounds(m0.chunks, m0.block_size, i as int);
            if i > 0 {
                assert(m0.chunks[i as int - 1].offset + m0.chunks[i as int - 1].size
                    == m0.chunks[i as int].offset);
            }
            if i + 1 < n {
                assert(m0.chunks[i as int].offset + m0.chunks[i as int].size == m0.chunks[i as int
                    + 1].offset);
                lemma_tile_bounds(m0.chunks, m0.block_size, i as int + 1);
            }
        }
        let left = i > 0 && self.chunks[i - 1].alloc_id == 0;
        let right = i + 1 < n && self.chunks[i + 1].alloc_id == 0;
        if left && right {
            let lo_off = self.chunks[i - 1].offset;
            let hi_end = self.chunks[i + 1].offset + self.chunks[i + 1].size;
            self.chunks[i - 1] = Chunk {
                offset: lo_off,
                size: hi_end - lo_off,
                alloc_id: 0,
                name: None,
            };
            self.chunks.remove(i);
            self.chunks.remove(i);
        } else if left {
            let lo_off = self.chunks[i - 1].offset;
            let hi_end = self.chunks[i].offset + self.chunks[i].size;
            self.chunks[i - 1] = Chunk {
                offset: lo_off,
                size: hi_end - lo_off,
                alloc_id: 0,
                name: None,
            };
            self.chunks.remove(i);
        } else if right {
            let lo_off = self.chunks[i].offset;
            let hi_end = self.chunks[i + 1].offset + self.chunks[i + 1].size;
            self.chunks[i] = Chunk {
                offset: lo_off,
                size: hi_end - lo_off,
                alloc_id: 0,
                name: None,
            };
            self.chunks.remove(i + 1);
        } else {
            let lo_off = self.chunks[i].offset;
            let size = self.chunks[i].size;
            self.chunks[i] = Chunk { offset: lo_off, size, alloc_id: 0, name: None };
        }
        proof {
            assert(self@.chunks =~= merge_free_at(m0.chunks, i as int));
        }
    }

    /// Return live chunk `chunk_id` to the free pool, coalescing eagerly.
    ///
    /// Freeing an id that is not live (a double free) or a missing id is an
    /// internal error and leaves the allocator unchanged.
    pub fn free(&mut self, chunk_id: Option<u64>) -> (r: Result<(), AllocationError>)
        requires
            fl_wf(old(self)@),
        ensures
            fl_wf(final(self)@),
            final(self)@.block_size == old(self)@.block_size,
            final(self)@.next_id == old(self)@.next_id,
            match chunk_id {
                None => r is Err && final(self)@ == old(self)@,
                Some(id) => {
                    if has_live(old(self)@.chunks, id) {
                        let j = live_index_of(old(self)@.chunks, id);
                        &&& r is Ok
                        &&& final(self)@.chunks == merge_free_at(old(self)@.chunks, j)
                        &&& live_bytes(final(self)@.chunks) == live_bytes(old(self)@.chunks)
                            - old(self)@.chunks[j].size
                        &&& !has_live(final(self)@.chunks, id)
                    } else {
                        r is Err && final(self)@ == old(self)@
                    }
                },
            },
            r is Err ==> r matches Err(AllocationError::Internal(_)),
    {
        let id = match chunk_id {
            Some(id) => id,
            None => {
                return Err(
                    AllocationError::Internal("Chunk id must be a valid value.".to_owned()),
                );
            },
        };
        if id == 0 {
            proof {
                if has_live(self@.chunks, 0) {
                    let w = choose|k: int|
                        0 <= k < self@.chunks.len() && !(#[trigger] self@.chunks[k]).free
                            && self@.chunks[k].id == 0;
                    assert(!self@.chunks[w].free && self@.chunks[w].id == 0);
                    assert(false);
                }
            }
            return Err(AllocationError::Internal("Chunk id must be a valid value.".to_owned()));
        }
        let n = self.chunks.len();
        let mut i: usize = 0;
        while i < n
            invariant
                *self == *old(self),
                fl_wf(self@),
                n == self.chunks@.len(),
                id != 0,
                chunk_id == Some(id),
                forall|j: int|
                    0 <= j < i ==> !(!(#[trigger] self@.chunks[j]).free && self@.chunks[j].id
                        == id),
            decreases n - i,
        {
            if self.chunks[i].alloc_id == id {
                proof {
                    assert(self@.chunks[i as int] == self.chunks@[i as int]@);
                    assert(!old(self)@.chunks[i as int].free && old(self)@.chunks[i as int].id
                        == id);
                    assert(has_live(old(self)@.chunks, id));
                    let j = live_index_of(old(self)@.chunks, id);
                    assert(!old(self)@.chunks[j].free && old(self)@.chunks[j].id == id);
                    if j != i as int {
                        assert(false);
                    }
                }
                let ghost m0 = self@;
                self.coalesce(i);
                proof {
                    lemma_merge_wf(m0, i as int);
                }
                return Ok(());
            }
            i += 1;
        }
        proof {
            if has_live(self@.chunks, id) {
                let w = choose|k: int|
                    0 <= k < self@.chunks.len() && !(#[trigger] self@.chunks[k]).free
                        && self@.chunks[k].id == id;
                assert(!self@.chunks[w].free && self@.chunks[w].id == id);
                assert(false);
            }
        }
        Err(AllocationError::Internal("Chunk id not found.".to_owned()))
    }

    /// Append one report entry per live chunk, in offset order.
    pub fn append_reports(&self, out: &mut Vec<crate::report::AllocationReport>)
        requires
            fl_wf(self@),
        ensures
            final(out)@.len() == old(out)@.len() + live_count(self@.chunks),
            crate::report::reports_bytes(final(out)@) == crate::report::reports_bytes(old(out)@)
                + live_bytes(self@.chunks),
            forall|k: int| 0 <= k < old(out)@.len() ==> #[trigger] final(out)@[k] == old(out)@[k],
            forall|k: int|
                old(out)@.len() <= k < final(out)@.len() ==> exists|j: int|
                    0 <= j < self@.chunks.len() && !(#[trigger] self@.chunks[j]).free
                        && (#[trigger] final(out)@[k]).offset == self@.chunks[j].offset
                        && final(out)@[k].size == self@.chunks[j].size,
    {
        let n = self.chunks.len();
        let mut i: usize = 0;
        while i < n
            invariant
                n == self.chunks@.len(),
                i <= n,
                old(out)@.len() <= out@.len(),
                out@.len() == old(out)@.len() + live_count(self@.chunks.take(i as int)),
                crate::report::reports_bytes(out@) == crate::report::reports_bytes(old(out)@)
                    + live_bytes(self@.chunks.take(i as int)),
                forall|k: int| 0 <= k < old(out)@.len() ==> #[trigger] out@[k] == old(out)@[k],
                forall|k: int|
                    old(out)@.len() <= k < out@.len() ==> exists|j: int|
                        0 <= j < self@.chunks.len() && !(#[trigger] self@.chunks[j]).free && (
                        #[trigger] out@[k]).offset == self@.chunks[j].offset && out@[k].size
                            == self@.chunks[j].size,
            decreases n - i,
        {
            proof {
                assert(self@.chunks.take(i + 1).drop_last() =~= self@.chunks.take(i as int));
                assert(self@.chunks.take(i + 1).last() == self@.chunks[i as int]);
                assert(self@.chunks[i as int] == self.chunks@[i as int]@);
            }
            if self.chunks[i].alloc_id != 0 {
                let entry_name = match self.chunks[i].chunk_name() {
                    Some(s) => s.clone(),
                    None => String::new(),
                };
                let entry = crate::report::AllocationReport {
                    name: entry_name,
                    offset: self.chunks[i].offset,
                    size: self.chunks[i].size,
                };
                let ghost prev = out@;
                out.push(entry);
                proof {
                    assert(out@.drop_last() =~= prev);
                    assert(forall|k: int| 0 <= k < prev.len() ==> #[trigger] out@[k] == prev[k]);
                }
            }
            i += 1;
        }
        proof {
            assert(self@.chunks.take(n as int) =~= self@.chunks);
        }
    }

    /// Update the advisory display name of a live chunk.  The model ignores
    /// names, so the state is unchanged; the result says whether the chunk
    /// exists.
    pub fn rename_allocation(&mut self, chunk_id: Option<u64>, name: &str) -> (r: Result<
        (),
        AllocationError,
    >)
        requires
            fl_wf(old(self)@),
        ensures
            final(self)@ == old(self)@,
            match chunk_id {
                Some(id) => r is Ok <==> has_live(old(self)@.chunks, id),
                None => r is Err,
            },
            r is Err ==> r matches Err(AllocationError::Internal(_)),
    {
        let id = match chunk_id {
            Some(id) => id,
            None => {
                return Err(
                    AllocationError::Internal("Chunk id must be a valid value.".to_owned()),
                );
            },
        };
        if id == 0 {
            proof {
                if has_live(self@.chunks, 0) {
                    let i = choose|i: int|
                        0 <= i < self@.chunks.len() && !(#[trigger] self@.chunks[i]).free
                            && self@.chunks[i].id == 0;
                    assert(!self@.chunks[i].free && self@.chunks[i].id == 0);
                    assert(false);
                }
            }
            return Err(AllocationError::Internal("Chunk id must be a valid value.".to_owned()));
        }
        let n = self.chunks.len();
        let mut i: usize = 0;
        while i < n
            invariant
                *self == *old(self),
                n == self.chunks@.len(),
                id != 0,
                chunk_id == Some(id),
                forall|j: int|
                    0 <= j < i ==> !(!(#[trigger] self@.chunks[j]).free && self@.chunks[j].id
                        == id),
            decreases n - i,
        {
            if self.chunks[i].alloc_id == id {
                proof {
                    assert(self@.chunks[i as int] == self.chunks@[i as int]@);
                    assert(!old(self)@.chunks[i as int].free && old(self)@.chunks[i as int].id
                        == id);
                    assert(has_live(old(self)@.chunks, id));
                }
                let offset = self.chunks[i].offset;
                let size = self.chunks[i].size;
                self.chunks[i] = Chunk { offset, size, alloc_id: id, name: Some(name.to_owned()) };
                proof {
                    assert(final(self)@.chunks =~= old(self)@.chunks);
                }
                return Ok(());
            }
            i += 1;
        }
        Err(AllocationError::Internal("Chunk id not found.".to_owned()))
    }
}

} // verus!
