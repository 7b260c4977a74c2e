//! Chunks: how `[0, len)` is cut into consecutive windows of one granularity.
use vstd::prelude::*;

verus! {

/// A window `[offset, offset + length)` into a buffer.
#[derive(Clone, Copy, Debug, PartialEq, Eq, Structural)]
pub struct Chunk {
    /// Index of the window's first element in the buffer.
    pub offset: usize,
    /// Number of elements in the window.
    pub length: usize,
}

impl Chunk {
    /// One past the window's last index.
    pub open spec fn end(self) -> int {
        self.offset + self.length
    }

    /// Whether index `p` of the buffer lies in the window.
    pub open spec fn covers(self, p: int) -> bool {
        self.offset <= p < self.offset + self.length
    }
}

/// How many chunks of `granularity` elements a buffer of `len` elements is cut
/// into: the full ones, and a shorter last one where `len` is no multiple.
pub open spec fn chunk_count(len: int, granularity: int) -> int
    recommends
        0 <= len,
        0 < granularity,
{
    if len % granularity == 0 {
        len / granularity
    } else {
        len / granularity + 1
    }
}

/// Offset of chunk `i`.
pub open spec fn chunk_offset(granularity: int, i: int) -> int {
    i * granularity
}

/// Length of chunk `i`: `granularity`, but `len % granularity` for the short
/// last chunk.
pub open spec fn chunk_length(len: int, granularity: int, i: int) -> int
    recommends
        0 <= len,
        0 < granularity,
        0 <= i < chunk_count(len, granularity),
{
    if i < len / granularity {
        granularity
    } else {
        len % granularity
    }
}

/// `chunks` is the cut of `[0, len)` at `granularity`, in ascending order.
pub open spec fn is_chunk_plan(chunks: Seq<Chunk>, len: int, granularity: int) -> bool {
    &&& chunks.len() == chunk_count(len, granularity)
    &&& forall|i: int|
        0 <= i < chunks.len() ==> (#[trigger] chunks[i]).offset == chunk_offset(granularity, i)
            && chunks[i].length == chunk_length(len, granularity, i)
}

/// Whether some chunk of `chunks` holds index `p`.
pub open spec fn is_covered(chunks: Seq<Chunk>, p: int) -> bool {
    exists|i: int| 0 <= i < chunks.len() && (#[trigger] chunks[i]).covers(p)
}

/// `chunks` partitions `[0, len)`: every chunk is non-empty and lies inside,
/// an earlier chunk ends before a later one starts, and every index is covered.
/// As the chunks are pairwise disjoint, each index is covered exactly once.
pub open spec fn is_partition(chunks: Seq<Chunk>, len: int) -> bool {
    &&& forall|i: int|
        0 <= i < chunks.len() ==> 0 < (#[trigger] chunks[i]).length && chunks[i].end() <= len
    &&& forall|i: int, j: int|
        0 <= i < j < chunks.len() ==> (#[trigger] chunks[i]).end() <= (#[trigger] chunks[j]).offset
    &&& forall|p: int| 0 <= p < len ==> #[trigger] is_covered(chunks, p)
}

/// Where chunk `i` of a cut starts and ends, in plain arithmetic.
pub proof fn lemma_chunk_bounds(len: int, granularity: int, i: int)
    requires
        0 <= len,
        0 < granularity,
        0 <= i < chunk_count(len, granularity),
    ensures
        0 <= chunk_offset(granularity, i) < len,
        0 < chunk_length(len, granularity, i) <= granularity,
        chunk_offset(granularity, i) + chunk_length(len, granularity, i) <= len,
        i + 1 < chunk_count(len, granularity) ==> chunk_offset(granularity, i) + chunk_length(
            len,
            granularity,
            i,
        ) == chunk_offset(granularity, i + 1),
        i + 1 == chunk_count(len, granularity) ==> chunk_offset(granularity, i) + chunk_length(
            len,
            granularity,
            i,
        ) == len,
{
    let q = len / granularity;
    let r = len % granularity;
    assert(len == q * granularity + r && 0 <= r < granularity && 0 <= q) by (nonlinear_arith)
        requires
            0 <= len,
            0 < granularity,
            q == len / granularity,
            r == len % granularity,
    ;
    assert((i + 1) * granularity == i * granularity + granularity) by (nonlinear_arith);
    assert(0 <= i * granularity) by (nonlinear_arith)
        requires
            0 <= i,
            0 < granularity,
    ;
    if i < q {
        assert((i + 1) * granularity <= q * granularity) by (nonlinear_arith)
            requires
                i + 1 <= q,
                0 < granularity,
        ;
    } else {
        assert(i == q);
    }
}

/// The index `p` lies in chunk `p / granularity` and in no other.
pub proof fn lemma_chunk_of_index(len: int, granularity: int, p: int)
    requires
        0 < granularity,
        0 <= p < len,
    ensures
        0 <= p / granularity < chunk_count(len, granularity),
        chunk_offset(granularity, p / granularity) <= p < chunk_offset(granularity, p / granularity)
            + chunk_length(len, granularity, p / granularity),
        forall|i: int|
            0 <= i < chunk_count(len, granularity) && chunk_offset(granularity, i) <= p
                < chunk_offset(granularity, i) + #[trigger] chunk_length(len, granularity, i) ==> i
                == p / granularity,
{
    let q = len / granularity;
    let r = len % granularity;
    let k = p / granularity;
    assert(len == q * granularity + r && 0 <= r < granularity && 0 <= q) by (nonlinear_arith)
        requires
            0 <= len,
            0 < granularity,
            q == len / granularity,
            r == len % granularity,
    ;
    assert(p == k * granularity + p % granularity && 0 <= p % granularity < granularity && 0 <= k)
        by (nonlinear_arith)
        requires
            0 <= p,
            0 < granularity,
            k == p / granularity,
    ;
    assert(k <= q) by (nonlinear_arith)
        requires
            k * granularity <= p,
            p < q * granularity + r,
            r < granularity,
            0 < granularity,
    ;
    assert forall|i: int|
        0 <= i < chunk_count(len, granularity) && chunk_offset(granularity, i) <= p < chunk_offset(
            granularity,
            i,
        ) + #[trigger] chunk_length(len, granularity, i) implies i == k by {
        lemma_chunk_bounds(len, granularity, i);
        assert(i == k) by (nonlinear_arith)
            requires
                i * granularity <= p,
                p < i * granularity + granularity,
                k * granularity <= p,
                p < k * granularity + granularity,
                0 < granularity,
        ;
    }
}

/// The cut of `[0, len)` at a positive granularity partitions `[0, len)`.
pub proof fn lemma_chunk_plan_partitions(chunks: Seq<Chunk>, len: int, granularity: int)
    requires
        0 <= len,
        0 < granularity,
        is_chunk_plan(chunks, len, granularity),
    ensures
        is_partition(chunks, len),
{
    assert forall|i: int| 0 <= i < chunks.len() implies 0 < (#[trigger] chunks[i]).length
        && chunks[i].end() <= len by {
        lemma_chunk_bounds(len, granularity, i);
    }
    assert forall|i: int, j: int| 0 <= i < j < chunks.len() implies (#[trigger] chunks[i]).end()
        <= (#[trigger] chunks[j]).offset by {
        lemma_chunk_bounds(len, granularity, i);
        assert((i + 1) * granularity <= j * granularity) by (nonlinear_arith)
            requires
                i + 1 <= j,
                0 < granularity,
        ;
        assert((i + 1) * granularity == i * granularity + granularity) by (nonlinear_arith);
    }
    assert forall|p: int| 0 <= p < len implies #[trigger] is_covered(chunks, p) by {
        lemma_chunk_of_index(len, granularity, p);
        assert(chunks[p / granularity].covers(p));
    }
}

/// In a partition no index lies in two chunks.
pub proof fn lemma_partition_covers_once(chunks: Seq<Chunk>, len: int, i: int, j: int, p: int)
    requires
        is_partition(chunks, len),
        0 <= i < chunks.len(),
        0 <= j < chunks.len(),
        chunks[i].covers(p),
        chunks[j].covers(p),
    ensures
        i == j,
        0 <= p < len,
{
    if i < j {
        assert(chunks[i].end() <= chunks[j].offset);
    }
    if j < i {
        assert(chunks[j].end() <= chunks[i].offset);
    }
}

/// Cuts `[0, len)` into consecutive chunks of `granularity` elements, the last
/// one shorter where `len` is no multiple of it, in ascending order.
pub fn chunks(len: usize, granularity: usize) -> (result: Vec<Chunk>)
    requires
        granularity > 0,
    ensures
        is_chunk_plan(result@, len as int, granularity as int),
        is_partition(result@, len as int),
{
    let full: usize = len / granularity;
    let rest: usize = len % granularity;
    proof {
        assert(len == full * granularity + rest && 0 <= rest < granularity) by (nonlinear_arith)
            requires
                0 < granularity,
                full == len as int / granularity as int,
                rest == len as int % granularity as int,
        ;
    }
    let mut result: Vec<Chunk> = Vec::new();
    let mut offset: usize = 0;
    let mut i: usize = 0;
    while i < full
        invariant
            0 < granularity,
            full == len as int / granularity as int,
            len == full * granularity + rest,
            i <= full,
            offset == i * granularity,
            result@.len() == i,
            forall|j: int|
                0 <= j < i ==> (#[trigger] result@[j]).offset == chunk_offset(granularity as int, j)
                    && result@[j].length == granularity,
        decreases full - i,
    {
        proof {
            assert((i + 1) * granularity == i * granularity + granularity) by (nonlinear_arith);
            assert((i + 1) * granularity <= full * granularity) by (nonlinear_arith)
                requires
                    i + 1 <= full,
                    0 < granularity,
            ;
        }
        result.push(Chunk { offset, length: granularity });
        offset = offset + granularity;
        i = i + 1;
    }
    if rest != 0 {
        result.push(Chunk { offset, length: rest });
    }
    proof {
        lemma_chunk_plan_partitions(result@, len as int, granularity as int);
    }
    result
}

} // verus!
