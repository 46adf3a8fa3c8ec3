//! Splitting an object of known length into fixed-size byte ranges.

use vstd::prelude::*;

verus! {

/// Default number of bytes asked for in one request.
pub const CHUNK_SIZE: u32 = 65536;

/// The bytes `[start, end)` of the object.
#[derive(Clone, Copy, Debug, PartialEq, Eq, Structural)]
pub struct ChunkRange {
    pub start: u32,
    pub end: u32,
}

impl ChunkRange {
    /// Number of bytes in the range.
    pub open spec fn size(self) -> int {
        self.end - self.start
    }

    /// True when `offset` lies in the range.
    pub open spec fn holds(self, offset: int) -> bool {
        self.start <= offset < self.end
    }
}

/// How many ranges an object of `total` bytes is split into.
pub open spec fn chunk_count(total: nat, chunk: nat) -> nat
    recommends
        chunk > 0,
{
    ((total + chunk - 1) / (chunk as int)) as nat
}

/// The `i`-th range of the split: it starts at `i * chunk` and is `chunk`
/// bytes long, except that the last one stops at `total`.
pub open spec fn chunk_at(total: nat, chunk: nat, i: int) -> ChunkRange {
    ChunkRange {
        start: (i * chunk) as u32,
        end: if (i + 1) * chunk < total {
            ((i + 1) * chunk) as u32
        } else {
            total as u32
        },
    }
}

/// All ranges of the split, in ascending order.
pub open spec fn chunk_plan(total: nat, chunk: nat) -> Seq<ChunkRange> {
    Seq::new(chunk_count(total, chunk), |i: int| chunk_at(total, chunk, i))
}

/// The ranges are non-empty, at most `chunk` bytes long and inside the
/// object, each begins where the one before it ends, the first begins at 0
/// and the last ends at `total`.
pub open spec fn tiles(ranges: Seq<ChunkRange>, total: nat, chunk: nat) -> bool {
    &&& forall|i: int|
        0 <= i < ranges.len() ==> 0 < (#[trigger] ranges[i]).size() <= chunk && ranges[i].end
            <= total
    &&& forall|i: int|
        0 <= i < ranges.len() - 1 ==> (#[trigger] ranges[i]).end == ranges[i + 1].start
    &&& ranges.len() == 0 <==> total == 0
    &&& ranges.len() > 0 ==> ranges.first().start == 0 && ranges.last().end == total
}

/// An index is below the number of ranges exactly when its range would start
/// inside the object.
pub proof fn lemma_chunk_index(total: nat, chunk: nat, i: int)
    requires
        chunk > 0,
        0 <= i,
    ensures
        i < chunk_count(total, chunk) <==> i * chunk < total,
        0 <= i * chunk,
        (i + 1) * chunk == i * chunk + chunk,
{
    let x = total + chunk - 1;
    let d = chunk as int;
    let q = x / d;
    let r = x % d;
    vstd::arithmetic::div_mod::lemma_fundamental_div_mod(x, d);
    vstd::arithmetic::div_mod::lemma_mod_bound(x, d);
    assert(0 <= q) by (nonlinear_arith)
        requires
            x == d * q + r,
            0 <= r < d,
            0 <= x,
    ;
    assert(i < q ==> i * d < total) by (nonlinear_arith)
        requires
            x == d * q + r,
            0 <= r,
            d > 0,
            x == total + d - 1,
    ;
    assert(i >= q ==> i * d >= total) by (nonlinear_arith)
        requires
            x == d * q + r,
            r < d,
            d > 0,
            x == total + d - 1,
    ;
    assert(0 <= i * d) by (nonlinear_arith)
        requires
            0 <= i,
            0 < d,
    ;
    assert((i + 1) * d == i * d + d) by (nonlinear_arith);
}

/// For every length and every positive chunk size the planned ranges tile
/// `[0, total)`.
pub proof fn lemma_plan_tiles(total: nat, chunk: nat)
    requires
        chunk > 0,
        total <= u32::MAX,
    ensures
        tiles(chunk_plan(total, chunk), total, chunk),
{
    let plan = chunk_plan(total, chunk);
    let n = chunk_count(total, chunk) as int;
    assert forall|i: int| 0 <= i < plan.len() implies 0 < (#[trigger] plan[i]).size() <= chunk
        && plan[i].end <= total by {
        lemma_chunk_index(total, chunk, i);
    }
    assert forall|i: int| 0 <= i < plan.len() - 1 implies (#[trigger] plan[i]).end == plan[i
        + 1].start by {
        lemma_chunk_index(total, chunk, i);
        lemma_chunk_index(total, chunk, i + 1);
    }
    lemma_chunk_index(total, chunk, 0);
    if n > 0 {
        lemma_chunk_index(total, chunk, n - 1);
        lemma_chunk_index(total, chunk, n);
    }
}

/// Every offset of the object lies in exactly one planned range, and the
/// ranges hold nothing else.
pub proof fn lemma_plan_covers_once(total: nat, chunk: nat, offset: int)
    requires
        chunk > 0,
        total <= u32::MAX,
    ensures
        0 <= offset < total <==> exists|i: int|
            0 <= i < chunk_count(total, chunk) && (#[trigger] chunk_at(total, chunk, i)).holds(
                offset,
            ),
        forall|i: int, j: int|
            0 <= i < chunk_count(total, chunk) && 0 <= j < chunk_count(total, chunk)
                && (#[trigger] chunk_at(total, chunk, i)).holds(offset) && (#[trigger] chunk_at(
                total,
                chunk,
                j,
            )).holds(offset) ==> i == j,
{
    let n = chunk_count(total, chunk) as int;
    let d = chunk as int;
    if 0 <= offset < total {
        let i = offset / d;
        vstd::arithmetic::div_mod::lemma_fundamental_div_mod(offset, d);
        vstd::arithmetic::div_mod::lemma_mod_bound(offset, d);
        assert(0 <= i) by (nonlinear_arith)
            requires
                offset == d * i + offset % d,
                0 <= offset % d < d,
                0 <= offset,
        ;
        assert(i * d == d * i) by (nonlinear_arith);
        lemma_chunk_index(total, chunk, i);
        assert(chunk_at(total, chunk, i).holds(offset));
    }
    assert forall|i: int|
        0 <= i < n && (#[trigger] chunk_at(total, chunk, i)).holds(offset) implies 0 <= offset
        < total && i * d <= offset < i * d + d by {
        lemma_chunk_index(total, chunk, i);
    }
    assert forall|i: int, j: int|
        0 <= i < n && 0 <= j < n && (#[trigger] chunk_at(total, chunk, i)).holds(offset) && (
        #[trigger] chunk_at(total, chunk, j)).holds(offset) implies i == j by {
        lemma_chunk_index(total, chunk, i);
        lemma_chunk_index(total, chunk, j);
        assert(i == j) by (nonlinear_arith)
            requires
                i * d <= offset < i * d + d,
                j * d <= offset < j * d + d,
                d > 0,
        ;
    }
}

/// The number of chunks is at most the number of bytes.
pub proof fn lemma_count_bound(total: nat, chunk: nat)
    requires
        chunk > 0,
    ensures
        chunk_count(total, chunk) <= total,
{
    lemma_chunk_index(total, chunk, total as int);
    assert(total * chunk >= total) by (nonlinear_arith)
        requires
            chunk >= 1,
    ;
}

/// Counts the ranges of the split.
pub fn count_chunks(total_length: u32, chunk_size: u32) -> (count: u32)
    requires
        chunk_size > 0,
    ensures
        count == chunk_count(total_length as nat, chunk_size as nat),
{
    proof {
        lemma_count_bound(total_length as nat, chunk_size as nat);
    }
    let count: u64 = (total_length as u64 + chunk_size as u64 - 1) / chunk_size as u64;
    count as u32
}

/// The `index`-th range of the split, if the split has that many.
pub fn range_at(total_length: u32, chunk_size: u32, index: u32) -> (range: Option<ChunkRange>)
    requires
        chunk_size > 0,
    ensures
        range == if index < chunk_count(total_length as nat, chunk_size as nat) {
            Some(chunk_at(total_length as nat, chunk_size as nat, index as int))
        } else {
            None
        },
{
    proof {
        lemma_chunk_index(total_length as nat, chunk_size as nat, index as int);
        assert(index * chunk_size <= u32::MAX * u32::MAX) by (nonlinear_arith)
            requires
                index <= u32::MAX,
                chunk_size <= u32::MAX,
        ;
    }
    let start: u64 = index as u64 * chunk_size as u64;
    if start >= total_length as u64 {
        return None;
    }
    let end: u64 = if total_length as u64 - start > chunk_size as u64 {
        start + chunk_size as u64
    } else {
        total_length as u64
    };
    Some(ChunkRange { start: start as u32, end: end as u32 })
}

/// Splits `[0, total_length)` into ranges of `chunk_size` bytes, the last one
/// shorter where the length is no multiple of the chunk size.
pub fn partition(total_length: u32, chunk_size: u32) -> (ranges: Vec<ChunkRange>)
    requires
        chunk_size > 0,
    ensures
        ranges@ == chunk_plan(total_length as nat, chunk_size as nat),
        tiles(ranges@, total_length as nat, chunk_size as nat),
{
    let ghost total = total_length as nat;
    let ghost chunk = chunk_size as nat;
    let mut ranges: Vec<ChunkRange> = Vec::new();
    let mut start: u32 = 0;
    proof {
        lemma_chunk_index(total, chunk, 0);
    }
    while start < total_length
        invariant
            chunk_size > 0,
            total == total_length,
            chunk == chunk_size,
            ranges@.len() <= chunk_count(total, chunk),
            ranges@ == chunk_plan(total, chunk).take(ranges@.len() as int),
            start < total_length ==> start == ranges@.len() * chunk,
            start >= total_length ==> ranges@.len() == chunk_count(total, chunk),
        decreases total_length - start,
    {
        let ghost k = ranges@.len() as int;
        proof {
            lemma_chunk_index(total, chunk, k);
            lemma_chunk_index(total, chunk, k + 1);
        }
        let end: u32 = if total_length - start > chunk_size {
            start + chunk_size
        } else {
            total_length
        };
        ranges.push(ChunkRange { start, end });
        start = end;
    }
    proof {
        lemma_plan_tiles(total, chunk);
    }
    ranges
}

} // verus!
