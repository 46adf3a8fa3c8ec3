//! A server that holds the object and answers each range request with a
//! header block and the bytes of the range, and the proof that a run against
//! it returns the object.

use crate::codec::{blank_line_at, lemma_framed_body};
use crate::fetch::{
    aggregate, bodies, chunk_body, lemma_all_arrived, reply_at, run_outcome, FetchErrorView,
    ReplyView,
};
use crate::integrity::sha256_hex;
use crate::range::{chunk_at, chunk_count, lemma_chunk_index, ChunkRange};
use crate::text::same_ignoring_case;
use vstd::prelude::*;

verus! {

/// The bytes of the object that `range` names.
pub open spec fn slice_of(object: Seq<u8>, range: ChunkRange) -> Seq<u8> {
    object.subrange(range.start as int, range.end as int)
}

/// True for a header block that a response may begin with: complete lines,
/// none of them empty.
pub open spec fn header_block(head: Seq<u8>) -> bool {
    (head.len() == 0 || head.last() == 10) && forall|p: int| !blank_line_at(head, p)
}

/// The response to the request for the `i`-th range: the header block
/// `head`, an empty line, and the bytes of the range.
pub open spec fn response_for(object: Seq<u8>, chunk: u32, head: Seq<u8>, i: int) -> Seq<u8> {
    head + seq![13u8, 10u8] + slice_of(object, chunk_at(object.len(), chunk as nat, i))
}

/// What the connections deliver when the server holds `object` and sends
/// `heads[i]` in front of the `i`-th range.
pub open spec fn served(object: Seq<u8>, chunk: u32, heads: Seq<Seq<u8>>) -> Seq<ReplyView> {
    Seq::new(
        chunk_count(object.len(), chunk as nat),
        |i: int| ReplyView::Response(response_for(object, chunk, heads[i], i)),
    )
}

/// The bytes that the first `k` ranges cover.
pub open spec fn covered(total: nat, chunk: nat, k: nat) -> nat {
    if k * chunk < total {
        k * chunk
    } else {
        total
    }
}

/// The first `k` ranges of the object, joined, are the object's first bytes.
proof fn lemma_slices_join(object: Seq<u8>, chunk: u32, heads: Seq<Seq<u8>>, k: nat)
    requires
        chunk > 0,
        object.len() <= u32::MAX,
        k <= chunk_count(object.len(), chunk as nat),
        heads.len() == chunk_count(object.len(), chunk as nat),
        forall|i: int| 0 <= i < heads.len() ==> header_block(#[trigger] heads[i]),
    ensures
        forall|i: int|
            0 <= i < k ==> chunk_body(#[trigger] reply_at(served(object, chunk, heads), i))
                == Some(slice_of(object, chunk_at(object.len(), chunk as nat, i))),
        aggregate(served(object, chunk, heads), k) == object.take(
            covered(object.len(), chunk as nat, k) as int,
        ),
    decreases k,
{
    let replies = served(object, chunk, heads);
    let total = object.len();
    if k > 0 {
        let i = (k - 1) as int;
        lemma_slices_join(object, chunk, heads, (k - 1) as nat);
        lemma_chunk_index(total, chunk as nat, i);
        lemma_chunk_index(total, chunk as nat, i + 1);
        let piece = slice_of(object, chunk_at(total, chunk as nat, i));
        lemma_framed_body(heads[i], piece);
        assert(bodies(replies, k) =~= bodies(replies, (k - 1) as nat).push(piece));
        bodies(replies, (k - 1) as nat).lemma_flatten_push(piece);
        assert(object.take(covered(total, chunk as nat, (k - 1) as nat) as int) + piece
            =~= object.take(covered(total, chunk as nat, k) as int));
    }
}

/// A run against a server that holds `object` and answers every
/// range request with a well-formed response returns `object`, provided the
/// announced length and digest are those of `object`.
pub proof fn lemma_round_trip(object: Seq<u8>, chunk: u32, hash: Seq<char>, heads: Seq<Seq<u8>>)
    requires
        chunk > 0,
        object.len() <= u32::MAX,
        heads.len() == chunk_count(object.len(), chunk as nat),
        forall|i: int| 0 <= i < heads.len() ==> header_block(#[trigger] heads[i]),
        same_ignoring_case(hash, sha256_hex(object)),
    ensures
        run_outcome(object.len() as u32, chunk, hash, served(object, chunk, heads)) == Ok::<
            _,
            FetchErrorView,
        >(object),
{
    let total = object.len();
    let count = chunk_count(total, chunk as nat);
    let replies = served(object, chunk, heads);
    lemma_slices_join(object, chunk, heads, count);
    lemma_chunk_index(total, chunk as nat, count as int);
    assert(object.take(total as int) =~= object);
    lemma_all_arrived(total as u32, chunk, hash, replies);
}

} // verus!
