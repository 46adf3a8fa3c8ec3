//! The fetch as a whole: what the connections delivered, chunk by chunk, is
//! joined in range order and checked. `run_outcome` says what a run returns.

use crate::codec::{read_response, response_body};
use crate::integrity::{sha256_hex, verdict, IntegrityError, IntegrityErrorView};
use crate::range::{chunk_at, chunk_count, lemma_chunk_index, lemma_count_bound, ChunkRange};
use crate::text::same_ignoring_case;
use vstd::prelude::*;

verus! {

/// What the connection for one chunk came to.
#[derive(Clone, Debug, PartialEq, Eq)]
pub enum Reply {
    /// Every byte that the server sent before it closed the connection.
    Response(Vec<u8>),
    /// The connection could not be opened or broke.
    ConnectionFailed,
}

/// A `Reply` as a mathematical value.
pub enum ReplyView {
    Response(Seq<u8>),
    ConnectionFailed,
}

impl View for Reply {
    type V = ReplyView;

    open spec fn view(&self) -> ReplyView {
        match self {
            Reply::Response(raw) => ReplyView::Response(raw@),
            Reply::ConnectionFailed => ReplyView::ConnectionFailed,
        }
    }
}

/// Why a run returned no object.
#[derive(Clone, Debug, PartialEq, Eq)]
pub enum FetchError {
    /// The connection for `range` failed.
    Connection { range: ChunkRange },
    /// The response for `range` ended inside its header block.
    Protocol { range: ChunkRange },
    /// All chunks arrived, but the object is not the one announced.
    Integrity(IntegrityError),
}

/// A `FetchError` as a mathematical value.
pub enum FetchErrorView {
    Connection { range: ChunkRange },
    Protocol { range: ChunkRange },
    Integrity(IntegrityErrorView),
}

impl View for FetchError {
    type V = FetchErrorView;

    open spec fn view(&self) -> FetchErrorView {
        match self {
            FetchError::Connection { range } => FetchErrorView::Connection { range: *range },
            FetchError::Protocol { range } => FetchErrorView::Protocol { range: *range },
            FetchError::Integrity(e) => FetchErrorView::Integrity(e@),
        }
    }
}

/// The result of a run as a mathematical value.
pub open spec fn outcome_view(result: Result<Vec<u8>, FetchError>) -> Result<
    Seq<u8>,
    FetchErrorView,
> {
    match result {
        Ok(data) => Ok(data@),
        Err(e) => Err(e@),
    }
}

/// The replies of a run as mathematical values.
pub open spec fn reply_views(replies: Seq<Reply>) -> Seq<ReplyView> {
    replies.map_values(|reply: Reply| reply@)
}

/// The reply for chunk `i`. A chunk that has no reply counts as a failed
/// connection.
pub open spec fn reply_at(replies: Seq<ReplyView>, i: int) -> ReplyView {
    if 0 <= i < replies.len() {
        replies[i]
    } else {
        ReplyView::ConnectionFailed
    }
}

/// The body that a reply carries, if it carries one.
pub open spec fn chunk_body(reply: ReplyView) -> Option<Seq<u8>> {
    match reply {
        ReplyView::Response(raw) => response_body(raw),
        ReplyView::ConnectionFailed => None,
    }
}

/// The error for a reply that carries no body.
pub open spec fn chunk_failure(reply: ReplyView, range: ChunkRange) -> FetchErrorView {
    match reply {
        ReplyView::Response(_) => FetchErrorView::Protocol { range },
        ReplyView::ConnectionFailed => FetchErrorView::Connection { range },
    }
}

/// True when chunk `i` is the first one whose reply carries no body.
pub open spec fn first_failure(replies: Seq<ReplyView>, count: nat, i: int) -> bool {
    &&& 0 <= i < count
    &&& chunk_body(reply_at(replies, i)) is None
    &&& forall|j: int| 0 <= j < i ==> chunk_body(#[trigger] reply_at(replies, j)) is Some
}

/// The bodies of the first `count` chunks, in range order.
pub open spec fn bodies(replies: Seq<ReplyView>, count: nat) -> Seq<Seq<u8>> {
    Seq::new(count, |i: int| chunk_body(reply_at(replies, i))->0)
}

/// The bodies of the first `count` chunks joined in range order.
pub open spec fn aggregate(replies: Seq<ReplyView>, count: nat) -> Seq<u8> {
    bodies(replies, count).flatten()
}

/// The number of bytes in the bodies of the first `count` chunks.
spec fn joined_len(replies: Seq<ReplyView>, count: nat) -> nat
    decreases count,
{
    if count == 0 {
        0
    } else {
        joined_len(replies, (count - 1) as nat) + (chunk_body(
            reply_at(replies, count - 1),
        )->0).len()
    }
}

/// True when `reply` carries a body of exactly the bytes that `range` names.
pub open spec fn exact_reply(reply: ReplyView, range: ChunkRange) -> bool {
    chunk_body(reply) matches Some(body) && body.len() == range.size()
}

/// The end of a run in which every chunk arrived: the joined bytes, if they
/// have the announced length and digest.
pub open spec fn conclude(data: Seq<u8>, len: u32, hash: Seq<char>) -> Result<
    Seq<u8>,
    FetchErrorView,
> {
    match verdict(data.len(), sha256_hex(data), len, hash) {
        Ok(()) => Ok(data),
        Err(e) => Err(FetchErrorView::Integrity(e)),
    }
}

/// What a run returns for an object of `len` bytes with digest `hash`, asked
/// for in chunks of `chunk` bytes, when `replies[i]` is what the connection
/// for the `i`-th range delivered: the error of the first chunk without a
/// body, tagged with its range; else the bodies joined in range order, if
/// they pass the check of length and digest.
pub open spec fn run_outcome(len: u32, chunk: u32, hash: Seq<char>, replies: Seq<ReplyView>) -> Result<
    Seq<u8>,
    FetchErrorView,
> {
    let count = chunk_count(len as nat, chunk as nat);
    if exists|i: int| first_failure(replies, count, i) {
        let i = choose|i: int| first_failure(replies, count, i);
        Err(chunk_failure(reply_at(replies, i), chunk_at(len as nat, chunk as nat, i)))
    } else {
        conclude(aggregate(replies, count), len, hash)
    }
}

/// The first chunk without a body decides the run: its error is returned,
/// tagged with its range. A response that ends inside its header block gives
/// a protocol error, a failed connection a connection error.
pub proof fn lemma_first_failure(
    len: u32,
    chunk: u32,
    hash: Seq<char>,
    replies: Seq<ReplyView>,
    i: int,
)
    requires
        first_failure(replies, chunk_count(len as nat, chunk as nat), i),
    ensures
        run_outcome(len, chunk, hash, replies) == Err::<Seq<u8>, _>(
            chunk_failure(reply_at(replies, i), chunk_at(len as nat, chunk as nat, i)),
        ),
{
    let count = chunk_count(len as nat, chunk as nat);
    let first = choose|first: int| first_failure(replies, count, first);
    assert(first == i);
}

/// When every chunk arrived with a body, the run returns the joined bodies
/// or says why they are not the object announced.
pub proof fn lemma_all_arrived(len: u32, chunk: u32, hash: Seq<char>, replies: Seq<ReplyView>)
    requires
        forall|i: int|
            0 <= i < chunk_count(len as nat, chunk as nat) ==> chunk_body(
                #[trigger] reply_at(replies, i),
            ) is Some,
    ensures
        run_outcome(len, chunk, hash, replies) == conclude(
            aggregate(replies, chunk_count(len as nat, chunk as nat)),
            len,
            hash,
        ),
{
    let count = chunk_count(len as nat, chunk as nat);
    assert forall|i: int| !first_failure(replies, count, i) by {
        if 0 <= i < count {
            assert(chunk_body(reply_at(replies, i)) is Some);
        }
    }
}

/// The joined bodies are as long as the bodies together.
proof fn lemma_aggregate_len(replies: Seq<ReplyView>, count: nat)
    ensures
        aggregate(replies, count).len() == joined_len(replies, count),
    decreases count,
{
    if count > 0 {
        let before = (count - 1) as nat;
        let body = chunk_body(reply_at(replies, before as int))->0;
        lemma_aggregate_len(replies, before);
        assert(bodies(replies, count) =~= bodies(replies, before).push(body));
        bodies(replies, before).lemma_flatten_push(body);
    }
}

/// When every chunk arrived with exactly the bytes of its range, the joined
/// bodies have the announced length.
pub proof fn lemma_exact_chunks(len: u32, chunk: u32, replies: Seq<ReplyView>)
    requires
        chunk > 0,
        forall|i: int|
            0 <= i < chunk_count(len as nat, chunk as nat) ==> exact_reply(
                #[trigger] reply_at(replies, i),
                chunk_at(len as nat, chunk as nat, i),
            ),
    ensures
        aggregate(replies, chunk_count(len as nat, chunk as nat)).len() == len,
{
    let count = chunk_count(len as nat, chunk as nat);
    lemma_aggregate_len(replies, count);
    lemma_exact_prefix(len, chunk, replies, count);
    lemma_chunk_index(len as nat, chunk as nat, count as int);
}

/// The first `k` chunks, each with exactly the bytes of its range, hold the
/// object's first bytes up to the end of the last of them.
proof fn lemma_exact_prefix(len: u32, chunk: u32, replies: Seq<ReplyView>, k: nat)
    requires
        chunk > 0,
        k <= chunk_count(len as nat, chunk as nat),
        forall|i: int|
            0 <= i < chunk_count(len as nat, chunk as nat) ==> exact_reply(
                #[trigger] reply_at(replies, i),
                chunk_at(len as nat, chunk as nat, i),
            ),
    ensures
        joined_len(replies, k) == if k * chunk < len {
            k * chunk
        } else {
            len as int
        },
    decreases k,
{
    if k > 0 {
        let i = (k - 1) as int;
        lemma_exact_prefix(len, chunk, replies, (k - 1) as nat);
        lemma_chunk_index(len as nat, chunk as nat, i);
        lemma_chunk_index(len as nat, chunk as nat, i + 1);
    } else {
        assert(0 * chunk == 0) by (nonlinear_arith);
    }
}

/// When the joined bodies do not have the announced length, the run fails
/// with a length mismatch that reports the length that arrived.
pub proof fn lemma_length_mismatch(len: u32, chunk: u32, hash: Seq<char>, replies: Seq<ReplyView>)
    requires
        forall|i: int|
            0 <= i < chunk_count(len as nat, chunk as nat) ==> chunk_body(
                #[trigger] reply_at(replies, i),
            ) is Some,
        aggregate(replies, chunk_count(len as nat, chunk as nat)).len() != len,
    ensures
        run_outcome(len, chunk, hash, replies) == Err::<Seq<u8>, _>(
            FetchErrorView::Integrity(
                IntegrityErrorView::LengthMismatch {
                    expected: len,
                    actual: aggregate(replies, chunk_count(len as nat, chunk as nat)).len(),
                },
            ),
        ),
{
    lemma_all_arrived(len, chunk, hash, replies);
}

/// Joined bodies of the announced length whose digest is not the announced
/// one are never returned: the run fails with a digest mismatch.
pub proof fn lemma_digest_mismatch(len: u32, chunk: u32, hash: Seq<char>, replies: Seq<ReplyView>)
    requires
        forall|i: int|
            0 <= i < chunk_count(len as nat, chunk as nat) ==> chunk_body(
                #[trigger] reply_at(replies, i),
            ) is Some,
        aggregate(replies, chunk_count(len as nat, chunk as nat)).len() == len,
        !same_ignoring_case(
            hash,
            sha256_hex(aggregate(replies, chunk_count(len as nat, chunk as nat))),
        ),
    ensures
        run_outcome(len, chunk, hash, replies) == Err::<Seq<u8>, _>(
            FetchErrorView::Integrity(
                IntegrityErrorView::DigestMismatch {
                    expected: hash,
                    actual: sha256_hex(
                        aggregate(replies, chunk_count(len as nat, chunk as nat)),
                    ),
                },
            ),
        ),
{
    lemma_all_arrived(len, chunk, hash, replies);
}

/// A run for an object of no bytes asks for nothing and returns the empty
/// object, provided the announced digest is that of the empty input.
pub proof fn lemma_empty_object(chunk: u32, hash: Seq<char>, replies: Seq<ReplyView>)
    requires
        chunk > 0,
        same_ignoring_case(hash, sha256_hex(Seq::empty())),
    ensures
        chunk_count(0, chunk as nat) == 0,
        run_outcome(0, chunk, hash, replies) == Ok::<_, FetchErrorView>(Seq::<u8>::empty()),
{
    lemma_count_bound(0, chunk as nat);
    lemma_all_arrived(0, chunk, hash, replies);
}

/// The bytes that came back for one range. The server is taken at its word
/// that these are the bytes of the range: nothing counts them chunk by
/// chunk, the length of all of them together is checked at the end of the
/// run.
#[derive(Clone, Debug, PartialEq, Eq)]
pub struct ChunkResult {
    pub range: ChunkRange,
    pub bytes: Vec<u8>,
}

/// Turns what the connection for `range` delivered into the chunk's bytes,
/// or into the error that ends the run.
pub fn receive(range: ChunkRange, reply: Reply) -> (result: Result<ChunkResult, FetchError>)
    ensures
        match result {
            Ok(chunk) => chunk.range == range && chunk_body(reply@) == Some(chunk.bytes@),
            Err(e) => chunk_body(reply@) is None && e@ == chunk_failure(reply@, range),
        },
{
    match reply {
        Reply::ConnectionFailed => Err(FetchError::Connection { range }),
        Reply::Response(raw) => match read_response(raw.as_slice()) {
            Err(_) => Err(FetchError::Protocol { range }),
            Ok(bytes) => Ok(ChunkResult { range, bytes }),
        },
    }
}

} // verus!
