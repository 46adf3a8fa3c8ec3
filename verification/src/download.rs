//! A run taken one reply at a time, for a caller that opens one connection
//! after another: each step names the range to fetch next, or ends the run.

use crate::config::DataConfig;
use crate::fetch::{
    aggregate, bodies, chunk_body, chunk_failure, conclude, first_failure, outcome_view, receive,
    reply_at, reply_views, run_outcome, FetchError, FetchErrorView, Reply, ReplyView,
};
use crate::integrity::verify;
use crate::range::{
    chunk_at, chunk_count, lemma_chunk_index, lemma_count_bound, range_at, ChunkRange,
};
use vstd::prelude::*;
use vstd::std_specs::iter::IteratorSpec;

verus! {

/// A run in which one chunk is being fetched and the chunks before it have
/// arrived.
pub struct Download {
    target: DataConfig,
    chunk_size: u32,
    index: u32,
    data: Vec<u8>,
}

/// A `Download` as a mathematical value: the announced length and digest,
/// the chunk size, the number of chunks that have arrived, and their bodies
/// joined.
pub struct DownloadView {
    pub len: u32,
    pub hash: Seq<char>,
    pub chunk_size: u32,
    pub index: nat,
    pub data: Seq<u8>,
}

impl View for Download {
    type V = DownloadView;

    closed spec fn view(&self) -> DownloadView {
        DownloadView {
            len: self.target.len,
            hash: self.target.hash@,
            chunk_size: self.chunk_size,
            index: self.index as nat,
            data: self.data@,
        }
    }
}

/// What the caller does next.
pub enum Step {
    /// Fetch `range` and hand what came back to `download`.
    Fetch { download: Download, range: ChunkRange },
    /// The run is over.
    Done(Result<Vec<u8>, FetchError>),
}

/// A `Step` as a mathematical value.
pub enum StepView {
    Fetch { download: DownloadView, range: ChunkRange },
    Done(Result<Seq<u8>, FetchErrorView>),
}

impl View for Step {
    type V = StepView;

    open spec fn view(&self) -> StepView {
        match self {
            Step::Fetch { download, range } => StepView::Fetch { download: download@, range: *range },
            Step::Done(result) => StepView::Done(outcome_view(*result)),
        }
    }
}

/// The step at a point of the run: the next range while one is left, the
/// verdict on the joined bytes after the last.
pub open spec fn step_at(d: DownloadView) -> StepView {
    if d.index < chunk_count(d.len as nat, d.chunk_size as nat) {
        StepView::Fetch {
            download: d,
            range: chunk_at(d.len as nat, d.chunk_size as nat, d.index as int),
        }
    } else {
        StepView::Done(conclude(d.data, d.len, d.hash))
    }
}

/// The first step of a run.
pub open spec fn first_step(len: u32, chunk: u32, hash: Seq<char>) -> StepView {
    step_at(DownloadView { len, hash, chunk_size: chunk, index: 0, data: Seq::empty() })
}

/// The step that follows when `reply` comes back for the range being
/// fetched: a reply without a body ends the run with its error; a body is
/// appended and the run moves to the next range.
pub open spec fn step_on(d: DownloadView, reply: ReplyView) -> StepView {
    match chunk_body(reply) {
        None => StepView::Done(
            Err(chunk_failure(reply, chunk_at(d.len as nat, d.chunk_size as nat, d.index as int))),
        ),
        Some(body) => step_at(
            DownloadView {
                len: d.len,
                hash: d.hash,
                chunk_size: d.chunk_size,
                index: d.index + 1,
                data: d.data + body,
            },
        ),
    }
}

/// What a run comes to when its replies are taken one at a time, from the
/// point where `index` chunks have arrived and `data` holds their bodies.
pub open spec fn drive(
    len: u32,
    chunk: u32,
    hash: Seq<char>,
    replies: Seq<ReplyView>,
    index: nat,
    data: Seq<u8>,
) -> Result<Seq<u8>, FetchErrorView>
    decreases chunk_count(len as nat, chunk as nat) - index,
{
    if index >= chunk_count(len as nat, chunk as nat) {
        conclude(data, len, hash)
    } else {
        match chunk_body(reply_at(replies, index as int)) {
            None => Err(
                chunk_failure(
                    reply_at(replies, index as int),
                    chunk_at(len as nat, chunk as nat, index as int),
                ),
            ),
            Some(body) => drive(len, chunk, hash, replies, index + 1, data + body),
        }
    }
}

/// Taking the replies one at a time comes to what `run_outcome` says, from
/// any point that the run can reach.
pub proof fn lemma_drive_from(
    len: u32,
    chunk: u32,
    hash: Seq<char>,
    replies: Seq<ReplyView>,
    index: nat,
)
    requires
        index <= chunk_count(len as nat, chunk as nat),
        forall|j: int| 0 <= j < index ==> chunk_body(#[trigger] reply_at(replies, j)) is Some,
    ensures
        drive(len, chunk, hash, replies, index, aggregate(replies, index)) == run_outcome(
            len,
            chunk,
            hash,
            replies,
        ),
    decreases chunk_count(len as nat, chunk as nat) - index,
{
    let count = chunk_count(len as nat, chunk as nat);
    if index >= count {
        assert forall|i: int| !first_failure(replies, count, i) by {
            if 0 <= i < count {
                assert(chunk_body(reply_at(replies, i)) is Some);
            }
        }
    } else {
        match chunk_body(reply_at(replies, index as int)) {
            None => {
                assert(first_failure(replies, count, index as int));
                let i = choose|i: int| first_failure(replies, count, i);
                assert(i == index);
            },
            Some(body) => {
                assert(bodies(replies, index + 1) =~= bodies(replies, index).push(body));
                bodies(replies, index).lemma_flatten_push(body);
                assert forall|j: int| 0 <= j < index + 1 implies chunk_body(
                    #[trigger] reply_at(replies, j),
                ) is Some by {
                    if j < index {
                        assert(chunk_body(reply_at(replies, j)) is Some);
                    }
                }
                lemma_drive_from(len, chunk, hash, replies, index + 1);
            },
        }
    }
}

/// Taking the replies one at a time from the start comes to what
/// `run_outcome` says.
pub proof fn lemma_drive_is_run(len: u32, chunk: u32, hash: Seq<char>, replies: Seq<ReplyView>)
    ensures
        drive(len, chunk, hash, replies, 0, Seq::empty()) == run_outcome(len, chunk, hash, replies),
{
    lemma_drive_from(len, chunk, hash, replies, 0);
}

/// What the run comes to from `step` on, when the replies are taken from
/// `replies` by chunk index.
pub open spec fn finish(step: StepView, replies: Seq<ReplyView>) -> Result<Seq<u8>, FetchErrorView> {
    match step {
        StepView::Done(result) => result,
        StepView::Fetch { download, range } => drive(
            download.len,
            download.chunk_size,
            download.hash,
            replies,
            download.index,
            download.data,
        ),
    }
}

/// Taking a step does not change what the run comes to.
pub proof fn lemma_step_on(d: DownloadView, replies: Seq<ReplyView>)
    requires
        d.index < chunk_count(d.len as nat, d.chunk_size as nat),
    ensures
        finish(step_on(d, reply_at(replies, d.index as int)), replies) == drive(
            d.len,
            d.chunk_size,
            d.hash,
            replies,
            d.index,
            d.data,
        ),
{
    match chunk_body(reply_at(replies, d.index as int)) {
        None => {},
        Some(body) => {
            let next = DownloadView {
                len: d.len,
                hash: d.hash,
                chunk_size: d.chunk_size,
                index: d.index + 1,
                data: d.data + body,
            };
            assert(finish(step_at(next), replies) == drive(
                d.len,
                d.chunk_size,
                d.hash,
                replies,
                next.index,
                next.data,
            ));
        },
    }
}

impl Download {
    #[verifier::type_invariant]
    spec fn pending(&self) -> bool {
        self.chunk_size > 0 && self.index < chunk_count(
            self.target.len as nat,
            self.chunk_size as nat,
        )
    }

    /// Takes what came back for the range being fetched.
    pub fn resume(self, reply: Reply) -> (step: Step)
        ensures
            step@ == step_on(self@, reply@),
            step matches Step::Fetch { range, .. } ==> range.start < range.end,
    {
        proof {
            use_type_invariant(&self);
            lemma_count_bound(self.target.len as nat, self.chunk_size as nat);
        }
        let Download { target, chunk_size, index, data } = self;
        let range = range_at(target.len, chunk_size, index).unwrap();
        match receive(range, reply) {
            Err(e) => Step::Done(Err(e)),
            Ok(chunk) => {
                let mut data = data;
                let mut bytes = chunk.bytes;
                data.append(&mut bytes);
                proceed(target, chunk_size, index + 1, data)
            },
        }
    }
}

/// The step at the point where `index` chunks have arrived and `data` holds
/// their bodies.
fn proceed(target: DataConfig, chunk_size: u32, index: u32, data: Vec<u8>) -> (step: Step)
    requires
        chunk_size > 0,
    ensures
        step@ == step_at(
            DownloadView {
                len: target.len,
                hash: target.hash@,
                chunk_size,
                index: index as nat,
                data: data@,
            },
        ),
        step matches Step::Fetch { range, .. } ==> range.start < range.end,
{
    proof {
        lemma_chunk_index(target.len as nat, chunk_size as nat, index as int);
    }
    match range_at(target.len, chunk_size, index) {
        Some(range) => Step::Fetch { download: Download { target, chunk_size, index, data }, range },
        None => match verify(data.as_slice(), &target) {
            Ok(()) => Step::Done(Ok(data)),
            Err(e) => Step::Done(Err(FetchError::Integrity(e))),
        },
    }
}

/// The first step of a run for `target` in chunks of `chunk_size` bytes.
pub fn begin(target: &DataConfig, chunk_size: u32) -> (step: Step)
    requires
        chunk_size > 0,
    ensures
        step@ == first_step(target.len, chunk_size, target.hash@),
        step matches Step::Fetch { range, .. } ==> range.start < range.end,
{
    let own = DataConfig { len: target.len, hash: target.hash.clone() };
    proceed(own, chunk_size, 0, Vec::new())
}

/// A whole run for `target` in chunks of `chunk_size` bytes, where
/// `replies[i]` is what the connection for the `i`-th range delivered.
/// Replies beyond the last range are not looked at.
pub fn run_all(target: &DataConfig, chunk_size: u32, replies: Vec<Reply>) -> (result: Result<
    Vec<u8>,
    FetchError,
>)
    requires
        chunk_size > 0,
    ensures
        outcome_view(result) == run_outcome(
            target.len,
            chunk_size,
            target.hash@,
            reply_views(replies@),
        ),
{
    let ghost all = replies@;
    run_over(target, chunk_size, replies.into_iter(), Ghost(all))
}

/// A whole run that takes its replies from `incoming`, which yields `all`.
fn run_over<I: Iterator<Item = Reply>>(
    target: &DataConfig,
    chunk_size: u32,
    incoming: I,
    Ghost(all): Ghost<Seq<Reply>>,
) -> (result: Result<Vec<u8>, FetchError>)
    requires
        chunk_size > 0,
        incoming.obeys_prophetic_iter_laws(),
        incoming.remaining() == all,
    ensures
        outcome_view(result) == run_outcome(target.len, chunk_size, target.hash@, reply_views(all)),
{
    let ghost views = reply_views(all);
    let ghost goal = run_outcome(target.len, chunk_size, target.hash@, views);
    let ghost count = chunk_count(target.len as nat, chunk_size as nat);
    proof {
        lemma_drive_is_run(target.len, chunk_size, target.hash@, views);
    }
    let mut incoming = incoming;
    let mut step = begin(target, chunk_size);
    loop
        invariant
            chunk_size > 0,
            views == reply_views(all),
            count == chunk_count(target.len as nat, chunk_size as nat),
            goal == run_outcome(target.len, chunk_size, target.hash@, views),
            finish(step@, views) == goal,
            incoming.obeys_prophetic_iter_laws(),
            step@ matches StepView::Fetch { download, range } ==> {
                &&& download.len == target.len
                &&& download.chunk_size == chunk_size
                &&& download.index < count
                &&& incoming.remaining() == if download.index <= all.len() {
                    all.skip(download.index as int)
                } else {
                    Seq::empty()
                }
            },
        decreases
            match step@ {
                StepView::Fetch { download, range } => count - download.index + 1,
                StepView::Done(_) => 0,
            },
    {
        match step {
            Step::Done(result) => {
                return result;
            },
            Step::Fetch { download, range: _ } => {
                let ghost before = download@;
                let reply = match incoming.next() {
                    Some(reply) => reply,
                    None => Reply::ConnectionFailed,
                };
                proof {
                    lemma_step_on(before, views);
                }
                step = download.resume(reply);
            },
        }
    }
}

} // verus!
