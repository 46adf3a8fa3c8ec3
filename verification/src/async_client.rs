//! The parallel client: every range is asked for at once, each over a
//! connection of its own, and the replies are put back in range order
//! whatever the order in which they arrived.

use crate::config::{DataConfig, ServerConfig};
use crate::download::run_all;
use crate::fetch::{
    aggregate, outcome_view, reply_views, run_outcome, FetchError, Reply, ReplyView,
};
use crate::range::{chunk_count, chunk_plan, count_chunks, partition, tiles, ChunkRange, CHUNK_SIZE};
use vstd::prelude::*;
use vstd::std_specs::iter::IteratorSpec;

verus! {

/// The reply for one chunk, tagged with the position of the chunk's range in
/// the plan.
#[derive(Clone, Debug, PartialEq, Eq)]
pub struct Completion {
    pub index: usize,
    pub reply: Reply,
}

/// A `Completion` as a mathematical value.
pub struct CompletionView {
    pub index: nat,
    pub reply: ReplyView,
}

impl View for Completion {
    type V = CompletionView;

    open spec fn view(&self) -> CompletionView {
        CompletionView { index: self.index as nat, reply: self.reply@ }
    }
}

/// The completions of a run as mathematical values.
pub open spec fn completion_views(completions: Seq<Completion>) -> Seq<CompletionView> {
    completions.map_values(|completion: Completion| completion@)
}

/// The replies of `count` chunks in range order, after the completions have
/// arrived in the order given. A chunk that never completed counts as a
/// failed connection; of two completions for one chunk the later stands; one
/// for a chunk that the plan does not have is dropped.
pub open spec fn arrange(count: nat, completions: Seq<CompletionView>) -> Seq<ReplyView>
    decreases completions.len(),
{
    if completions.len() == 0 {
        Seq::new(count, |i: int| ReplyView::ConnectionFailed)
    } else {
        let earlier = arrange(count, completions.drop_last());
        let latest = completions.last();
        if latest.index < count {
            earlier.update(latest.index as int, latest.reply)
        } else {
            earlier
        }
    }
}

/// True when a completion for chunk `i` arrived.
pub open spec fn completed(completions: Seq<CompletionView>, i: int) -> bool {
    exists|k: int| 0 <= k < completions.len() && (#[trigger] completions[k]).index == i
}

/// Each slot holds the reply of the chunk's latest completion.
pub proof fn lemma_arrange_slot(count: nat, completions: Seq<CompletionView>, i: int)
    requires
        0 <= i < count,
    ensures
        arrange(count, completions).len() == count,
        (forall|k: int| 0 <= k < completions.len() ==> (#[trigger] completions[k]).index != i)
            ==> arrange(count, completions)[i] == ReplyView::ConnectionFailed,
        forall|k: int|
            0 <= k < completions.len() && (#[trigger] completions[k]).index == i && (forall|
                later: int,
            |
                k < later < completions.len() ==> (#[trigger] completions[later]).index != i)
                ==> arrange(count, completions)[i] == completions[k].reply,
    decreases completions.len(),
{
    if completions.len() > 0 {
        let earlier = completions.drop_last();
        lemma_arrange_slot(count, earlier, i);
        let latest = completions.last();
        if latest.index != i {
            assert forall|k: int|
                0 <= k < completions.len() && (#[trigger] completions[k]).index == i && (forall|
                    later: int,
                |
                    k < later < completions.len() ==> (#[trigger] completions[later]).index
                        != i) implies arrange(count, completions)[i] == completions[k].reply by {
                assert(earlier[k] == completions[k]);
                assert forall|later: int| k < later < earlier.len() implies (
                #[trigger] earlier[later]).index != i by {
                    assert(earlier[later] == completions[later]);
                }
            }
            if forall|k: int| 0 <= k < completions.len() ==> (#[trigger] completions[k]).index != i {
                assert forall|k: int| 0 <= k < earlier.len() implies (#[trigger] earlier[k]).index
                    != i by {
                    assert(earlier[k] == completions[k]);
                }
            }
        }
    }
}

/// The order of arrival does not matter: once every chunk's reply has
/// arrived, the replies stand in range order, so the bytes are joined as
/// they are when the chunks are fetched one after another, and the run
/// returns the same.
pub proof fn lemma_completion_order(
    len: u32,
    chunk: u32,
    hash: Seq<char>,
    replies: Seq<ReplyView>,
    completions: Seq<CompletionView>,
)
    requires
        replies.len() == chunk_count(len as nat, chunk as nat),
        forall|k: int|
            0 <= k < completions.len() ==> (#[trigger] completions[k]).index < replies.len()
                && completions[k].reply == replies[completions[k].index as int],
        forall|i: int| 0 <= i < replies.len() ==> #[trigger] completed(completions, i),
    ensures
        arrange(replies.len(), completions) == replies,
        aggregate(arrange(replies.len(), completions), replies.len()) == aggregate(
            replies,
            replies.len(),
        ),
        run_outcome(len, chunk, hash, arrange(replies.len(), completions)) == run_outcome(
            len,
            chunk,
            hash,
            replies,
        ),
{
    let count = replies.len();
    let slots = arrange(count, completions);
    assert forall|i: int| 0 <= i < count implies slots[i] == replies[i] by {
        lemma_arrange_slot(count, completions, i);
        assert(completed(completions, i));
        let k = choose|k: int| 0 <= k < completions.len() && (#[trigger] completions[k]).index == i;
        let last = lemma_latest(completions, i, k);
        assert(slots[i] == completions[last].reply);
    }
    if count > 0 {
        lemma_arrange_slot(count, completions, 0);
    } else {
        lemma_arrange_len(count, completions);
    }
    assert(slots =~= replies);
}

/// The arrangement has one slot for each chunk.
pub proof fn lemma_arrange_len(count: nat, completions: Seq<CompletionView>)
    ensures
        arrange(count, completions).len() == count,
    decreases completions.len(),
{
    if completions.len() > 0 {
        lemma_arrange_len(count, completions.drop_last());
    }
}

/// A chunk that completed has a latest completion.
proof fn lemma_latest(completions: Seq<CompletionView>, i: int, k: int) -> (last: int)
    requires
        0 <= k < completions.len(),
        completions[k].index == i,
    ensures
        k <= last < completions.len(),
        completions[last].index == i,
        forall|later: int|
            last < later < completions.len() ==> (#[trigger] completions[later]).index != i,
    decreases completions.len() - k,
{
    if exists|later: int| k < later < completions.len() && (#[trigger] completions[later]).index == i {
        let later = choose|later: int|
            k < later < completions.len() && (#[trigger] completions[later]).index == i;
        lemma_latest(completions, i, later)
    } else {
        k
    }
}

/// Fetches an object from one server, all chunks at once.
pub struct AsyncClient {
    server_config: ServerConfig,
    data_config: DataConfig,
    chunk_size: u32,
}

impl AsyncClient {
    #[verifier::type_invariant]
    spec fn positive_chunk(&self) -> bool {
        self.chunk_size > 0
    }

    /// The server this client asks.
    pub closed spec fn server(&self) -> ServerConfig {
        self.server_config
    }

    /// The object this client fetches.
    pub closed spec fn data(&self) -> DataConfig {
        self.data_config
    }

    /// The number of bytes this client asks for in one request.
    pub closed spec fn chunk(&self) -> u32 {
        self.chunk_size
    }

    /// A client that asks for `CHUNK_SIZE` bytes at a time.
    pub fn new(server_config: ServerConfig, data_config: DataConfig) -> (client: Self)
        ensures
            client.server() == server_config,
            client.data() == data_config,
            client.chunk() == CHUNK_SIZE,
    {
        Self { server_config, data_config, chunk_size: CHUNK_SIZE }
    }

    /// The same client with another chunk size. There is none with chunks of
    /// no bytes.
    pub fn with_chunk_size(self, chunk_size: u32) -> (client: Option<Self>)
        ensures
            client is None <==> chunk_size == 0,
            client matches Some(c) ==> c.server() == self.server() && c.data() == self.data()
                && c.chunk() == chunk_size,
    {
        if chunk_size == 0 {
            None
        } else {
            let AsyncClient { server_config, data_config, chunk_size: _ } = self;
            Some(Self { server_config, data_config, chunk_size })
        }
    }

    /// The server this client asks.
    pub fn server_config(&self) -> (config: &ServerConfig)
        ensures
            *config == self.server(),
    {
        &self.server_config
    }

    /// The object this client fetches.
    pub fn data_config(&self) -> (config: &DataConfig)
        ensures
            *config == self.data(),
    {
        &self.data_config
    }

    /// The number of bytes this client asks for in one request.
    pub fn chunk_size(&self) -> (size: u32)
        ensures
            size == self.chunk(),
            size > 0,
    {
        proof {
            use_type_invariant(self);
        }
        self.chunk_size
    }

    /// The ranges to ask for, in ascending order. A completion's index is a
    /// position in this plan.
    pub fn ranges(&self) -> (ranges: Vec<ChunkRange>)
        ensures
            ranges@ == chunk_plan(self.data().len as nat, self.chunk() as nat),
            tiles(ranges@, self.data().len as nat, self.chunk() as nat),
    {
        proof {
            use_type_invariant(self);
        }
        partition(self.data_config.len, self.chunk_size)
    }

    /// A whole run, where `completions` holds the replies in the order in
    /// which they arrived. The result is that of the sequential run on the
    /// same replies in range order.
    pub fn run(&self, completions: Vec<Completion>) -> (result: Result<Vec<u8>, FetchError>)
        ensures
            outcome_view(result) == run_outcome(
                self.data().len,
                self.chunk(),
                self.data().hash@,
                arrange(
                    chunk_count(self.data().len as nat, self.chunk() as nat),
                    completion_views(completions@),
                ),
            ),
    {
        proof {
            use_type_invariant(self);
        }
        let count: u32 = count_chunks(self.data_config.len, self.chunk_size);
        let ghost all = completions@;
        let replies = arrange_over(count, completions.into_iter(), Ghost(all));
        run_all(&self.data_config, self.chunk_size, replies)
    }
}

/// Puts the replies that `incoming` yields, which are `all`, in range order.
fn arrange_over<I: Iterator<Item = Completion>>(
    count: u32,
    incoming: I,
    Ghost(all): Ghost<Seq<Completion>>,
) -> (slots: Vec<Reply>)
    requires
        incoming.obeys_prophetic_iter_laws(),
        incoming.remaining() == all,
    ensures
        reply_views(slots@) == arrange(count as nat, completion_views(all)),
{
    let mut slots: Vec<Reply> = Vec::new();
    let mut filled: u32 = 0;
    while filled < count
        invariant
            filled <= count,
            slots@.len() == filled,
            forall|i: int| 0 <= i < filled ==> (#[trigger] slots@[i])@ == ReplyView::ConnectionFailed,
        decreases count - filled,
    {
        slots.push(Reply::ConnectionFailed);
        filled = filled + 1;
    }
    let ghost views = completion_views(all);
    let ghost mut seen: int = 0;
    let mut incoming = incoming;
    loop
        invariant
            views == completion_views(all),
            0 <= seen <= all.len(),
            incoming.obeys_prophetic_iter_laws(),
            incoming.remaining() == all.skip(seen),
            slots@.len() == count,
            reply_views(slots@) == arrange(count as nat, views.take(seen)),
        decreases all.len() - seen,
    {
        match incoming.next() {
            None => {
                assert(views.take(seen) =~= views);
                return slots;
            },
            Some(completion) => {
                let Completion { index, reply } = completion;
                if index < count as usize {
                    slots.set(index, reply);
                }
                proof {
                    assert(views.take(seen + 1).drop_last() =~= views.take(seen));
                    seen = seen + 1;
                }
            },
        }
    }
}

} // verus!
