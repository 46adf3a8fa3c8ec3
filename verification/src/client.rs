//! The sequential client: one connection after another, in range order.

use crate::config::{DataConfig, ServerConfig};
use crate::download::{begin, first_step, run_all, Step};
use crate::fetch::{outcome_view, reply_views, run_outcome, FetchError, Reply};
use crate::range::CHUNK_SIZE;
use vstd::prelude::*;

verus! {

/// Fetches an object from one server, chunk by chunk.
pub struct Client {
    server_config: ServerConfig,
    data_config: DataConfig,
    chunk_size: u32,
}

impl Client {
    #[verifier::type_invariant]
    spec fn positive_chunk(&self) -> bool {
        self.chunk_size > 0
    }

    /// The server this client asks.
    pub closed spec fn server(&self) -> ServerConfig {
        self.server_config
    }

    /// The object this client fetches.
    pub closed spec fn data(&self) -> DataConfig {
        self.data_config
    }

    /// The number of bytes this client asks for in one request.
    pub closed spec fn chunk(&self) -> u32 {
        self.chunk_size
    }

    /// A client that asks for `CHUNK_SIZE` bytes at a time.
    pub fn new(server_config: ServerConfig, data_config: DataConfig) -> (client: Self)
        ensures
            client.server() == server_config,
            client.data() == data_config,
            client.chunk() == CHUNK_SIZE,
    {
        Self { server_config, data_config, chunk_size: CHUNK_SIZE }
    }

    /// The same client with another chunk size. There is none with chunks of
    /// no bytes.
    pub fn with_chunk_size(self, chunk_size: u32) -> (client: Option<Self>)
        ensures
            client is None <==> chunk_size == 0,
            client matches Some(c) ==> c.server() == self.server() && c.data() == self.data()
                && c.chunk() == chunk_size,
    {
        if chunk_size == 0 {
            None
        } else {
            let Client { server_config, data_config, chunk_size: _ } = self;
            Some(Self { server_config, data_config, chunk_size })
        }
    }

    /// The server this client asks.
    pub fn server_config(&self) -> (config: &ServerConfig)
        ensures
            *config == self.server(),
    {
        &self.server_config
    }

    /// The object this client fetches.
    pub fn data_config(&self) -> (config: &DataConfig)
        ensures
            *config == self.data(),
    {
        &self.data_config
    }

    /// The number of bytes this client asks for in one request.
    pub fn chunk_size(&self) -> (size: u32)
        ensures
            size == self.chunk(),
            size > 0,
    {
        proof {
            use_type_invariant(self);
        }
        self.chunk_size
    }

    /// The first step of a run: the first range to fetch or, for an object
    /// of no bytes, the verdict on the empty object.
    pub fn start(&self) -> (step: Step)
        ensures
            step@ == first_step(self.data().len, self.chunk(), self.data().hash@),
            step matches Step::Fetch { range, .. } ==> range.start < range.end,
    {
        proof {
            use_type_invariant(self);
        }
        begin(&self.data_config, self.chunk_size)
    }

    /// A whole run, where `replies[i]` is what the connection for the `i`-th
    /// range delivered. A range without a reply counts as a failed
    /// connection.
    pub fn run(&self, replies: Vec<Reply>) -> (result: Result<Vec<u8>, FetchError>)
        ensures
            outcome_view(result) == run_outcome(
                self.data().len,
                self.chunk(),
                self.data().hash@,
                reply_views(replies@),
            ),
    {
        proof {
            use_type_invariant(self);
        }
        run_all(&self.data_config, self.chunk_size, replies)
    }
}

} // verus!
