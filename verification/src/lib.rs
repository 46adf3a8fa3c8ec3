//! Chunked retrieval of a byte object of known length and SHA-256 digest.
//!
//! The object is split into fixed-size ranges (`range`), each range is asked
//! for over a connection of its own with a request that `codec` builds, the
//! bodies that `codec` takes out of the responses are joined in ascending
//! range order (`fetch`), and the result is held against the announced
//! length and digest (`integrity`).
//!
//! The crate holds the rules of that exchange and opens no connection
//! itself. The caller moves the bytes and hands in what each connection
//! delivered, in one of two ways:
//!
//! - one chunk after another: `Client::start` names the first range, and
//!   `Download::resume` takes each reply and names the next range or ends
//!   the run;
//! - all chunks at once: `AsyncClient::ranges` names every range, and
//!   `AsyncClient::run` takes the replies in the order in which they
//!   arrived.
//!
//! Both come to the same result, which `fetch::run_outcome` states.

pub mod async_client;
pub mod client;
pub mod codec;
pub mod config;
pub mod decimal;
pub mod download;
pub mod fetch;
pub mod integrity;
pub mod range;
pub mod round_trip;
pub mod text;

pub use async_client::{AsyncClient, Completion};
pub use client::Client;
pub use config::{Config, DataConfig, ServerConfig};
pub use download::{Download, Step};
pub use fetch::{ChunkResult, FetchError, Reply};
pub use integrity::IntegrityError;
pub use range::{ChunkRange, CHUNK_SIZE};
