use chunk_fetch::client::Client;
use chunk_fetch::config::{DataConfig, ServerConfig};
use chunk_fetch::download::{begin, run_all, Step};
use chunk_fetch::fetch::{receive, ChunkResult, FetchError, Reply};
use chunk_fetch::integrity::IntegrityError;
use chunk_fetch::range::{partition, ChunkRange, CHUNK_SIZE};

const EMPTY_DIGEST: &str = "e3b0c44298fc1c149afbf4c8996fb92427ae41e4649b934ca495991b7852b855";

fn object(len: usize) -> Vec<u8> {
    (0..len).map(|i| (i * 31 + i / 7) as u8).collect()
}

fn response(object: &[u8], range: ChunkRange) -> Vec<u8> {
    let mut raw = b"HTTP/1.1 206 Partial Content\r\nContent-Type: application/octet-stream\r\n\r\n".to_vec();
    raw.extend_from_slice(&object[range.start as usize..range.end as usize]);
    raw
}

fn replies(object: &[u8], chunk: u32) -> Vec<Reply> {
    partition(object.len() as u32, chunk)
        .into_iter()
        .map(|range| Reply::Response(response(object, range)))
        .collect()
}

fn client(len: u32, hash: String, chunk: u32) -> Client {
    Client::new(ServerConfig::new(String::from("127.0.0.1:8080")), DataConfig::new(len, hash))
        .with_chunk_size(chunk)
        .unwrap()
}

fn client_for(object: &[u8], chunk: u32) -> Client {
    client(object.len() as u32, sha256::digest(object), chunk)
}

#[test]
fn new_client_uses_the_default_chunk_size() {
    let server = ServerConfig::new(String::from("example.org:80"));
    let data = DataConfig::new(3, String::from("abc"));
    let client = Client::new(server.clone(), data.clone());
    assert_eq!(client.chunk_size(), CHUNK_SIZE);
    assert_eq!(client.server_config(), &server);
    assert_eq!(client.data_config(), &data);
}

#[test]
fn chunk_size_can_be_set_but_not_to_zero() {
    let server = ServerConfig::new(String::from("example.org:80"));
    let data = DataConfig::new(3, String::from("abc"));
    let tuned = Client::new(server.clone(), data.clone()).with_chunk_size(16).unwrap();
    assert_eq!(tuned.chunk_size(), 16);
    assert_eq!(tuned.server_config(), &server);
    assert_eq!(tuned.data_config(), &data);
    assert!(Client::new(server, data).with_chunk_size(0).is_none());
}

#[test]
fn round_trip_in_small_chunks() {
    let object = object(1000);
    for chunk in [1u32, 7, 64, 999, 1000, 1001, 65536] {
        let client = client_for(&object, chunk);
        assert_eq!(client.run(replies(&object, chunk)), Ok(object.clone()), "chunk {}", chunk);
    }
}

#[test]
fn round_trip_with_the_default_chunk_size() {
    let object = object(200_000);
    let client = Client::new(
        ServerConfig::new(String::from("127.0.0.1:8080")),
        DataConfig::new(200_000, sha256::digest(&object).to_uppercase()),
    );
    let replies = replies(&object, CHUNK_SIZE);
    assert_eq!(replies.len(), 4);
    assert_eq!(client.run(replies), Ok(object));
}

#[test]
fn empty_object_needs_no_reply() {
    let client = client(0, EMPTY_DIGEST.to_string(), CHUNK_SIZE);
    assert_eq!(client.run(Vec::new()), Ok(Vec::new()));
}

#[test]
fn empty_object_with_another_digest_fails() {
    let client = client(0, sha256::digest("x"), CHUNK_SIZE);
    assert_eq!(
        client.run(Vec::new()),
        Err(FetchError::Integrity(IntegrityError::DigestMismatch {
            expected: sha256::digest("x"),
            actual: EMPTY_DIGEST.to_string(),
        }))
    );
}

#[test]
fn chunk_with_fewer_bytes_is_a_length_mismatch() {
    let object = object(100);
    let client = client_for(&object, 40);
    let mut replies = replies(&object, 40);
    replies[1] = Reply::Response(b"H: 1\r\n\r\nabc".to_vec());
    assert_eq!(
        client.run(replies),
        Err(FetchError::Integrity(IntegrityError::LengthMismatch { expected: 100, actual: 63 }))
    );
}

#[test]
fn chunk_with_more_bytes_is_a_length_mismatch() {
    let object = object(100);
    let client = client_for(&object, 40);
    let mut replies = replies(&object, 40);
    let mut long = response(&object, ChunkRange { start: 80, end: 100 });
    long.extend_from_slice(b"!!");
    replies[2] = Reply::Response(long);
    assert_eq!(
        client.run(replies),
        Err(FetchError::Integrity(IntegrityError::LengthMismatch { expected: 100, actual: 102 }))
    );
}

#[test]
fn chunks_of_wrong_sizes_that_add_up_pass_the_length_check() {
    let object = object(100);
    let client = client_for(&object, 40);
    let replies = vec![
        Reply::Response(response(&object, ChunkRange { start: 0, end: 10 })),
        Reply::Response(response(&object, ChunkRange { start: 10, end: 95 })),
        Reply::Response(response(&object, ChunkRange { start: 95, end: 100 })),
    ];
    assert_eq!(client.run(replies), Ok(object));
}

#[test]
fn flipped_bit_in_one_chunk_is_a_digest_mismatch() {
    let object = object(100);
    let client = client_for(&object, 40);
    let mut altered = object.clone();
    altered[57] ^= 0x10;
    assert_eq!(
        client.run(replies(&altered, 40)),
        Err(FetchError::Integrity(IntegrityError::DigestMismatch {
            expected: sha256::digest(&object),
            actual: sha256::digest(&altered),
        }))
    );
}

#[test]
fn chunks_in_the_wrong_order_are_a_digest_mismatch() {
    let object = object(80);
    let client = client_for(&object, 40);
    let mut replies = replies(&object, 40);
    replies.swap(0, 1);
    let mut swapped = object[40..].to_vec();
    swapped.extend_from_slice(&object[..40]);
    assert_eq!(
        client.run(replies),
        Err(FetchError::Integrity(IntegrityError::DigestMismatch {
            expected: sha256::digest(&object),
            actual: sha256::digest(&swapped),
        }))
    );
}

#[test]
fn response_that_ends_in_its_header_block_is_a_protocol_error() {
    let object = object(100);
    let client = client_for(&object, 40);
    let mut replies = replies(&object, 40);
    replies[1] = Reply::Response(b"HTTP/1.1 206 Partial Content\r\nContent-Type: text".to_vec());
    assert_eq!(
        client.run(replies),
        Err(FetchError::Protocol { range: ChunkRange { start: 40, end: 80 } })
    );
}

#[test]
fn failed_connection_is_a_connection_error() {
    let object = object(100);
    let client = client_for(&object, 40);
    let mut replies = replies(&object, 40);
    replies[2] = Reply::ConnectionFailed;
    assert_eq!(
        client.run(replies),
        Err(FetchError::Connection { range: ChunkRange { start: 80, end: 100 } })
    );
}

#[test]
fn first_failure_in_range_order_is_reported() {
    let object = object(100);
    let client = client_for(&object, 40);
    let mut replies = replies(&object, 40);
    replies[1] = Reply::ConnectionFailed;
    replies[2] = Reply::Response(Vec::new());
    assert_eq!(
        client.run(replies),
        Err(FetchError::Connection { range: ChunkRange { start: 40, end: 80 } })
    );
    let mut replies = self::replies(&object, 40);
    replies[0] = Reply::Response(b"no end".to_vec());
    replies[1] = Reply::ConnectionFailed;
    assert_eq!(
        client.run(replies),
        Err(FetchError::Protocol { range: ChunkRange { start: 0, end: 40 } })
    );
}

#[test]
fn range_without_a_reply_counts_as_a_failed_connection() {
    let object = object(100);
    let client = client_for(&object, 40);
    let mut replies = replies(&object, 40);
    replies.pop();
    assert_eq!(
        client.run(replies),
        Err(FetchError::Connection { range: ChunkRange { start: 80, end: 100 } })
    );
    assert_eq!(
        client.run(Vec::new()),
        Err(FetchError::Connection { range: ChunkRange { start: 0, end: 40 } })
    );
}

#[test]
fn replies_beyond_the_last_range_are_not_looked_at() {
    let object = object(100);
    let client = client_for(&object, 40);
    let mut replies = replies(&object, 40);
    replies.push(Reply::ConnectionFailed);
    replies.push(Reply::Response(b"\r\nmore".to_vec()));
    assert_eq!(client.run(replies), Ok(object));
}

#[test]
fn steps_ask_for_the_ranges_in_order() {
    let object = object(100);
    let client = client_for(&object, 40);
    let mut asked = Vec::new();
    let mut step = client.start();
    let result = loop {
        match step {
            Step::Done(result) => break result,
            Step::Fetch { download, range } => {
                asked.push(range);
                step = download.resume(Reply::Response(response(&object, range)));
            }
        }
    };
    assert_eq!(result, Ok(object));
    assert_eq!(
        asked,
        vec![
            ChunkRange { start: 0, end: 40 },
            ChunkRange { start: 40, end: 80 },
            ChunkRange { start: 80, end: 100 },
        ]
    );
}

#[test]
fn steps_end_at_the_first_failure() {
    let object = object(100);
    let client = client_for(&object, 40);
    let first = match client.start() {
        Step::Fetch { download, range } => {
            assert_eq!(range, ChunkRange { start: 0, end: 40 });
            download.resume(Reply::Response(response(&object, range)))
        }
        Step::Done(_) => panic!("nothing was fetched yet"),
    };
    let second = match first {
        Step::Fetch { download, range } => {
            assert_eq!(range, ChunkRange { start: 40, end: 80 });
            download.resume(Reply::Response(b"HTTP/1.1 200 OK\r\n".to_vec()))
        }
        Step::Done(_) => panic!("two ranges are left"),
    };
    match second {
        Step::Done(result) => assert_eq!(
            result,
            Err(FetchError::Protocol { range: ChunkRange { start: 40, end: 80 } })
        ),
        Step::Fetch { .. } => panic!("the run is over"),
    }
}

#[test]
fn steps_of_an_empty_object_are_done_at_once() {
    match client(0, EMPTY_DIGEST.to_string(), 40).start() {
        Step::Done(result) => assert_eq!(result, Ok(Vec::new())),
        Step::Fetch { .. } => panic!("there is nothing to fetch"),
    }
    match begin(&DataConfig::new(0, String::from("none")), 1) {
        Step::Done(result) => assert_eq!(
            result,
            Err(FetchError::Integrity(IntegrityError::DigestMismatch {
                expected: String::from("none"),
                actual: EMPTY_DIGEST.to_string(),
            }))
        ),
        Step::Fetch { .. } => panic!("there is nothing to fetch"),
    }
}

#[test]
fn run_all_is_the_run_of_a_client() {
    let object = object(300);
    let target = DataConfig::new(300, sha256::digest(&object));
    assert_eq!(run_all(&target, 128, replies(&object, 128)), Ok(object.clone()));
    assert_eq!(
        run_all(&target, 128, replies(&object[..299], 128)),
        Err(FetchError::Integrity(IntegrityError::LengthMismatch { expected: 300, actual: 299 }))
    );
}

#[test]
fn receive_takes_the_body_or_names_the_failure() {
    let range = ChunkRange { start: 4, end: 8 };
    assert_eq!(
        receive(range, Reply::Response(b"A: b\r\n\r\nbody".to_vec())),
        Ok(ChunkResult { range, bytes: b"body".to_vec() })
    );
    assert_eq!(
        receive(range, Reply::Response(b"A: b\r\n".to_vec())),
        Err(FetchError::Protocol { range })
    );
    assert_eq!(receive(range, Reply::ConnectionFailed), Err(FetchError::Connection { range }));
}
