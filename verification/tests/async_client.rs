use chunk_fetch::async_client::{AsyncClient, Completion};
use chunk_fetch::client::Client;
use chunk_fetch::config::{DataConfig, ServerConfig};
use chunk_fetch::fetch::{FetchError, Reply};
use chunk_fetch::integrity::IntegrityError;
use chunk_fetch::range::{ChunkRange, CHUNK_SIZE};

fn object(len: usize) -> Vec<u8> {
    (0..len).map(|i| (i * 13 + i / 5) as u8).collect()
}

fn response(object: &[u8], range: ChunkRange) -> Vec<u8> {
    let mut raw = b"HTTP/1.1 206 Partial Content\r\n\r\n".to_vec();
    raw.extend_from_slice(&object[range.start as usize..range.end as usize]);
    raw
}

fn server() -> ServerConfig {
    ServerConfig::new(String::from("127.0.0.1:8080"))
}

fn client_for(object: &[u8], chunk: u32) -> AsyncClient {
    AsyncClient::new(server(), DataConfig::new(object.len() as u32, sha256::digest(object)))
        .with_chunk_size(chunk)
        .unwrap()
}

fn replies(client: &AsyncClient, object: &[u8]) -> Vec<Reply> {
    client.ranges().into_iter().map(|range| Reply::Response(response(object, range))).collect()
}

fn in_order(replies: &[Reply], order: &[usize]) -> Vec<Completion> {
    order.iter().map(|&index| Completion { index, reply: replies[index].clone() }).collect()
}

fn permutations(n: usize) -> Vec<Vec<usize>> {
    if n == 0 {
        return vec![Vec::new()];
    }
    let mut all = Vec::new();
    for shorter in permutations(n - 1) {
        for at in 0..n {
            let mut longer = shorter.clone();
            longer.insert(at, n - 1);
            all.push(longer);
        }
    }
    all
}

#[test]
fn new_async_client_uses_the_default_chunk_size() {
    let data = DataConfig::new(3, String::from("abc"));
    let client = AsyncClient::new(server(), data.clone());
    assert_eq!(client.chunk_size(), CHUNK_SIZE);
    assert_eq!(client.server_config(), &server());
    assert_eq!(client.data_config(), &data);
    assert!(AsyncClient::new(server(), data).with_chunk_size(0).is_none());
}

#[test]
fn ranges_are_the_plan_of_the_object() {
    let client = client_for(&object(100), 40);
    assert_eq!(
        client.ranges(),
        vec![
            ChunkRange { start: 0, end: 40 },
            ChunkRange { start: 40, end: 80 },
            ChunkRange { start: 80, end: 100 },
        ]
    );
    assert_eq!(client_for(&[], 40).ranges(), Vec::new());
}

#[test]
fn completions_in_range_order_give_the_object() {
    let object = object(100);
    let client = client_for(&object, 40);
    let replies = replies(&client, &object);
    assert_eq!(client.run(in_order(&replies, &[0, 1, 2])), Ok(object));
}

#[test]
fn any_completion_order_gives_what_the_sequential_run_gives() {
    let object = object(250);
    let parallel = client_for(&object, 64);
    let sequential = Client::new(server(), DataConfig::new(250, sha256::digest(&object)))
        .with_chunk_size(64)
        .unwrap();
    let replies = replies(&parallel, &object);
    assert_eq!(replies.len(), 4);
    let expected = sequential.run(replies.clone());
    assert_eq!(expected, Ok(object));
    let orders = permutations(4);
    assert_eq!(orders.len(), 24);
    for order in orders {
        assert_eq!(parallel.run(in_order(&replies, &order)), expected, "{:?}", order);
    }
}

#[test]
fn any_completion_order_reports_the_same_failure() {
    let object = object(250);
    let parallel = client_for(&object, 64);
    let sequential = Client::new(server(), DataConfig::new(250, sha256::digest(&object)))
        .with_chunk_size(64)
        .unwrap();
    let mut replies = replies(&parallel, &object);
    replies[1] = Reply::Response(b"HTTP/1.1 500".to_vec());
    replies[3] = Reply::ConnectionFailed;
    let expected = sequential.run(replies.clone());
    assert_eq!(expected, Err(FetchError::Protocol { range: ChunkRange { start: 64, end: 128 } }));
    for order in permutations(4) {
        assert_eq!(parallel.run(in_order(&replies, &order)), expected, "{:?}", order);
    }
}

#[test]
fn chunk_that_never_completed_counts_as_a_failed_connection() {
    let object = object(100);
    let client = client_for(&object, 40);
    let replies = replies(&client, &object);
    assert_eq!(
        client.run(in_order(&replies, &[2, 0])),
        Err(FetchError::Connection { range: ChunkRange { start: 40, end: 80 } })
    );
    assert_eq!(
        client.run(Vec::new()),
        Err(FetchError::Connection { range: ChunkRange { start: 0, end: 40 } })
    );
}

#[test]
fn later_completion_of_a_chunk_stands() {
    let object = object(100);
    let client = client_for(&object, 40);
    let replies = replies(&client, &object);
    let mut completions = in_order(&replies, &[2, 1, 0]);
    completions.insert(0, Completion { index: 1, reply: Reply::ConnectionFailed });
    assert_eq!(client.run(completions), Ok(object));
    let mut completions = in_order(&replies, &[2, 1, 0]);
    completions.push(Completion { index: 1, reply: Reply::ConnectionFailed });
    assert_eq!(
        client.run(completions),
        Err(FetchError::Connection { range: ChunkRange { start: 40, end: 80 } })
    );
}

#[test]
fn completion_for_a_chunk_outside_the_plan_is_dropped() {
    let object = object(100);
    let client = client_for(&object, 40);
    let replies = replies(&client, &object);
    let mut completions = in_order(&replies, &[1, 2, 0]);
    completions.insert(1, Completion { index: 3, reply: Reply::ConnectionFailed });
    completions.push(Completion { index: usize::MAX, reply: Reply::Response(b"\r\nx".to_vec()) });
    assert_eq!(client.run(completions), Ok(object));
}

#[test]
fn empty_object_completes_without_completions() {
    let client = AsyncClient::new(
        server(),
        DataConfig::new(
            0,
            String::from("E3B0C44298FC1C149AFBF4C8996FB92427AE41E4649B934CA495991B7852B855"),
        ),
    );
    assert_eq!(client.run(Vec::new()), Ok(Vec::new()));
    assert_eq!(
        client.run(vec![Completion { index: 0, reply: Reply::ConnectionFailed }]),
        Ok(Vec::new())
    );
}

#[test]
fn parallel_run_checks_length_and_digest() {
    let object = object(100);
    let client = client_for(&object, 40);
    let mut replies = replies(&client, &object);
    replies[0] = Reply::Response(b"\r\n".to_vec());
    assert_eq!(
        client.run(in_order(&replies, &[1, 0, 2])),
        Err(FetchError::Integrity(IntegrityError::LengthMismatch { expected: 100, actual: 60 }))
    );
    let mut altered = object.clone();
    altered[99] ^= 0x80;
    let replies = self::replies(&client, &altered);
    assert_eq!(
        client.run(in_order(&replies, &[2, 1, 0])),
        Err(FetchError::Integrity(IntegrityError::DigestMismatch {
            expected: sha256::digest(&object),
            actual: sha256::digest(&altered),
        }))
    );
}
