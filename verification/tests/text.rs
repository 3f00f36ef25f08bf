use paqus_node::clock::{current_unix_timestamp, reading_or_error, reading_or_zero, unix_timestamp};
use paqus_node::codec::{
    decode_u64, decode_u8, encode_u64, encode_u8, u32_from_be_bytes, u32_to_be_bytes,
    u64_from_be_bytes, u64_to_be_bytes,
};
use paqus_node::display::{
    format_difficulty, format_hash, pow_target_description, short_hash,
};
use paqus_node::explorer::{explorer_listing, listing_of};
use paqus_node::http::{
    content_length, get_request, post_request, response_body, response_body_complete, ReadEvent,
    ResponseReader,
};
use paqus_node::mempool::MempoolError;
use paqus_node::message::{IoErrorKind, NetworkError, RejectReason};
use paqus_node::node::NodeError;
use paqus_node::order::{rank, same_bytes, Rank};
use paqus_node::ordered_map::OrderedMap;
use paqus_node::peers::SocketAddress;
use paqus_node::peers_file::{invalid_peer_line, known_peers, peer_lines, ParsedLine};
use paqus_node::run_config::AddressText;
use paqus_node::sort::stable_sort;
use paqus_node::storage::{SerializationError, StorageError};
use paqus_node::text::{decimal_text, find_char, lines, same_ignoring_case, starts_with_dash, trim};
use paqus_node::types::{
    Block, BlockData, Digest, Height, LedgerError, Nonce, TransactionError,
};
use paqus_node::wallet::Ascending;

#[test]
fn trims_as_the_standard_does() {
    for text in ["", " ", " a b ", "\t\r\n x\u{a0}", "\u{2003}y\u{3000}", "z"] {
        assert_eq!(trim(text), text.trim());
    }
    assert!(starts_with_dash("-x"));
    assert!(!starts_with_dash("x-"));
    assert!(!starts_with_dash(""));
}

#[test]
fn splits_lines_as_the_standard_does() {
    for text in ["", "\n", "a", "a\n", "a\r\nb\r\n", "a\rb\n\nc\r", "\r\n\r\n", "x\r"] {
        assert_eq!(lines(text), text.lines().collect::<Vec<_>>());
    }
}

#[test]
fn writes_numbers() {
    for n in [0, 7, 10, 99, 100, 12_345, u64::MAX] {
        assert_eq!(decimal_text(n), n.to_string());
    }
}

#[test]
fn finds_characters_and_ignores_case() {
    assert_eq!(find_char("ab:c:d", ':'), 2);
    assert_eq!(find_char("abc", ':'), 3);
    for (a, b) in [("Content-Length", "content-length"), ("K", "\u{212a}"), ("a", "b"), ("a", "aa"), ("[", "{"), ("@", "`")] {
        assert_eq!(same_ignoring_case(a, b), a.eq_ignore_ascii_case(b));
    }
}

#[test]
fn numbers_have_their_bytes() {
    assert_eq!(u64_to_be_bytes(0x0102), 0x0102_u64.to_be_bytes().to_vec());
    assert_eq!(u32_to_be_bytes(7), vec![0, 0, 0, 7]);
    assert_eq!(u32_from_be_bytes(&[1, 0, 0, 2]), 0x0100_0002);
    assert_eq!(encode_u64(0x0102), vec![2, 1, 0, 0, 0, 0, 0, 0]);
    assert_eq!(decode_u64(&[2, 1, 0, 0, 0, 0, 0, 0]), Ok(0x0102));
    assert_eq!(decode_u64(&[2, 1]), Err("Unexpected length of input"));
    assert_eq!(decode_u64(&[0; 9]), Err("Not all bytes read"));
    assert_eq!(encode_u8(9), vec![9]);
    assert_eq!(decode_u8(&[9]), Ok(9));
    assert_eq!(decode_u8(&[9, 9]), Err("Not all bytes read"));
    assert_eq!(decode_u8(&[]), Err("Unexpected length of input"));
    for bytes in [vec![], vec![1; 7], vec![1; 8], vec![1; 9]] {
        let read: Result<u64, String> =
            borsh::from_slice(&bytes).map_err(|error: borsh::io::Error| error.to_string());
        assert_eq!(decode_u64(&bytes).map_err(str::to_string), read);
        let read: Result<u8, String> =
            borsh::from_slice(&bytes).map_err(|error: borsh::io::Error| error.to_string());
        assert_eq!(decode_u8(&bytes).map_err(str::to_string), read);
    }
    assert_eq!(u64_from_be_bytes(&u64_to_be_bytes(0x0102_0304_0506_0708)), 0x0102_0304_0506_0708);
}

#[test]
fn reads_the_clock() {
    let reading = std::time::SystemTime::now()
        .duration_since(std::time::UNIX_EPOCH)
        .unwrap()
        .as_secs();
    assert!(current_unix_timestamp() >= reading);
    assert!(current_unix_timestamp() < reading + 60);
    assert!(unix_timestamp().unwrap() >= reading);
    assert_eq!(reading_or_zero(None), 0);
    assert_eq!(reading_or_zero(Some(8)), 8);
    assert_eq!(reading_or_error(None), Err("system clock is before unix epoch".to_string()));
    assert_eq!(reading_or_error(Some(8)), Ok(8));
}

#[test]
fn orders_bytes_and_sorts() {
    for (a, b) in [("", ""), ("", "a"), ("a", "b"), ("ab", "a"), ("b", "ab")] {
        let expected = if a < b {
            Rank::Before
        } else if a == b {
            Rank::Same
        } else {
            Rank::After
        };
        assert_eq!(rank(a.as_bytes(), b.as_bytes()), expected);
        assert_eq!(same_bytes(a.as_bytes(), b.as_bytes()), a == b);
    }
    assert_eq!(stable_sort::<u64, Ascending>(vec![3, 1, 2, 1]), vec![1, 1, 2, 3]);
    let mut map: OrderedMap<Height, u8> = OrderedMap::new();
    assert_eq!(map.insert(Height(5), 1), None);
    assert_eq!(map.insert(Height(2), 2), None);
    assert_eq!(map.insert(Height(5), 3), Some(1));
    assert_eq!(map.key(0), Height(2));
    assert_eq!(map.get(&Height(5)), Some(&3));
    assert_eq!(map.find(&Height(4)), None);
    assert_eq!(map.remove(&Height(2)), Some(2));
    assert_eq!(map.len(), 1);
    assert!(!map.is_empty());
}

#[test]
fn blocks_are_shared_by_their_copies() {
    let block = Block::new(BlockData {
        height: Height(3),
        previous_hash: Digest([1; 64]),
        merkle_root: Digest([2; 64]),
        state_root: Digest([3; 64]),
        miner_address: paqus_node::types::Address([4; 20]),
        difficulty: 5,
        timestamp: 6,
        nonce: Nonce(7),
        hash: Digest([8; 64]),
        size: 9,
        genesis: false,
        coinbase: None,
        genesis_allocations: vec![],
        transactions: vec![],
    });
    let copy = block.clone();
    assert_eq!(copy, block);
    assert_eq!(copy.serialized_size(), 9);
    assert!(std::sync::Arc::ptr_eq(&copy.data, &block.data));
}

#[test]
fn describes_hashes_and_targets() {
    assert_eq!(format_hash(None), "none");
    assert_eq!(short_hash(None), "none");
    assert_eq!(format_hash(Some(Digest([0xcd; 64]))), "cd".repeat(64));
    let mut bytes = [0u8; 64];
    bytes[0] = 0x12;
    bytes[63] = 0x34;
    assert_eq!(short_hash(Some(Digest(bytes))), "12000000..00000034");
    assert_eq!(format_difficulty(&Ok(17)), "17");
    assert_eq!(format_difficulty(&Err("no".to_string())), "error:no");
    assert_eq!(pow_target_description(0), "disabled_for_test");
    assert_eq!(pow_target_description(16), "hash_prefix_zero_bytes>=2");
    for difficulty in [1_u32, 5, 13, 23] {
        let mask = 0xff_u8 << (8 - difficulty % 8);
        assert_eq!(
            pow_target_description(difficulty),
            format!(
                "hash_prefix_zero_bytes>={},next_byte_mask=0x{:02x},leading_zero_bits>={}",
                difficulty / 8,
                mask,
                difficulty
            )
        );
    }
}

#[test]
fn errors_have_words() {
    assert_eq!(
        StorageError::Database("MDB_NOTFOUND: No matching key/data pair found".to_string())
            .message(),
        "storage database error: MDB_NOTFOUND: No matching key/data pair found"
    );
    assert_eq!(
        StorageError::Serialization(SerializationError::Words("Invalid bool".to_string()))
            .message(),
        "storage serialization error: Invalid bool"
    );
    assert_eq!(
        StorageError::Serialization(SerializationError::Reason("short")).message(),
        "storage serialization error: short"
    );
    assert_eq!(StorageError::Integrity("gap").message(), "storage integrity error: gap");
    assert_eq!(
        StorageError::MissingStorageVersion.message(),
        "storage version is missing from existing database"
    );
    assert_eq!(
        StorageError::UnsupportedStorageVersion { expected: 1, found: 2 }.message(),
        "unsupported storage version: expected 1, found 2"
    );
    assert_eq!(
        NodeError::Storage(StorageError::Integrity("gap")).message(""),
        "storage error: storage integrity error: gap"
    );
    assert_eq!(
        NodeError::Mempool(MempoolError::FeeTooLow).message(""),
        "mempool error: transaction fee is too low"
    );
    assert_eq!(
        NodeError::Mempool(MempoolError::InvalidLedgerState(LedgerError::AccountNotFound))
            .message("account not found"),
        "mempool error: invalid ledger state: account not found"
    );
    for (error, expected) in [
        (MempoolError::DuplicateTransaction, "duplicate transaction"),
        (MempoolError::MempoolFull, "mempool is full"),
        (MempoolError::FeeTooLow, "transaction fee is too low"),
        (MempoolError::ReplacementFeeTooLow, "replacement fee is too low"),
        (
            MempoolError::InvalidTransaction(TransactionError::Expired),
            "invalid transaction: too old",
        ),
    ] {
        assert_eq!(error.message("too old"), expected);
    }
    assert_eq!(NodeError::MiningExhausted.message(""), "mining attempt budget was exhausted");
    assert_eq!(
        NodeError::MissingGenesisState.message(""),
        "node cannot reorg without a genesis state snapshot"
    );
    assert_eq!(
        NodeError::ReorgRequired.message(""),
        "fork choice selected a non-linear best tip"
    );
    assert_eq!(
        NetworkError::Node(NodeError::ReorgRequired).message(""),
        "network node handler error: fork choice selected a non-linear best tip"
    );
    assert_eq!(
        NetworkError::MessageTooLarge.message(""),
        "network message exceeds maximum size"
    );
    assert_eq!(
        NetworkError::Serialization("x").message(""),
        "network message serialization error: x"
    );
    assert_eq!(NetworkError::Io(IoErrorKind::TimedOut).message(""), "network io error: timed out");
    assert_eq!(
        RejectReason::ProtocolVersionMismatch.name(),
        format!("{:?}", RejectReason::ProtocolVersionMismatch)
    );
}

#[test]
fn writes_requests() {
    assert_eq!(
        get_request("127.0.0.1:6666", "/status"),
        "GET /status HTTP/1.1\r\nhost: 127.0.0.1:6666\r\nconnection: close\r\n\r\n"
    );
    assert_eq!(
        post_request("127.0.0.1:6666", "/tx", "{\u{e9}}"),
        "POST /tx HTTP/1.1\r\nhost: 127.0.0.1:6666\r\ncontent-type: application/json\r\ncontent-length: 4\r\nconnection: close\r\n\r\n{\u{e9}}"
    );
}

#[test]
fn tells_when_a_response_is_complete() {
    assert_eq!(response_body_complete(b""), Ok(false));
    assert_eq!(response_body_complete(b"HTTP/1.1 200 OK\r\ncontent-length: 2\r\n\r\n"), Ok(false));
    assert_eq!(response_body_complete(b"HTTP/1.1 200 OK\r\ncontent-length: 2\r\n\r\na"), Ok(false));
    assert_eq!(response_body_complete(b"HTTP/1.1 200 OK\r\nContent-Length:  2 \r\n\r\nab"), Ok(true));
    assert_eq!(response_body_complete(b"HTTP/1.1 200 OK\r\n\r\nab"), Ok(false));
    assert_eq!(
        response_body_complete(b"content-length: x\r\ncontent-length: 1\r\n\r\nab"),
        Ok(true)
    );
    let expected = std::str::from_utf8(&[b'a', 0xff]).unwrap_err().to_string();
    assert_eq!(
        response_body_complete(&[b'a', 0xff, 13, 10, 13, 10]),
        Err(format!("failed to decode rpc response headers: {expected}"))
    );
    assert_eq!(content_length("Content-LENGTH: 12"), Some(12));
    assert_eq!(content_length("content-length 12"), None);
    assert_eq!(content_length("content-type: 12"), None);
    assert_eq!(content_length("content-length: 99999999999999999999999"), None);
}

#[test]
fn takes_the_body_of_a_response() {
    assert_eq!(response_body(b"head\r\n\r\nbody\r\n\r\nmore".to_vec()), Ok("body\r\n\r\nmore".to_string()));
    assert_eq!(response_body(b"no mark".to_vec()), Ok("no mark".to_string()));
    let expected = String::from_utf8(vec![0xc3]).unwrap_err().to_string();
    assert_eq!(
        response_body(vec![0xc3]),
        Err(format!("failed to decode rpc response: {expected}"))
    );
}

#[test]
fn reads_a_response_step_by_step() {
    let mut reader = ResponseReader::new();
    assert_eq!(
        reader.step(ReadEvent::Received(b"HTTP/1.1 200 OK\r\ncontent-length: 4\r\n".to_vec())),
        Ok(None)
    );
    assert_eq!(reader.step(ReadEvent::Received(b"\r\nbo".to_vec())), Ok(None));
    assert_eq!(
        reader.step(ReadEvent::Received(b"dy".to_vec())),
        Ok(Some("body".to_string()))
    );

    let mut reader = ResponseReader::new();
    assert_eq!(reader.step(ReadEvent::Received(b"head\r\n\r\npart".to_vec())), Ok(None));
    assert_eq!(reader.step(ReadEvent::Closed), Ok(Some("part".to_string())));

    let mut reader = ResponseReader::new();
    assert_eq!(
        reader.step(ReadEvent::TimedOut),
        Err("failed to read rpc response: timed out waiting for node response".to_string())
    );
    assert_eq!(
        reader.step(ReadEvent::Failed("reset".to_string())),
        Err("failed to read rpc response: reset".to_string())
    );
}

#[test]
fn reads_the_lines_of_a_peers_file() {
    let listed = peer_lines("# first\n1.2.3.4:5 # home\n\n  [::1]:6\t\r\nx");
    let listed: Vec<(usize, String)> =
        listed.into_iter().map(|line| (line.number, line.text)).collect();
    assert_eq!(
        listed,
        vec![
            (2, "1.2.3.4:5".to_string()),
            (4, "[::1]:6".to_string()),
            (5, "x".to_string())
        ]
    );
    assert_eq!(
        invalid_peer_line("peers.txt", 5, "invalid socket address syntax"),
        "invalid peer in peers.txt line 5: invalid socket address syntax"
    );
}

#[test]
fn a_file_of_nodes_is_read_up_to_the_first_that_is_none() {
    let addr =
        |last: u8| SocketAddress { v6: false, octets: [last; 16], port: 5, flow: 0, scope: 0 };
    let line = |number: usize, socket: Result<SocketAddress, &str>| ParsedLine {
        number,
        socket: socket.map_err(str::to_string),
    };
    let name = |text: &str, socket: Result<SocketAddress, &str>| AddressText {
        text: text.to_string(),
        socket: socket.map_err(str::to_string),
    };
    let lines = vec![line(2, Ok(addr(1))), line(4, Ok(addr(2)))];
    let broken = vec![line(1, Ok(addr(1))), line(3, Err("no port")), line(5, Err("no host"))];

    assert_eq!(known_peers("p", None, &vec![]), Ok(vec![]));
    assert_eq!(known_peers("p", None, &lines), Ok(vec![addr(1), addr(2)]));
    assert_eq!(
        known_peers("p", None, &broken),
        Err("invalid peer in p line 3: no port".to_string())
    );
    let listed = vec![name("a", Ok(addr(7)))];
    assert_eq!(known_peers("p", Some(listed), &broken), Ok(vec![addr(7)]));
    let listed = vec![name("a", Ok(addr(7))), name("b", Err("no port")), name("c", Err("x"))];
    assert_eq!(
        known_peers("p", Some(listed), &lines),
        Err("invalid peer `b` in p: no port".to_string())
    );
}

#[test]
fn the_explorer_shows_the_transactions_of_an_answer() {
    assert_eq!(
        explorer_listing("{\"address\":\"00\",\"transactions\":[{\"nonce\":1}, 2]}"),
        Ok("[\n  {\n    \"nonce\": 1\n  },\n  2\n]".to_string())
    );
    assert_eq!(explorer_listing("{\"transactions\":null}"), Ok("null".to_string()));
    assert_eq!(explorer_listing("{\"transactions\":[]}"), Ok("[]".to_string()));
    assert_eq!(explorer_listing("{\"address\":\"00\"}"), Ok("[]".to_string()));
    assert_eq!(explorer_listing("[1]"), Ok("[]".to_string()));
    let refused = serde_json::from_str::<serde_json::Value>("not json").unwrap_err();
    assert_eq!(
        explorer_listing("not json"),
        Err(format!("failed to parse explorer response: {refused}"))
    );
    assert_eq!(listing_of(Ok(None)), Ok("[]".to_string()));
    assert_eq!(listing_of(Ok(Some(Ok("x".to_string())))), Ok("x".to_string()));
    assert_eq!(
        listing_of(Ok(Some(Err("no room".to_string())))),
        Err("failed to render transactions: no room".to_string())
    );
    assert_eq!(
        listing_of(Err("no text".to_string())),
        Err("failed to parse explorer response: no text".to_string())
    );
}
