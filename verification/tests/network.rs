use paqus_node::handler::{
    block_reply, handle_message, handled, handshake_reply, inbound_block_log,
    inbound_transaction_log, is_peer_stream_closed, local_version, peers_reply, read_failure,
    stream_step, tip_reply, Reply, StreamStep,
};
use paqus_node::ledger::Ledger;
use paqus_node::mempool::MempoolError;
use paqus_node::message::{
    IoErrorKind, NetworkEnvelope, NetworkError, NetworkMessage, PeerInfo, RejectReason, TipInfo,
    VersionInfo,
};
use paqus_node::node::{Node, NodeError};
use paqus_node::ordered_map::OrderedMap;
use paqus_node::params::{ChainParams, BASE_FEE, MAX_NETWORK_MESSAGE_SIZE};
use paqus_node::storage::Storage;
use paqus_node::transport::{read_message, write_message, ByteStream, Peer, WireMessage};
use paqus_node::types::{
    Account, Address, Amount, Block, BlockData, Digest, Height, Nonce, SignedTransaction,
    Transaction,
};
use std::sync::Arc;

fn params() -> ChainParams {
    ChainParams {
        protocol_version: 1,
        network_magic: [1, 2, 3, 4],
        block_time: 60,
        difficulty_start: 1,
        difficulty_adjustment_interval: 10,
        confirmation_depth: 1,
        max_block_txs: 100,
        secret_key_size: 32,
    }
}

fn address(byte: u8) -> Address {
    Address([byte; 20])
}

fn block() -> Block {
    Block::new(BlockData {
        height: Height(0),
        previous_hash: Digest([0; 64]),
        merkle_root: Digest([0; 64]),
        state_root: Digest([0; 64]),
        miner_address: address(9),
        difficulty: 1,
        timestamp: 1_700_000_000,
        nonce: Nonce(0),
        hash: Digest([0xab; 64]),
        size: 500,
        genesis: true,
        coinbase: None,
        genesis_allocations: vec![],
        transactions: vec![],
    })
}

fn test_node_with_genesis() -> Node {
    let mut ledger = Ledger::new(Digest([0; 64]));
    let block = block();
    ledger.blocks.insert(block.height(), block.clone());
    Node::new(ledger, Storage::temporary().unwrap(), Some(block.hash()), 0, params())
}

fn signed_transaction_to(to: Address, amount: u32, nonce: u64) -> SignedTransaction {
    SignedTransaction {
        transaction: Transaction {
            from: address(1),
            to,
            amount: Amount(amount),
            fee: Amount(BASE_FEE),
            nonce: Nonce(nonce),
            timestamp: paqus_node::clock::current_unix_timestamp(),
        },
        hash: Digest([0x5c; 64]),
        size: 7_300,
        signed: Ok(()),
    }
}

#[test]
fn roundtrips_ping_message() {
    let envelope = NetworkMessage::Ping { nonce: 7 }.to_envelope(&params());
    let bytes = envelope.to_bytes().unwrap();

    assert_eq!(NetworkEnvelope::from_bytes(&bytes, &params()).unwrap(), envelope);
}

#[test]
fn roundtrips_tip_and_block_messages() {
    let block = block();
    let tip =
        NetworkMessage::Tip(TipInfo { height: block.height(), hash: block.hash() }).to_envelope(&params());
    let block_message = NetworkMessage::Block(vec![3, 1, 4, 1, 5]).to_envelope(&params());

    assert_eq!(NetworkEnvelope::from_bytes(&tip.to_bytes().unwrap(), &params()).unwrap(), tip);
    assert_eq!(
        NetworkEnvelope::from_bytes(&block_message.to_bytes().unwrap(), &params()).unwrap(),
        block_message
    );
}

#[test]
fn roundtrips_peer_list() {
    let envelope =
        NetworkMessage::Peers(vec![PeerInfo { address: "127.0.0.1:5555".to_string() }])
            .to_envelope(&params());

    assert_eq!(
        NetworkEnvelope::from_bytes(&envelope.to_bytes().unwrap(), &params()).unwrap(),
        envelope
    );
}

#[test]
fn roundtrips_version_handshake_messages() {
    let version = VersionInfo::local(
        &params(),
        Some(TipInfo { height: Height(7), hash: Digest([7; 64]) }),
    );
    let messages = [
        NetworkMessage::Version(version.clone()),
        NetworkMessage::VerAck(version),
        NetworkMessage::Reject {
            reason: RejectReason::ProtocolVersionMismatch,
            message: "bad version".to_string(),
        },
    ];

    for message in messages {
        let envelope = message.to_envelope(&params());
        assert_eq!(
            NetworkEnvelope::from_bytes(&envelope.to_bytes().unwrap(), &params()).unwrap(),
            envelope
        );
    }
}

#[test]
fn rejects_oversized_message_bytes() {
    let bytes = vec![0_u8; MAX_NETWORK_MESSAGE_SIZE + 1];

    assert!(matches!(
        NetworkEnvelope::from_bytes(&bytes, &params()),
        Err(NetworkError::MessageTooLarge)
    ));
}

#[test]
fn rejects_wrong_network_magic() {
    let mut envelope = NetworkMessage::GetTip.to_envelope(&params());
    envelope.magic = [0, 0, 0, 0];
    let bytes = envelope.to_bytes().unwrap();

    assert!(matches!(
        NetworkEnvelope::from_bytes(&bytes, &params()),
        Err(NetworkError::Serialization(_))
    ));
}

#[test]
fn writes_and_reads_framed_message() {
    let envelope = NetworkMessage::Ping { nonce: 42 }.to_envelope(&params());
    let mut bytes = ByteStream::new(Vec::new());

    write_message(&mut bytes, &envelope).unwrap();

    let mut cursor = ByteStream::new(bytes.bytes);
    assert_eq!(read_message(&mut cursor, &params()).unwrap(), envelope);
}

#[test]
fn rejects_oversized_framed_message_length() {
    let mut bytes = Vec::new();
    bytes.extend_from_slice(&((MAX_NETWORK_MESSAGE_SIZE as u32) + 1).to_be_bytes());

    let mut cursor = ByteStream::new(bytes);

    assert!(matches!(
        read_message(&mut cursor, &params()),
        Err(NetworkError::MessageTooLarge)
    ));
}

#[test]
fn rejects_partial_framed_message() {
    let envelope = NetworkMessage::Pong { nonce: 7 }.to_envelope(&params());
    let mut bytes = ByteStream::new(Vec::new());
    write_message(&mut bytes, &envelope).unwrap();
    bytes.bytes.pop();

    let mut cursor = ByteStream::new(bytes.bytes);

    assert!(matches!(
        read_message(&mut cursor, &params()),
        Err(NetworkError::Serialization(_))
    ));
}

#[test]
fn handler_responds_to_ping_and_tip_requests() {
    let node = test_node_with_genesis();

    assert_eq!(
        handle_message(&node, NetworkMessage::Ping { nonce: 7 }),
        Reply::Message(NetworkMessage::Pong { nonce: 7 })
    );

    assert_eq!(
        handle_message(&node, NetworkMessage::GetTip),
        Reply::Message(NetworkMessage::Tip(TipInfo {
            height: Height(0),
            hash: node.tip_hash().unwrap()
        }))
    );
}

#[test]
fn handler_accepts_compatible_version_and_rejects_incompatible_version() {
    let node = test_node_with_genesis();
    let compatible = VersionInfo::local(&params(), None);

    assert!(matches!(
        handle_message(&node, NetworkMessage::Version(compatible)),
        Reply::Message(NetworkMessage::VerAck(_))
    ));

    let mut incompatible = VersionInfo::local(&params(), None);
    incompatible.protocol_version = incompatible.protocol_version.saturating_add(1);

    assert_eq!(
        handle_message(&node, NetworkMessage::Version(incompatible)),
        Reply::Message(NetworkMessage::Reject {
            reason: RejectReason::ProtocolVersionMismatch,
            message: "incompatible peer version".to_string()
        })
    );
}

#[test]
fn handler_returns_blocks_by_height_and_hash() {
    let node = test_node_with_genesis();
    let block = node.ledger.blocks.get(&Height(0)).unwrap().clone();

    assert_eq!(
        handle_message(&node, NetworkMessage::GetBlockByHeight { height: Height(0) }),
        Reply::SendBlock(block.clone())
    );
    assert_eq!(
        handle_message(&node, NetworkMessage::GetBlockByHash { hash: block.hash() }),
        Reply::SendBlock(block)
    );
    assert_eq!(
        handle_message(&node, NetworkMessage::GetBlockByHeight { height: Height(1) }),
        Reply::Nothing
    );
}

#[test]
fn handler_submits_transaction_to_node_mempool() {
    let transaction = signed_transaction_to(address(2), 10, 0);
    let hash = transaction.hash();
    let sender = transaction.transaction.from;
    let mut accounts: OrderedMap<Address, Account> = OrderedMap::new();
    accounts.insert(sender, Account::new(sender, Amount(25)));
    accounts.insert(address(2), Account::new(address(2), Amount(0)));
    let ledger = Ledger {
        accounts: Arc::new(accounts),
        blocks: OrderedMap::new(),
        state_root: Digest([0; 64]),
    };
    let mut node = Node::new(ledger, Storage::temporary().unwrap(), None, 0, params());

    assert_eq!(
        handle_message(&node, NetworkMessage::Transaction(vec![1, 2, 3])),
        Reply::SubmitTransaction(vec![1, 2, 3])
    );
    let outcome = node.submit_transaction(transaction);
    assert_eq!(handled(outcome), Ok(()));
    assert!(node.mempool.contains(&hash));

    let again = node.submit_transaction(transaction);
    assert_eq!(
        handled(again),
        Err(NetworkError::Node(NodeError::Mempool(MempoolError::ReplacementFeeTooLow)))
    );
}

#[test]
fn handler_hands_blocks_on_and_ignores_answers() {
    let node = test_node_with_genesis();

    assert_eq!(
        handle_message(&node, NetworkMessage::Block(vec![9])),
        Reply::ApplyBlock(vec![9])
    );
    assert_eq!(handle_message(&node, NetworkMessage::Pong { nonce: 1 }), Reply::Nothing);
    assert_eq!(
        handle_message(&node, NetworkMessage::VerAck(local_version(&node))),
        Reply::Nothing
    );
    assert_eq!(
        handle_message(&node, NetworkMessage::GetPeers),
        Reply::Message(NetworkMessage::Peers(vec![]))
    );
}

#[test]
fn peer_sends_and_receives_messages() {
    let stream = ByteStream::default();
    let info = PeerInfo { address: "127.0.0.1:5555".to_string() };
    let mut peer = Peer::new(stream, info.clone());

    assert_eq!(peer.info(), &info);

    peer.send(NetworkMessage::Ping { nonce: 99 }, &params()).unwrap();
    peer.stream_mut().rewind();

    assert_eq!(
        peer.recv(&params()).unwrap(),
        NetworkMessage::Ping { nonce: 99 }.to_envelope(&params())
    );
    let envelope = NetworkMessage::GetTip.to_envelope(&params());
    peer.send_envelope(&envelope).unwrap();
    assert_eq!(peer.recv(&params()).unwrap(), envelope);
    assert!(peer.recv(&params()).is_err());
    assert!(peer.into_inner().bytes.len() > 8);
}

#[test]
fn wire_messages_are_decoded_as_they_were_encoded() {
    let message = NetworkMessage::Reject {
        reason: RejectReason::ProtocolVersionMismatch,
        message: "no\u{e9}".to_string(),
    };
    let wire = WireMessage::encode(&message, &params()).unwrap();
    assert_eq!(wire.decode(&params()), Ok(message));

    let broken = WireMessage { bytes: vec![1, 2, 3, 4, 77] };
    assert_eq!(
        broken.decode(&params()),
        Err("failed to decode network envelope: network message serialization error: bytes are not a message".to_string())
    );
    let large = WireMessage { bytes: vec![0; MAX_NETWORK_MESSAGE_SIZE + 1] };
    assert_eq!(
        large.decode(&params()),
        Err("failed to decode network envelope: network message exceeds maximum size".to_string())
    );
}

#[test]
fn messages_have_their_bytes() {
    let envelope = NetworkMessage::Ping { nonce: 0x0102_0304_0506_0708 }.to_envelope(&params());
    let bytes = envelope.to_bytes().unwrap();
    assert_eq!(bytes[..4], [1, 2, 3, 4]);
    assert_eq!(bytes[5..], [8, 7, 6, 5, 4, 3, 2, 1]);
    let borsh_bytes = borsh::to_vec(&(envelope.magic, bytes[4], 0x0102_0304_0506_0708_u64)).unwrap();
    assert_eq!(bytes, borsh_bytes);

    let peers = NetworkMessage::Peers(vec![PeerInfo { address: "ab".to_string() }])
        .to_envelope(&params())
        .to_bytes()
        .unwrap();
    let expected =
        borsh::to_vec(&([1u8, 2, 3, 4], peers[4], vec!["ab".to_string()])).unwrap();
    assert_eq!(peers, expected);
}

#[test]
fn a_closed_stream_is_no_invalid_message() {
    for kind in [
        IoErrorKind::UnexpectedEof,
        IoErrorKind::WouldBlock,
        IoErrorKind::TimedOut,
        IoErrorKind::ConnectionReset,
        IoErrorKind::BrokenPipe,
    ] {
        assert!(is_peer_stream_closed(&NetworkError::Io(kind)));
        assert_eq!(read_failure("1.2.3.4:5", &NetworkError::Io(kind)), None);
    }
    assert!(!is_peer_stream_closed(&NetworkError::Io(IoErrorKind::Other)));
    assert_eq!(
        read_failure("1.2.3.4:5", &NetworkError::MessageTooLarge),
        Some("peer 1.2.3.4:5 sent invalid message: network message exceeds maximum size".to_string())
    );
}

#[test]
fn peer_lists_are_shared_and_taken() {
    assert_eq!(stream_step(NetworkMessage::GetPeers), StreamStep::SharePeers);
    let infos = vec![PeerInfo { address: "1.2.3.4:5".to_string() }];
    assert_eq!(stream_step(NetworkMessage::Peers(infos.clone())), StreamStep::TakePeers(infos));
    assert_eq!(
        stream_step(NetworkMessage::GetTip),
        StreamStep::Handle(NetworkMessage::GetTip)
    );
}

#[test]
fn answers_of_other_nodes_are_checked() {
    let good = VersionInfo::local(&params(), None);
    let bad = VersionInfo { protocol_version: 2, tip: None };
    assert_eq!(handshake_reply(NetworkMessage::VerAck(good), &params()), Ok(()));
    assert_eq!(
        handshake_reply(NetworkMessage::VerAck(bad), &params()),
        Err("peer returned incompatible version: ProtocolVersionMismatch".to_string())
    );
    assert_eq!(
        handshake_reply(
            NetworkMessage::Reject {
                reason: RejectReason::ProtocolVersionMismatch,
                message: "old".to_string()
            },
            &params()
        ),
        Err("peer rejected handshake: ProtocolVersionMismatch: old".to_string())
    );
    assert_eq!(
        handshake_reply(NetworkMessage::GetTip, &params()),
        Err("peer returned unexpected handshake response".to_string())
    );
    assert_eq!(
        tip_reply(&NetworkMessage::Tip(TipInfo { height: Height(5), hash: Digest([1; 64]) })),
        Ok(Height(5))
    );
    assert_eq!(
        tip_reply(&NetworkMessage::GetTip),
        Err("peer returned unexpected tip response".to_string())
    );
    assert_eq!(
        peers_reply(NetworkMessage::GetTip),
        Err("peer returned unexpected peers response".to_string())
    );
    assert_eq!(peers_reply(NetworkMessage::Peers(vec![])), Ok(vec![]));
    assert_eq!(block_reply(NetworkMessage::Block(vec![4]), Height(3)), Ok(vec![4]));
    assert_eq!(
        block_reply(NetworkMessage::GetTip, Height(31)),
        Err("peer did not return block at height 31".to_string())
    );
}

#[test]
fn arrivals_are_told_in_words() {
    assert_eq!(
        inbound_block_log(&block(), "1.2.3.4:5"),
        "received block height 0 from 1.2.3.4:5 |hash::abababab..abababab|txs::0|"
    );
    assert_eq!(
        inbound_transaction_log(&signed_transaction_to(address(2), 10, 3), "1.2.3.4:5"),
        "received tx:: |from::1.2.3.4:5|hash::5c5c5c5c..5c5c5c5c|amount::10|fee::2|nonce::3|"
    );
}

#[test]
fn messages_are_read_in_the_order_in_which_they_were_written() {
    let first = NetworkMessage::Ping { nonce: 7 }.to_envelope(&params());
    let second = NetworkMessage::GetTip.to_envelope(&params());
    let mut stream = ByteStream::default();
    write_message(&mut stream, &first).unwrap();
    write_message(&mut stream, &second).unwrap();
    stream.write_all(&[9, 9]);

    assert_eq!(read_message(&mut stream, &params()).unwrap(), first);
    assert_eq!(read_message(&mut stream, &params()).unwrap(), second);
    assert_eq!(stream.read_exact(2), Some(vec![9, 9]));
    assert_eq!(stream.read_exact(1), None);
}
