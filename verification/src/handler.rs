//! What a node answers to other nodes, and how it takes their answers.

use crate::display;
use crate::errors;
use crate::message::{
    self, IoErrorKind, NetworkError, NetworkMessage, PeerInfo, RejectReason, Said, TipInfo,
    VersionInfo,
};
use crate::node::{Node, NodeError};
use crate::params::ChainParams;
use crate::text;
use crate::types::{Block, Height, SignedTransaction};
use vstd::prelude::*;
use vstd::string::*;

verus! {

/// What a message calls for: nothing, a message, a block to be sent, or the
/// bytes of a block or of a transaction to be taken.
#[derive(Debug, PartialEq, Eq)]
pub enum Reply {
    Nothing,
    Message(NetworkMessage),
    SendBlock(Block),
    ApplyBlock(Vec<u8>),
    SubmitTransaction(Vec<u8>),
}

/// The same, as it is spoken of.
#[verifier::ext_equal]
pub enum Answer {
    Nothing,
    Message(Said),
    SendBlock(Block),
    ApplyBlock(Seq<u8>),
    SubmitTransaction(Seq<u8>),
}

impl View for Reply {
    type V = Answer;

    open spec fn view(&self) -> Answer {
        match self {
            Reply::Nothing => Answer::Nothing,
            Reply::Message(message) => Answer::Message(message@),
            Reply::SendBlock(block) => Answer::SendBlock(*block),
            Reply::ApplyBlock(bytes) => Answer::ApplyBlock(bytes@),
            Reply::SubmitTransaction(bytes) => Answer::SubmitTransaction(bytes@),
        }
    }
}

/// The tip of a node, if it has one.
pub open spec fn tip_info(node: Node) -> Option<TipInfo> {
    match (node.ledger.tip_height_spec(), node.ledger.tip_hash_spec()) {
        (Some(height), Some(hash)) => Some(TipInfo { height, hash }),
        _ => None,
    }
}

/// The tip of a node, if it has one.
pub fn tip_of(node: &Node) -> (r: Option<TipInfo>)
    ensures
        r == tip_info(*node),
{
    match (node.tip_height(), node.tip_hash()) {
        (Some(height), Some(hash)) => Some(TipInfo { height, hash }),
        _ => None,
    }
}

/// What a node says of itself.
pub fn local_version(node: &Node) -> (r: VersionInfo)
    ensures
        r == (VersionInfo {
            protocol_version: node.params.protocol_version,
            tip: tip_info(*node),
        }),
{
    VersionInfo::local(&node.params, tip_of(node))
}

/// What a node answers to a message.
pub open spec fn answer(node: Node, said: Said) -> Answer {
    match said {
        Said::Version(version) => if version.protocol_version == node.params.protocol_version {
            Answer::Message(
                Said::VerAck(
                    VersionInfo {
                        protocol_version: node.params.protocol_version,
                        tip: tip_info(node),
                    },
                ),
            )
        } else {
            Answer::Message(
                Said::Reject(
                    RejectReason::ProtocolVersionMismatch,
                    "incompatible peer version"@,
                ),
            )
        },
        Said::Ping(nonce) => Answer::Message(Said::Pong(nonce)),
        Said::GetTip => match tip_info(node) {
            Some(tip) => Answer::Message(Said::Tip(tip)),
            None => Answer::Nothing,
        },
        Said::GetBlockByHeight(height) => if node.ledger.blocks@.contains_key(height) {
            Answer::SendBlock(node.ledger.blocks@[height])
        } else {
            Answer::Nothing
        },
        Said::GetBlockByHash(hash) => if node.cache@.blocks_by_hash.contains_key(hash) {
            Answer::SendBlock(node.cache@.blocks_by_hash[hash])
        } else {
            Answer::Nothing
        },
        Said::Block(bytes) => Answer::ApplyBlock(bytes),
        Said::Transaction(bytes) => Answer::SubmitTransaction(bytes),
        Said::GetPeers => Answer::Message(Said::Peers(Seq::empty())),
        _ => Answer::Nothing,
    }
}

/// What a node answers to a message.
pub fn handle_message(node: &Node, message: NetworkMessage) -> (r: Reply)
    requires
        node.wf(),
    ensures
        r@ == answer(*node, message@),
{
    match message {
        NetworkMessage::Version(version) => match version.validate_compatibility(&node.params) {
            Ok(()) => Reply::Message(NetworkMessage::VerAck(local_version(node))),
            Err(reason) => Reply::Message(
                NetworkMessage::Reject {
                    reason,
                    message: text::owned("incompatible peer version"),
                },
            ),
        },
        NetworkMessage::Ping { nonce } => Reply::Message(NetworkMessage::Pong { nonce }),
        NetworkMessage::GetTip => match tip_of(node) {
            Some(tip) => Reply::Message(NetworkMessage::Tip(tip)),
            None => Reply::Nothing,
        },
        NetworkMessage::GetBlockByHeight { height } => match node.ledger.blocks.get(&height) {
            Some(block) => Reply::SendBlock(block.clone()),
            None => Reply::Nothing,
        },
        NetworkMessage::GetBlockByHash { hash } => match node.cache.block_by_hash(&hash) {
            Some(block) => Reply::SendBlock(block),
            None => Reply::Nothing,
        },
        NetworkMessage::Block(bytes) => Reply::ApplyBlock(bytes),
        NetworkMessage::Transaction(bytes) => Reply::SubmitTransaction(bytes),
        NetworkMessage::GetPeers => {
            let peers: Vec<PeerInfo> = Vec::new();
            proof {
                assert(message::addresses(peers@) =~= Seq::empty());
            }
            Reply::Message(NetworkMessage::Peers(peers))
        },
        NetworkMessage::VerAck(_) => Reply::Nothing,
        NetworkMessage::Reject { reason: _, message: _ } => Reply::Nothing,
        NetworkMessage::Pong { nonce: _ } => Reply::Nothing,
        NetworkMessage::Tip(_) => Reply::Nothing,
        NetworkMessage::Peers(_) => Reply::Nothing,
    }
}

/// What came of a block or a transaction that another node sent.
pub fn handled<T>(outcome: Result<T, NodeError>) -> (r: Result<(), NetworkError>)
    ensures
        r == (match outcome {
            Ok(_) => Ok::<(), NetworkError>(()),
            Err(error) => Err(NetworkError::Node(error)),
        }),
{
    match outcome {
        Ok(_) => Ok(()),
        Err(error) => Err(NetworkError::Node(error)),
    }
}

/// What the message of a connected node calls for: the known nodes to be shared,
/// nodes to be taken in, or an answer.
#[derive(Debug, PartialEq, Eq)]
pub enum StreamStep {
    SharePeers,
    TakePeers(Vec<PeerInfo>),
    Handle(NetworkMessage),
}

/// What the message of a connected node calls for.
pub fn stream_step(message: NetworkMessage) -> (r: StreamStep)
    ensures
        match message {
            NetworkMessage::GetPeers => r == StreamStep::SharePeers,
            NetworkMessage::Peers(peers) => r == StreamStep::TakePeers(peers),
            _ => r == StreamStep::Handle(message),
        },
{
    match message {
        NetworkMessage::GetPeers => StreamStep::SharePeers,
        NetworkMessage::Peers(peers) => StreamStep::TakePeers(peers),
        other => StreamStep::Handle(other),
    }
}

/// The error means no more than that the stream has ended.
pub open spec fn stream_closed(error: NetworkError) -> bool {
    error matches NetworkError::Io(kind) && kind != IoErrorKind::Other
}

/// Whether an error means no more than that the stream has ended.
pub fn is_peer_stream_closed(error: &NetworkError) -> (r: bool)
    ensures
        r == stream_closed(*error),
{
    match error {
        NetworkError::Io(kind) => match kind {
            IoErrorKind::UnexpectedEof => true,
            IoErrorKind::WouldBlock => true,
            IoErrorKind::TimedOut => true,
            IoErrorKind::ConnectionReset => true,
            IoErrorKind::BrokenPipe => true,
            IoErrorKind::Other => false,
        },
        _ => false,
    }
}

/// The words to report when reading from a node fails, unless the stream has
/// just ended. Reading stops either way.
pub fn read_failure(peer: &str, error: &NetworkError) -> (r: Option<String>)
    ensures
        match r {
            Some(words) => !stream_closed(*error) && words@ == "peer "@ + peer@
                + " sent invalid message: "@ + errors::network_words(*error, Seq::empty()),
            None => stream_closed(*error),
        },
{
    if is_peer_stream_closed(error) {
        None
    } else {
        proof {
            reveal_strlit("");
            assert(""@ =~= Seq::empty());
        }
        Some(text::join4("peer ", peer, " sent invalid message: ", error.message("").as_str()))
    }
}

/// The words for a block that came from a node.
pub open spec fn block_log(block: Block, peer: Seq<char>) -> Seq<char> {
    "received block height "@ + text::decimal(block.data.height.0 as nat) + " from "@ + peer
        + " |hash::"@ + display::short(Some(block.data.hash)) + "|txs::"@ + text::decimal(
        block.data.transactions@.len(),
    ) + "|"@
}

/// The words for a block that came from a node.
pub fn inbound_block_log(block: &Block, peer: &str) -> (r: String)
    ensures
        r@ == block_log(*block, peer@),
{
    let mut out = text::join4(
        "received block height ",
        text::decimal_text(block.height().0).as_str(),
        " from ",
        peer,
    );
    out.append(" |hash::");
    out.append(display::short_hash(Some(block.hash())).as_str());
    out.append("|txs::");
    out.append(text::decimal_text(block.data.transactions.len() as u64).as_str());
    out.append("|");
    out
}

/// The words for a transaction that came from a node.
pub open spec fn transaction_log(t: SignedTransaction, peer: Seq<char>) -> Seq<char> {
    "received tx:: |from::"@ + peer + "|hash::"@ + display::short(Some(t.hash)) + "|amount::"@
        + text::decimal(t.transaction.amount.0 as nat) + "|fee::"@ + text::decimal(
        t.transaction.fee.0 as nat,
    ) + "|nonce::"@ + text::decimal(t.transaction.nonce.0 as nat) + "|"@
}

/// The words for a transaction that came from a node.
pub fn inbound_transaction_log(t: &SignedTransaction, peer: &str) -> (r: String)
    ensures
        r@ == transaction_log(*t, peer@),
{
    let mut out = text::join3("received tx:: |from::", peer, "|hash::");
    out.append(display::short_hash(Some(t.hash())).as_str());
    out.append("|amount::");
    out.append(text::decimal_text(t.transaction.amount.0 as u64).as_str());
    out.append("|fee::");
    out.append(text::decimal_text(t.transaction.fee.0 as u64).as_str());
    out.append("|nonce::");
    out.append(text::decimal_text(t.transaction.nonce.0).as_str());
    out.append("|");
    out
}

/// Takes the answer to this node's version: the other has to be of the same
/// protocol.
pub fn handshake_reply(message: NetworkMessage, params: &ChainParams) -> (r: Result<(), String>)
    ensures
        match message@ {
            Said::VerAck(remote) => if remote.protocol_version == params.protocol_version {
                r == Ok::<(), String>(())
            } else {
                r matches Err(words) && words@ == "peer returned incompatible version: "@
                    + "ProtocolVersionMismatch"@
            },
            Said::Reject(_, said) => r matches Err(words) && words@ == "peer rejected handshake: "@
                + "ProtocolVersionMismatch"@ + ": "@ + said,
            _ => r matches Err(words) && words@ == "peer returned unexpected handshake response"@,
        },
{
    match message {
        NetworkMessage::VerAck(remote) => match remote.validate_compatibility(params) {
            Ok(()) => Ok(()),
            Err(reason) => Err(text::join2("peer returned incompatible version: ", reason.name())),
        },
        NetworkMessage::Reject { reason, message } => Err(
            text::join4("peer rejected handshake: ", reason.name(), ": ", message.as_str()),
        ),
        _ => Err(text::owned("peer returned unexpected handshake response")),
    }
}

/// Takes the answer to the question for a node's tip.
pub fn tip_reply(message: &NetworkMessage) -> (r: Result<Height, String>)
    ensures
        match message@ {
            Said::Tip(tip) => r == Ok::<Height, String>(tip.height),
            _ => r matches Err(words) && words@ == "peer returned unexpected tip response"@,
        },
{
    match message {
        NetworkMessage::Tip(tip) => Ok(tip.height),
        _ => Err(text::owned("peer returned unexpected tip response")),
    }
}

/// Takes the answer to the question for the nodes that a node knows.
pub fn peers_reply(message: NetworkMessage) -> (r: Result<Vec<PeerInfo>, String>)
    ensures
        match message {
            NetworkMessage::Peers(peers) => r == Ok::<Vec<PeerInfo>, String>(peers),
            _ => r matches Err(words) && words@ == "peer returned unexpected peers response"@,
        },
{
    match message {
        NetworkMessage::Peers(peers) => Ok(peers),
        _ => Err(text::owned("peer returned unexpected peers response")),
    }
}

/// Takes the answer to the question for the block at a height.
pub fn block_reply(message: NetworkMessage, height: Height) -> (r: Result<Vec<u8>, String>)
    ensures
        match message {
            NetworkMessage::Block(bytes) => r == Ok::<Vec<u8>, String>(bytes),
            _ => r matches Err(words) && words@ == "peer did not return block at height "@
                + text::decimal(height.0 as nat),
        },
{
    match message {
        NetworkMessage::Block(bytes) => Ok(bytes),
        _ => Err(
            text::join2(
                "peer did not return block at height ",
                text::decimal_text(height.0).as_str(),
            ),
        ),
    }
}

} // verus!
