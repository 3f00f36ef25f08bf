//! The messages that nodes exchange, and their bytes.
//!
//! A message is laid out as borsh lays out an enum: the number of its variant,
//! then its fields, integers with the least significant byte first, texts and
//! lists behind their lengths. Blocks and transactions travel in the encoding of
//! the chain, which is not looked into here.

use crate::node::NodeError;
use crate::params::{ChainParams, MAX_NETWORK_MESSAGE_SIZE};
use crate::text;
use crate::types::{self, BlockHash, BlockHeight, Digest, Height};
use vstd::bytes;
use vstd::prelude::*;
use vstd::utf8;

verus! {

/// What went wrong on a connection.
#[derive(Clone, Copy, Debug, PartialEq, Eq, Structural)]
pub enum IoErrorKind {
    UnexpectedEof,
    WouldBlock,
    TimedOut,
    ConnectionReset,
    BrokenPipe,
    Other,
}

/// Why a message cannot be sent, read or handled.
#[derive(Debug, PartialEq, Eq)]
pub enum NetworkError {
    MessageTooLarge,
    Node(NodeError),
    Serialization(&'static str),
    Io(IoErrorKind),
}

/// The tip of a node.
#[derive(Clone, Copy, Debug, PartialEq, Eq)]
pub struct TipInfo {
    pub height: BlockHeight,
    pub hash: BlockHash,
}

/// What a node says of itself: the version of its protocol, and its tip.
#[derive(Clone, Copy, Debug, PartialEq, Eq)]
pub struct VersionInfo {
    pub protocol_version: u8,
    pub tip: Option<TipInfo>,
}

/// Why a node turns another away.
#[derive(Clone, Copy, Debug, PartialEq, Eq, Structural)]
pub enum RejectReason {
    ProtocolVersionMismatch,
}

impl VersionInfo {
    /// What this node says of itself.
    pub fn local(params: &ChainParams, tip: Option<TipInfo>) -> (r: Self)
        ensures
            r.protocol_version == params.protocol_version,
            r.tip == tip,
    {
        VersionInfo { protocol_version: params.protocol_version, tip }
    }

    /// Whether a node that says this can be spoken with.
    pub fn validate_compatibility(&self, params: &ChainParams) -> (r: Result<(), RejectReason>)
        ensures
            r == if self.protocol_version == params.protocol_version {
                Ok::<(), RejectReason>(())
            } else {
                Err(RejectReason::ProtocolVersionMismatch)
            },
    {
        if self.protocol_version == params.protocol_version {
            Ok(())
        } else {
            Err(RejectReason::ProtocolVersionMismatch)
        }
    }
}

/// Where a node can be reached.
#[derive(Clone, Debug, PartialEq, Eq)]
pub struct PeerInfo {
    pub address: String,
}

/// A message.
#[derive(Clone, Debug, PartialEq, Eq)]
pub enum NetworkMessage {
    Version(VersionInfo),
    VerAck(VersionInfo),
    Reject { reason: RejectReason, message: String },
    Ping { nonce: u64 },
    Pong { nonce: u64 },
    GetTip,
    Tip(TipInfo),
    GetBlockByHeight { height: BlockHeight },
    GetBlockByHash { hash: BlockHash },
    Block(Vec<u8>),
    Transaction(Vec<u8>),
    GetPeers,
    Peers(Vec<PeerInfo>),
}

/// A message with the mark of its network.
#[derive(Clone, Debug, PartialEq, Eq)]
pub struct NetworkEnvelope {
    pub magic: [u8; 4],
    pub message: NetworkMessage,
}

/// What a message says.
pub enum Said {
    Version(VersionInfo),
    VerAck(VersionInfo),
    Reject(RejectReason, Seq<char>),
    Ping(u64),
    Pong(u64),
    GetTip,
    Tip(TipInfo),
    GetBlockByHeight(Height),
    GetBlockByHash(Digest),
    Block(Seq<u8>),
    Transaction(Seq<u8>),
    GetPeers,
    Peers(Seq<Seq<char>>),
}

/// The addresses of some nodes.
pub open spec fn addresses(peers: Seq<PeerInfo>) -> Seq<Seq<char>> {
    Seq::new(peers.len(), |i: int| peers[i].address@)
}

impl View for NetworkMessage {
    type V = Said;

    open spec fn view(&self) -> Said {
        match *self {
            NetworkMessage::Version(version) => Said::Version(version),
            NetworkMessage::VerAck(version) => Said::VerAck(version),
            NetworkMessage::Reject { reason, message } => Said::Reject(reason, message@),
            NetworkMessage::Ping { nonce } => Said::Ping(nonce),
            NetworkMessage::Pong { nonce } => Said::Pong(nonce),
            NetworkMessage::GetTip => Said::GetTip,
            NetworkMessage::Tip(tip) => Said::Tip(tip),
            NetworkMessage::GetBlockByHeight { height } => Said::GetBlockByHeight(height),
            NetworkMessage::GetBlockByHash { hash } => Said::GetBlockByHash(hash),
            NetworkMessage::Block(block) => Said::Block(block@),
            NetworkMessage::Transaction(transaction) => Said::Transaction(transaction@),
            NetworkMessage::GetPeers => Said::GetPeers,
            NetworkMessage::Peers(peers) => Said::Peers(addresses(peers@)),
        }
    }
}

/// A text behind its length.
pub open spec fn text_bytes(s: Seq<char>) -> Seq<u8> {
    bytes::spec_u32_to_le_bytes(utf8::encode_utf8(s).len() as u32) + utf8::encode_utf8(s)
}

/// Texts, one after the other.
pub open spec fn texts_bytes(texts: Seq<Seq<char>>) -> Seq<u8>
    decreases texts.len(),
{
    if texts.len() == 0 {
        Seq::empty()
    } else {
        texts_bytes(texts.drop_last()) + text_bytes(texts.last())
    }
}

/// A tip: its height and its hash.
pub open spec fn tip_bytes(tip: TipInfo) -> Seq<u8> {
    bytes::spec_u64_to_le_bytes(tip.height.0) + tip.hash.0@
}

/// A version: its number, and its tip behind a mark that says whether there is
/// one.
pub open spec fn version_bytes(version: VersionInfo) -> Seq<u8> {
    match version.tip {
        None => seq![version.protocol_version, 0u8],
        Some(tip) => seq![version.protocol_version, 1u8] + tip_bytes(tip),
    }
}

/// The bytes of a message.
pub open spec fn message_bytes(said: Said) -> Seq<u8> {
    match said {
        Said::Version(version) => seq![0u8] + version_bytes(version),
        Said::VerAck(version) => seq![1u8] + version_bytes(version),
        Said::Reject(reason, message) => seq![2u8, 0u8] + text_bytes(message),
        Said::Ping(nonce) => seq![3u8] + bytes::spec_u64_to_le_bytes(nonce),
        Said::Pong(nonce) => seq![4u8] + bytes::spec_u64_to_le_bytes(nonce),
        Said::GetTip => seq![5u8],
        Said::Tip(tip) => seq![6u8] + tip_bytes(tip),
        Said::GetBlockByHeight(height) => seq![7u8] + bytes::spec_u64_to_le_bytes(height.0),
        Said::GetBlockByHash(hash) => seq![8u8] + hash.0@,
        Said::Block(block) => seq![9u8] + block,
        Said::Transaction(transaction) => seq![10u8] + transaction,
        Said::GetPeers => seq![11u8],
        Said::Peers(peers) => seq![12u8] + bytes::spec_u32_to_le_bytes(peers.len() as u32)
            + texts_bytes(peers),
    }
}

/// The length of a text can be written down.
pub open spec fn text_fits(s: Seq<char>) -> bool {
    utf8::encode_utf8(s).len() <= u32::MAX
}

/// The lengths in a message can be written down.
pub open spec fn lengths_fit(said: Said) -> bool {
    match said {
        Said::Reject(_, message) => text_fits(message),
        Said::Peers(peers) => peers.len() <= u32::MAX && forall|i: int|
            0 <= i < peers.len() ==> text_fits(#[trigger] peers[i]),
        _ => true,
    }
}

/// The number in the first four bytes, and the rest.
pub open spec fn take_u32(s: Seq<u8>) -> Option<(u32, Seq<u8>)> {
    if s.len() < 4 {
        None
    } else {
        Some((bytes::spec_u32_from_le_bytes(s.take(4)), s.skip(4)))
    }
}

/// The number in the first eight bytes, and the rest.
pub open spec fn take_u64(s: Seq<u8>) -> Option<(u64, Seq<u8>)> {
    if s.len() < 8 {
        None
    } else {
        Some((bytes::spec_u64_from_le_bytes(s.take(8)), s.skip(8)))
    }
}

/// The hash with the given bytes.
pub open spec fn digest_of(s: Seq<u8>) -> Digest {
    choose|d: Digest| d.0@ == s
}

/// The hash in the first bytes, and the rest.
pub open spec fn take_hash(s: Seq<u8>) -> Option<(Digest, Seq<u8>)> {
    if s.len() < 64 {
        None
    } else {
        Some((digest_of(s.take(64)), s.skip(64)))
    }
}

/// The text at the start, and the rest.
pub open spec fn take_text(s: Seq<u8>) -> Option<(Seq<char>, Seq<u8>)> {
    match take_u32(s) {
        None => None,
        Some((length, rest)) => if rest.len() < length || !utf8::valid_utf8(
            rest.take(length as int),
        ) {
            None
        } else {
            Some((utf8::decode_utf8(rest.take(length as int)), rest.skip(length as int)))
        },
    }
}

/// The first `n` texts, and the rest.
pub open spec fn take_texts(s: Seq<u8>, n: nat) -> Option<(Seq<Seq<char>>, Seq<u8>)>
    decreases n,
{
    if n == 0 {
        Some((Seq::empty(), s))
    } else {
        match take_texts(s, (n - 1) as nat) {
            None => None,
            Some((earlier, rest)) => match take_text(rest) {
                None => None,
                Some((text, rest)) => Some((earlier.push(text), rest)),
            },
        }
    }
}

/// The tip at the start, and the rest.
pub open spec fn take_tip(s: Seq<u8>) -> Option<(TipInfo, Seq<u8>)> {
    match take_u64(s) {
        None => None,
        Some((height, rest)) => match take_hash(rest) {
            None => None,
            Some((hash, rest)) => Some((TipInfo { height: Height(height), hash }, rest)),
        },
    }
}

/// The version at the start, and the rest.
pub open spec fn take_version(s: Seq<u8>) -> Option<(VersionInfo, Seq<u8>)> {
    if s.len() < 2 {
        None
    } else if s[1] == 0 {
        Some((VersionInfo { protocol_version: s[0], tip: None }, s.skip(2)))
    } else if s[1] == 1 {
        match take_tip(s.skip(2)) {
            None => None,
            Some((tip, rest)) => Some(
                (VersionInfo { protocol_version: s[0], tip: Some(tip) }, rest),
            ),
        }
    } else {
        None
    }
}

/// A value that takes up all bytes.
pub open spec fn whole<T>(taken: Option<(T, Seq<u8>)>) -> Option<T> {
    match taken {
        Some((value, rest)) => if rest.len() == 0 {
            Some(value)
        } else {
            None
        },
        None => None,
    }
}

/// What bytes say, if they are the bytes of a message.
pub open spec fn message_of(s: Seq<u8>) -> Option<Said> {
    if s.len() == 0 {
        None
    } else {
        let rest = s.skip(1);
        if s[0] == 0 {
            match whole(take_version(rest)) {
                Some(version) => Some(Said::Version(version)),
                None => None,
            }
        } else if s[0] == 1 {
            match whole(take_version(rest)) {
                Some(version) => Some(Said::VerAck(version)),
                None => None,
            }
        } else if s[0] == 2 {
            if rest.len() == 0 || rest[0] != 0 {
                None
            } else {
                match whole(take_text(rest.skip(1))) {
                    Some(message) => Some(
                        Said::Reject(RejectReason::ProtocolVersionMismatch, message),
                    ),
                    None => None,
                }
            }
        } else if s[0] == 3 {
            match whole(take_u64(rest)) {
                Some(nonce) => Some(Said::Ping(nonce)),
                None => None,
            }
        } else if s[0] == 4 {
            match whole(take_u64(rest)) {
                Some(nonce) => Some(Said::Pong(nonce)),
                None => None,
            }
        } else if s[0] == 5 {
            if rest.len() == 0 {
                Some(Said::GetTip)
            } else {
                None
            }
        } else if s[0] == 6 {
            match whole(take_tip(rest)) {
                Some(tip) => Some(Said::Tip(tip)),
                None => None,
            }
        } else if s[0] == 7 {
            match whole(take_u64(rest)) {
                Some(height) => Some(Said::GetBlockByHeight(Height(height))),
                None => None,
            }
        } else if s[0] == 8 {
            match whole(take_hash(rest)) {
                Some(hash) => Some(Said::GetBlockByHash(hash)),
                None => None,
            }
        } else if s[0] == 9 {
            Some(Said::Block(rest))
        } else if s[0] == 10 {
            Some(Said::Transaction(rest))
        } else if s[0] == 11 {
            if rest.len() == 0 {
                Some(Said::GetPeers)
            } else {
                None
            }
        } else if s[0] == 12 {
            match take_u32(rest) {
                None => None,
                Some((count, rest)) => match whole(take_texts(rest, count as nat)) {
                    Some(peers) => Some(Said::Peers(peers)),
                    None => None,
                },
            }
        } else {
            None
        }
    }
}

proof fn u32_is_taken(x: u32, rest: Seq<u8>)
    ensures
        take_u32(bytes::spec_u32_to_le_bytes(x) + rest) == Some((x, rest)),
        bytes::spec_u32_to_le_bytes(x).len() == 4,
{
    bytes::lemma_auto_spec_u32_to_from_le_bytes();
    let s = bytes::spec_u32_to_le_bytes(x) + rest;
    assert(s.take(4) =~= bytes::spec_u32_to_le_bytes(x));
    assert(s.skip(4) =~= rest);
}

proof fn u64_is_taken(x: u64, rest: Seq<u8>)
    ensures
        take_u64(bytes::spec_u64_to_le_bytes(x) + rest) == Some((x, rest)),
        bytes::spec_u64_to_le_bytes(x).len() == 8,
{
    bytes::lemma_auto_spec_u64_to_from_le_bytes();
    let s = bytes::spec_u64_to_le_bytes(x) + rest;
    assert(s.take(8) =~= bytes::spec_u64_to_le_bytes(x));
    assert(s.skip(8) =~= rest);
}

proof fn digest_is_its_bytes(d: Digest)
    ensures
        digest_of(d.0@) == d,
{
    let picked = digest_of(d.0@);
    assert(picked.0@ == d.0@);
    types::hash_is_its_bytes(picked, d);
}

proof fn hash_is_taken(d: Digest, rest: Seq<u8>)
    ensures
        take_hash(d.0@ + rest) == Some((d, rest)),
{
    let s = d.0@ + rest;
    assert(s.take(64) =~= d.0@);
    assert(s.skip(64) =~= rest);
    digest_is_its_bytes(d);
}

proof fn text_is_taken(text: Seq<char>, rest: Seq<u8>)
    requires
        text_fits(text),
    ensures
        take_text(text_bytes(text) + rest) == Some((text, rest)),
{
    let encoded = utf8::encode_utf8(text);
    let n = encoded.len() as u32;
    let s = text_bytes(text) + rest;
    assert(s =~= bytes::spec_u32_to_le_bytes(n) + (encoded + rest));
    u32_is_taken(n, encoded + rest);
    assert((encoded + rest).take(n as int) =~= encoded);
    assert((encoded + rest).skip(n as int) =~= rest);
    utf8::encode_utf8_valid_utf8(text);
    utf8::encode_utf8_decode_utf8(text);
}

proof fn texts_are_taken(texts: Seq<Seq<char>>, rest: Seq<u8>)
    requires
        forall|i: int| 0 <= i < texts.len() ==> text_fits(#[trigger] texts[i]),
    ensures
        take_texts(texts_bytes(texts) + rest, texts.len()) == Some((texts, rest)),
    decreases texts.len(),
{
    if texts.len() == 0 {
        assert(texts_bytes(texts) + rest =~= rest);
        assert(texts =~= Seq::<Seq<char>>::empty());
    } else {
        let short = texts.drop_last();
        let last = texts.last();
        assert(texts_bytes(texts) + rest =~= texts_bytes(short) + (text_bytes(last) + rest));
        assert forall|i: int| 0 <= i < short.len() implies text_fits(#[trigger] short[i]) by {
            assert(short[i] == texts[i]);
        }
        texts_are_taken(short, text_bytes(last) + rest);
        assert(text_fits(texts[texts.len() - 1]));
        text_is_taken(last, rest);
        assert(short.push(last) =~= texts);
    }
}

proof fn tip_is_taken(tip: TipInfo, rest: Seq<u8>)
    ensures
        take_tip(tip_bytes(tip) + rest) == Some((tip, rest)),
{
    assert(tip_bytes(tip) + rest =~= bytes::spec_u64_to_le_bytes(tip.height.0) + (tip.hash.0@
        + rest));
    u64_is_taken(tip.height.0, tip.hash.0@ + rest);
    hash_is_taken(tip.hash, rest);
}

proof fn version_is_taken(version: VersionInfo, rest: Seq<u8>)
    ensures
        take_version(version_bytes(version) + rest) == Some((version, rest)),
{
    let s = version_bytes(version) + rest;
    match version.tip {
        None => {
            assert(s.skip(2) =~= rest);
        },
        Some(tip) => {
            assert(s.skip(2) =~= tip_bytes(tip) + rest);
            tip_is_taken(tip, rest);
        },
    }
}

/// What is written is read: the bytes of a message say what it says.
pub proof fn written_message_is_read(said: Said)
    requires
        lengths_fit(said),
    ensures
        message_of(message_bytes(said)) == Some(said),
{
    let s = message_bytes(said);
    let rest = s.skip(1);
    let empty = Seq::<u8>::empty();
    match said {
        Said::Version(version) => {
            assert(rest =~= version_bytes(version) + empty);
            version_is_taken(version, empty);
        },
        Said::VerAck(version) => {
            assert(rest =~= version_bytes(version) + empty);
            version_is_taken(version, empty);
        },
        Said::Reject(reason, message) => {
            assert(reason == RejectReason::ProtocolVersionMismatch);
            assert(rest.skip(1) =~= text_bytes(message) + empty);
            text_is_taken(message, empty);
        },
        Said::Ping(nonce) => {
            assert(rest =~= bytes::spec_u64_to_le_bytes(nonce) + empty);
            u64_is_taken(nonce, empty);
        },
        Said::Pong(nonce) => {
            assert(rest =~= bytes::spec_u64_to_le_bytes(nonce) + empty);
            u64_is_taken(nonce, empty);
        },
        Said::Tip(tip) => {
            assert(rest =~= tip_bytes(tip) + empty);
            tip_is_taken(tip, empty);
        },
        Said::GetBlockByHeight(height) => {
            assert(rest =~= bytes::spec_u64_to_le_bytes(height.0) + empty);
            u64_is_taken(height.0, empty);
        },
        Said::GetBlockByHash(hash) => {
            assert(rest =~= hash.0@ + empty);
            hash_is_taken(hash, empty);
        },
        Said::Block(block) => {
            assert(rest =~= block);
        },
        Said::Transaction(transaction) => {
            assert(rest =~= transaction);
        },
        Said::Peers(peers) => {
            let n = peers.len() as u32;
            assert(rest =~= bytes::spec_u32_to_le_bytes(n) + (texts_bytes(peers) + empty));
            u32_is_taken(n, texts_bytes(peers) + empty);
            texts_are_taken(peers, empty);
        },
        _ => {},
    }
}

/// Two messages with the same bytes say the same.
pub proof fn messages_differ_in_bytes(a: Said, b: Said)
    requires
        lengths_fit(a),
        lengths_fit(b),
        message_bytes(a) == message_bytes(b),
    ensures
        a == b,
{
    written_message_is_read(a);
    written_message_is_read(b);
}

/// Writes a text behind its length.
fn put_text(out: &mut Vec<u8>, text: &str) -> (r: bool)
    ensures
        r == text_fits(text@),
        r ==> final(out)@ == old(out)@ + text_bytes(text@),
{
    let encoded = text.as_bytes();
    if encoded.len() as u64 > u32::MAX as u64 {
        return false;
    }
    let ghost before = out@;
    out.extend_from_slice(bytes::u32_to_le_bytes(encoded.len() as u32).as_slice());
    out.extend_from_slice(encoded);
    proof {
        assert(out@ =~= before + text_bytes(text@));
    }
    true
}

fn put_tip(out: &mut Vec<u8>, tip: &TipInfo)
    ensures
        final(out)@ == old(out)@ + tip_bytes(*tip),
{
    let ghost before = out@;
    out.extend_from_slice(bytes::u64_to_le_bytes(tip.height.0).as_slice());
    out.extend_from_slice(tip.hash.0.as_slice());
    proof {
        assert(out@ =~= before + tip_bytes(*tip));
    }
}

fn put_version(out: &mut Vec<u8>, version: &VersionInfo)
    ensures
        final(out)@ == old(out)@ + version_bytes(*version),
{
    let ghost before = out@;
    out.push(version.protocol_version);
    match &version.tip {
        None => {
            out.push(0);
        },
        Some(tip) => {
            out.push(1);
            put_tip(out, tip);
        },
    }
    proof {
        assert(out@ =~= before + version_bytes(*version));
    }
}

impl NetworkMessage {
    /// The message with the mark of its network.
    pub fn to_envelope(self, params: &ChainParams) -> (r: NetworkEnvelope)
        ensures
            r.magic == params.network_magic,
            r.message == self,
    {
        NetworkEnvelope { magic: params.network_magic, message: self }
    }

    /// Writes the message.
    fn put(&self, out: &mut Vec<u8>) -> (r: bool)
        ensures
            r == lengths_fit(self@),
            r ==> final(out)@ == old(out)@ + message_bytes(self@),
    {
        let ghost before = out@;
        match self {
            NetworkMessage::Version(version) => {
                out.push(0);
                put_version(out, version);
            },
            NetworkMessage::VerAck(version) => {
                out.push(1);
                put_version(out, version);
            },
            NetworkMessage::Reject { reason, message } => {
                out.push(2);
                out.push(0);
                if !put_text(out, message.as_str()) {
                    return false;
                }
            },
            NetworkMessage::Ping { nonce } => {
                out.push(3);
                out.extend_from_slice(bytes::u64_to_le_bytes(*nonce).as_slice());
            },
            NetworkMessage::Pong { nonce } => {
                out.push(4);
                out.extend_from_slice(bytes::u64_to_le_bytes(*nonce).as_slice());
            },
            NetworkMessage::GetTip => {
                out.push(5);
            },
            NetworkMessage::Tip(tip) => {
                out.push(6);
                put_tip(out, tip);
            },
            NetworkMessage::GetBlockByHeight { height } => {
                out.push(7);
                out.extend_from_slice(bytes::u64_to_le_bytes(height.0).as_slice());
            },
            NetworkMessage::GetBlockByHash { hash } => {
                out.push(8);
                out.extend_from_slice(hash.0.as_slice());
            },
            NetworkMessage::Block(block) => {
                out.push(9);
                out.extend_from_slice(block.as_slice());
            },
            NetworkMessage::Transaction(transaction) => {
                out.push(10);
                out.extend_from_slice(transaction.as_slice());
            },
            NetworkMessage::GetPeers => {
                out.push(11);
            },
            NetworkMessage::Peers(peers) => {
                if peers.len() as u64 > u32::MAX as u64 {
                    return false;
                }
                out.push(12);
                out.extend_from_slice(bytes::u32_to_le_bytes(peers.len() as u32).as_slice());
                let ghost head = out@;
                let ghost texts = addresses(peers@);
                let mut i: usize = 0;
                proof {
                    assert(out@ =~= head + texts_bytes(texts.take(0)));
                }
                while i < peers.len()
                    invariant
                        i <= peers@.len(),
                        texts == addresses(peers@),
                        self@ == Said::Peers(texts),
                        out@ == head + texts_bytes(texts.take(i as int)),
                        forall|j: int| 0 <= j < i ==> text_fits(#[trigger] texts[j]),
                    decreases peers@.len() - i,
                {
                    proof {
                        assert(texts.take(i + 1).drop_last() =~= texts.take(i as int));
                        assert(texts.take(i + 1).last() == texts[i as int]);
                    }
                    if !put_text(out, peers[i].address.as_str()) {
                        proof {
                            assert(!text_fits(texts[i as int]));
                        }
                        return false;
                    }
                    i = i + 1;
                    proof {
                        assert(out@ =~= head + texts_bytes(texts.take(i as int)));
                    }
                }
                proof {
                    assert(texts.take(i as int) =~= texts);
                    assert(head =~= before + (seq![12u8] + bytes::spec_u32_to_le_bytes(
                        texts.len() as u32,
                    )));
                }
            },
        }
        proof {
            assert(out@ =~= before + message_bytes(self@));
        }
        true
    }
}

/// What reading at a position leads to, against what it should.
spec fn reads<T>(
    s: Seq<u8>,
    r: Option<(T, usize)>,
    taken: Option<(T, Seq<u8>)>,
) -> bool {
    match r {
        Some((value, next)) => next <= s.len() && taken == Some((value, s.skip(next as int))),
        None => taken is None,
    }
}

fn read_u32(s: &[u8], at: usize) -> (r: Option<(u32, usize)>)
    requires
        at <= s@.len(),
    ensures
        reads(s@, r, take_u32(s@.skip(at as int))),
{
    if s.len() - at < 4 {
        return None;
    }
    let part = vstd::slice::slice_subrange(s, at, at + 4);
    proof {
        assert(s@.skip(at as int).take(4) =~= part@);
        assert(s@.skip(at as int).skip(4) =~= s@.skip(at + 4));
    }
    Some((bytes::u32_from_le_bytes(part), at + 4))
}

fn read_u64(s: &[u8], at: usize) -> (r: Option<(u64, usize)>)
    requires
        at <= s@.len(),
    ensures
        reads(s@, r, take_u64(s@.skip(at as int))),
{
    if s.len() - at < 8 {
        return None;
    }
    let part = vstd::slice::slice_subrange(s, at, at + 8);
    proof {
        assert(s@.skip(at as int).take(8) =~= part@);
        assert(s@.skip(at as int).skip(8) =~= s@.skip(at + 8));
    }
    Some((bytes::u64_from_le_bytes(part), at + 8))
}

fn read_hash(s: &[u8], at: usize) -> (r: Option<(Digest, usize)>)
    requires
        at <= s@.len(),
    ensures
        reads(s@, r, take_hash(s@.skip(at as int))),
{
    if s.len() - at < 64 {
        return None;
    }
    let part = vstd::slice::slice_subrange(s, at, at + 64);
    proof {
        assert(s@.skip(at as int).take(64) =~= part@);
        assert(s@.skip(at as int).skip(64) =~= s@.skip(at + 64));
    }
    match types::hash_from_slice(part) {
        Some(hash) => {
            proof {
                digest_is_its_bytes(hash);
            }
            Some((hash, at + 64))
        },
        None => None,
    }
}

fn read_tip(s: &[u8], at: usize) -> (r: Option<(TipInfo, usize)>)
    requires
        at <= s@.len(),
    ensures
        reads(s@, r, take_tip(s@.skip(at as int))),
{
    match read_u64(s, at) {
        None => None,
        Some((height, next)) => match read_hash(s, next) {
            None => None,
            Some((hash, end)) => Some((TipInfo { height: Height(height), hash }, end)),
        },
    }
}

fn read_version(s: &[u8], at: usize) -> (r: Option<(VersionInfo, usize)>)
    requires
        at <= s@.len(),
    ensures
        reads(s@, r, take_version(s@.skip(at as int))),
{
    if s.len() - at < 2 {
        return None;
    }
    proof {
        assert(s@.skip(at as int).skip(2) =~= s@.skip(at + 2));
    }
    let protocol_version: u8 = s[at];
    if s[at + 1] == 0 {
        Some((VersionInfo { protocol_version, tip: None }, at + 2))
    } else if s[at + 1] == 1 {
        match read_tip(s, at + 2) {
            None => None,
            Some((tip, next)) => Some((VersionInfo { protocol_version, tip: Some(tip) }, next)),
        }
    } else {
        None
    }
}

fn read_text(s: &[u8], at: usize) -> (r: Option<(String, usize)>)
    requires
        at <= s@.len(),
    ensures
        match r {
            Some((text, next)) => next <= s@.len() && take_text(s@.skip(at as int)) == Some(
                (text@, s@.skip(next as int)),
            ),
            None => take_text(s@.skip(at as int)) is None,
        },
{
    let (length, from) = match read_u32(s, at) {
        None => {
            return None;
        },
        Some(found) => found,
    };
    if (s.len() - from) as u64 > u32::MAX as u64 || length as usize <= s.len() - from {
        let length: usize = length as usize;
        let part = vstd::slice::slice_subrange(s, from, from + length);
        let mut encoded: Vec<u8> = Vec::new();
        encoded.extend_from_slice(part);
        proof {
            assert(encoded@ =~= s@.skip(from as int).take(length as int));
            assert(s@.skip(from as int).skip(length as int) =~= s@.skip(from + length));
        }
        match text::text_from_utf8(encoded) {
            Ok(text) => Some((text, from + length)),
            Err(_) => None,
        }
    } else {
        None
    }
}

fn read_peers(s: &[u8], at: usize, count: u32) -> (r: Option<(Vec<PeerInfo>, usize)>)
    requires
        at <= s@.len(),
    ensures
        match r {
            Some((peers, next)) => next <= s@.len() && take_texts(
                s@.skip(at as int),
                count as nat,
            ) == Some((addresses(peers@), s@.skip(next as int))),
            None => take_texts(s@.skip(at as int), count as nat) is None,
        },
{
    let mut peers: Vec<PeerInfo> = Vec::new();
    let mut next: usize = at;
    let mut i: u32 = 0;
    proof {
        assert(addresses(peers@) =~= Seq::<Seq<char>>::empty());
    }
    while i < count
        invariant
            at <= s@.len(),
            next <= s@.len(),
            i <= count,
            take_texts(s@.skip(at as int), i as nat) == Some(
                (addresses(peers@), s@.skip(next as int)),
            ),
        decreases count - i,
    {
        match read_text(s, next) {
            None => {
                proof {
                    texts_stop(s@.skip(at as int), i as nat + 1, count as nat);
                }
                return None;
            },
            Some((address, end)) => {
                let ghost earlier = addresses(peers@);
                let ghost said = address@;
                peers.push(PeerInfo { address });
                proof {
                    assert(addresses(peers@) =~= earlier.push(said));
                }
                next = end;
            },
        }
        i = i + 1;
    }
    Some((peers, next))
}

proof fn texts_stop(s: Seq<u8>, k: nat, n: nat)
    requires
        k <= n,
        take_texts(s, k) is None,
    ensures
        take_texts(s, n) is None,
    decreases n,
{
    if k < n {
        texts_stop(s, k, (n - 1) as nat);
    }
}

/// Reads the message that starts at a position and takes up the rest.
fn read_message_at(s: &[u8], at: usize) -> (r: Option<NetworkMessage>)
    requires
        at <= s@.len(),
    ensures
        match r {
            Some(message) => message_of(s@.skip(at as int)) == Some(message@),
            None => message_of(s@.skip(at as int)) is None,
        },
{
    if at == s.len() {
        return None;
    }
    let tag: u8 = s[at];
    let from: usize = at + 1;
    let ghost rest = s@.skip(at as int).skip(1);
    proof {
        assert(rest =~= s@.skip(from as int));
    }
    if tag == 0 || tag == 1 {
        match read_version(s, from) {
            Some((version, end)) => {
                if end != s.len() {
                    None
                } else if tag == 0 {
                    Some(NetworkMessage::Version(version))
                } else {
                    Some(NetworkMessage::VerAck(version))
                }
            },
            None => None,
        }
    } else if tag == 2 {
        if from == s.len() || s[from] != 0 {
            return None;
        }
        proof {
            assert(rest.skip(1) =~= s@.skip(from + 1));
        }
        match read_text(s, from + 1) {
            Some((message, end)) => {
                if end != s.len() {
                    None
                } else {
                    Some(
                        NetworkMessage::Reject {
                            reason: RejectReason::ProtocolVersionMismatch,
                            message,
                        },
                    )
                }
            },
            None => None,
        }
    } else if tag == 3 || tag == 4 || tag == 7 {
        match read_u64(s, from) {
            Some((number, end)) => {
                if end != s.len() {
                    None
                } else if tag == 3 {
                    Some(NetworkMessage::Ping { nonce: number })
                } else if tag == 4 {
                    Some(NetworkMessage::Pong { nonce: number })
                } else {
                    Some(NetworkMessage::GetBlockByHeight { height: Height(number) })
                }
            },
            None => None,
        }
    } else if tag == 5 || tag == 11 {
        if from != s.len() {
            None
        } else if tag == 5 {
            Some(NetworkMessage::GetTip)
        } else {
            Some(NetworkMessage::GetPeers)
        }
    } else if tag == 6 {
        match read_tip(s, from) {
            Some((tip, end)) => {
                if end != s.len() {
                    None
                } else {
                    Some(NetworkMessage::Tip(tip))
                }
            },
            None => None,
        }
    } else if tag == 8 {
        match read_hash(s, from) {
            Some((hash, end)) => {
                if end != s.len() {
                    None
                } else {
                    Some(NetworkMessage::GetBlockByHash { hash })
                }
            },
            None => None,
        }
    } else if tag == 9 || tag == 10 {
        let mut payload: Vec<u8> = Vec::new();
        payload.extend_from_slice(vstd::slice::slice_subrange(s, from, s.len()));
        proof {
            assert(payload@ =~= rest);
        }
        if tag == 9 {
            Some(NetworkMessage::Block(payload))
        } else {
            Some(NetworkMessage::Transaction(payload))
        }
    } else if tag == 12 {
        match read_u32(s, from) {
            None => None,
            Some((count, next)) => match read_peers(s, next, count) {
                Some((peers, end)) => {
                    if end != s.len() {
                        None
                    } else {
                        Some(NetworkMessage::Peers(peers))
                    }
                },
                None => None,
            },
        }
    } else {
        None
    }
}

/// The bytes of an envelope.
pub open spec fn envelope_bytes(magic: Seq<u8>, said: Said) -> Seq<u8> {
    magic + message_bytes(said)
}

/// The bytes of a message with the mark of its network.
fn seal(magic: &[u8; 4], message: &NetworkMessage) -> (r: Result<Vec<u8>, NetworkError>)
    ensures
        match r {
            Ok(written) => lengths_fit(message@) && written@ == envelope_bytes(magic@, message@)
                && written@.len() <= MAX_NETWORK_MESSAGE_SIZE,
            Err(error) => if !lengths_fit(message@) {
                error == NetworkError::Serialization("length does not fit")
            } else {
                error == NetworkError::MessageTooLarge && envelope_bytes(magic@, message@).len()
                    > MAX_NETWORK_MESSAGE_SIZE
            },
        },
{
    let mut out: Vec<u8> = Vec::new();
    out.extend_from_slice(magic.as_slice());
    if !message.put(&mut out) {
        return Err(NetworkError::Serialization("length does not fit"));
    }
    proof {
        assert(out@ =~= envelope_bytes(magic@, message@));
    }
    if out.len() > MAX_NETWORK_MESSAGE_SIZE {
        return Err(NetworkError::MessageTooLarge);
    }
    Ok(out)
}

impl NetworkMessage {
    /// The bytes of the message with the mark of the network.
    pub fn to_envelope_bytes(&self, params: &ChainParams) -> (r: Result<Vec<u8>, NetworkError>)
        ensures
            match r {
                Ok(written) => lengths_fit(self@) && written@ == envelope_bytes(
                    params.network_magic@,
                    self@,
                ) && written@.len() <= MAX_NETWORK_MESSAGE_SIZE,
                Err(error) => if !lengths_fit(self@) {
                    error == NetworkError::Serialization("length does not fit")
                } else {
                    error == NetworkError::MessageTooLarge && envelope_bytes(
                        params.network_magic@,
                        self@,
                    ).len() > MAX_NETWORK_MESSAGE_SIZE
                },
            },
    {
        seal(&params.network_magic, self)
    }
}

impl NetworkEnvelope {
    /// The bytes of the envelope.
    pub fn to_bytes(&self) -> (r: Result<Vec<u8>, NetworkError>)
        ensures
            match r {
                Ok(written) => lengths_fit(self.message@) && written@ == envelope_bytes(
                    self.magic@,
                    self.message@,
                ) && written@.len() <= MAX_NETWORK_MESSAGE_SIZE,
                Err(error) => if !lengths_fit(self.message@) {
                    error == NetworkError::Serialization("length does not fit")
                } else {
                    error == NetworkError::MessageTooLarge && envelope_bytes(
                        self.magic@,
                        self.message@,
                    ).len() > MAX_NETWORK_MESSAGE_SIZE
                },
            },
    {
        seal(&self.magic, &self.message)
    }

    /// The envelope with the given bytes, if it is one of this network.
    pub fn from_bytes(encoded: &[u8], params: &ChainParams) -> (r: Result<Self, NetworkError>)
        ensures
            match r {
                Ok(envelope) => encoded@.len() <= MAX_NETWORK_MESSAGE_SIZE && encoded@.len() >= 4
                    && encoded@.take(4) == params.network_magic@ && envelope.magic
                    == params.network_magic && message_of(encoded@.skip(4)) == Some(
                    envelope.message@,
                ),
                Err(error) => if encoded@.len() > MAX_NETWORK_MESSAGE_SIZE {
                    error == NetworkError::MessageTooLarge
                } else if encoded@.len() < 4 || message_of(encoded@.skip(4)) is None {
                    error == NetworkError::Serialization("bytes are not a message")
                } else {
                    error == NetworkError::Serialization("message is of another network")
                        && encoded@.take(4) != params.network_magic@
                },
            },
    {
        if encoded.len() > MAX_NETWORK_MESSAGE_SIZE {
            return Err(NetworkError::MessageTooLarge);
        }
        if encoded.len() < 4 {
            return Err(NetworkError::Serialization("bytes are not a message"));
        }
        let message = match read_message_at(encoded, 4) {
            None => {
                return Err(NetworkError::Serialization("bytes are not a message"));
            },
            Some(message) => message,
        };
        let magic = vstd::slice::slice_subrange(encoded, 0, 4);
        proof {
            assert(magic@ =~= encoded@.take(4));
        }
        if !crate::order::same_bytes(magic, params.network_magic.as_slice()) {
            return Err(NetworkError::Serialization("message is of another network"));
        }
        Ok(NetworkEnvelope { magic: params.network_magic, message })
    }
}

/// What is written is read: an envelope of this network whose bytes are not too
/// many is read back as it was.
pub proof fn written_envelope_is_read(magic: Seq<u8>, said: Said)
    requires
        magic.len() == 4,
        lengths_fit(said),
    ensures
        envelope_bytes(magic, said).take(4) == magic,
        message_of(envelope_bytes(magic, said).skip(4)) == Some(said),
{
    let s = envelope_bytes(magic, said);
    assert(s.take(4) =~= magic);
    assert(s.skip(4) =~= message_bytes(said));
    written_message_is_read(said);
}

} // verus!
