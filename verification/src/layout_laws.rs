//! Where each part stands in the bytes that are sent and stored.

use crate::chain_storage::{self, TxLocation};
use crate::codec;
use crate::message::{self, NetworkEnvelope, NetworkError, RejectReason, Said, TipInfo, VersionInfo};
use crate::tables::{self, AddressTransactionLocation, AddressTxKey, TransactionLocation};
use crate::params::{ChainParams, MAX_NETWORK_MESSAGE_SIZE};
use crate::transport;
use crate::types::{Digest, Height};
use vstd::bytes;
use vstd::prelude::*;
use vstd::utf8;

verus! {

/// Keys hold their numbers from the highest byte to the lowest: backwards they are
/// the numbers from the lowest byte on.
pub proof fn keys_hold_numbers_from_the_top(x: u64, y: u32)
    ensures
        codec::be64(x).len() == 8,
        codec::be64(x).reverse() == bytes::spec_u64_to_le_bytes(x),
        bytes::spec_u64_from_le_bytes(codec::be64(x).reverse()) == x,
        codec::be32(y).len() == 4,
        codec::be32(y).reverse() == bytes::spec_u32_to_le_bytes(y),
        bytes::spec_u32_from_le_bytes(codec::be32(y).reverse()) == y,
{
    bytes::lemma_auto_spec_u64_to_from_le_bytes();
    bytes::lemma_auto_spec_u32_to_from_le_bytes();
    assert(codec::be64(x).reverse() =~= bytes::spec_u64_to_le_bytes(x));
    assert(codec::be32(y).reverse() =~= bytes::spec_u32_to_le_bytes(y));
}

/// Each message begins with the mark of its kind, and its parts follow in their
/// order: numbers from the lowest byte on, hashes and what is carried as they are,
/// and texts behind their lengths.
pub proof fn messages_are_laid_out_by_kind(
    n: u64,
    hash: Digest,
    carried: Seq<u8>,
    words: Seq<char>,
    version: u8,
)
    ensures
        ({
            let number = bytes::spec_u64_to_le_bytes(n);
            let tip = TipInfo { height: Height(n), hash };
            let none = VersionInfo { protocol_version: version, tip: None };
            let some = VersionInfo { protocol_version: version, tip: Some(tip) };
            let spelled = bytes::spec_u32_to_le_bytes(utf8::encode_utf8(words).len() as u32)
                + utf8::encode_utf8(words);
            &&& message::message_bytes(Said::Version(none)) == seq![0u8, version, 0u8]
            &&& message::message_bytes(Said::Version(some)) == seq![0u8, version, 1u8] + number
                + hash.0@
            &&& message::message_bytes(Said::VerAck(none)) == seq![1u8, version, 0u8]
            &&& message::message_bytes(Said::VerAck(some)) == seq![1u8, version, 1u8] + number
                + hash.0@
            &&& message::message_bytes(Said::Reject(RejectReason::ProtocolVersionMismatch, words))
                == seq![2u8, 0u8] + spelled
            &&& message::message_bytes(Said::Ping(n)) == seq![3u8] + number
            &&& message::message_bytes(Said::Pong(n)) == seq![4u8] + number
            &&& message::message_bytes(Said::GetTip) == seq![5u8]
            &&& message::message_bytes(Said::Tip(tip)) == seq![6u8] + number + hash.0@
            &&& message::message_bytes(Said::GetBlockByHeight(Height(n))) == seq![7u8] + number
            &&& message::message_bytes(Said::GetBlockByHash(hash)) == seq![8u8] + hash.0@
            &&& message::message_bytes(Said::Block(carried)) == seq![9u8] + carried
            &&& message::message_bytes(Said::Transaction(carried)) == seq![10u8] + carried
            &&& message::message_bytes(Said::GetPeers) == seq![11u8]
            &&& message::message_bytes(Said::Peers(seq![words])) == seq![12u8]
                + bytes::spec_u32_to_le_bytes(1) + spelled
            &&& message::envelope_bytes(carried, Said::GetTip) == carried + seq![5u8]
        }),
{
    let number = bytes::spec_u64_to_le_bytes(n);
    let tip = TipInfo { height: Height(n), hash };
    assert(seq![0u8] + seq![version, 0u8] =~= seq![0u8, version, 0u8]);
    assert(seq![1u8] + seq![version, 0u8] =~= seq![1u8, version, 0u8]);
    assert(seq![0u8] + (seq![version, 1u8] + (number + hash.0@)) =~= seq![0u8, version, 1u8]
        + number + hash.0@);
    assert(seq![1u8] + (seq![version, 1u8] + (number + hash.0@)) =~= seq![1u8, version, 1u8]
        + number + hash.0@);
    assert(seq![6u8] + (number + hash.0@) =~= seq![6u8] + number + hash.0@);
    let spelled = bytes::spec_u32_to_le_bytes(utf8::encode_utf8(words).len() as u32)
        + utf8::encode_utf8(words);
    let one = seq![words];
    reveal_with_fuel(message::texts_bytes, 2);
    assert(one.drop_last() =~= Seq::<Seq<char>>::empty());
    assert(message::texts_bytes(one) =~= spelled);
}

/// A frame is the length of what it holds, from the highest byte on, and what it
/// holds.
pub proof fn a_frame_begins_with_its_length(held: Seq<u8>)
    requires
        held.len() <= u32::MAX,
    ensures
        transport::frame(held).len() == held.len() + 4,
        transport::frame(held).skip(4) == held,
        transport::frame(held).take(4).reverse() == bytes::spec_u32_to_le_bytes(
            held.len() as u32,
        ),
{
    let y = held.len() as u32;
    keys_hold_numbers_from_the_top(0, y);
    assert(transport::frame(held).skip(4) =~= held);
    assert(transport::frame(held).take(4) =~= codec::be32(y));
}

/// The rows of the indexes hold their parts in their order.
pub proof fn index_rows_hold_their_parts(
    place: TransactionLocation,
    listed: AddressTransactionLocation,
    key: AddressTxKey,
    found: TxLocation,
)
    ensures
        ({
            let row = tables::location_bytes(place);
            &&& row.len() == 76
            &&& row.take(8) == bytes::spec_u64_to_le_bytes(place.block_height.0)
            &&& row.subrange(8, 72) == place.block_hash.0@
            &&& row.skip(72) == bytes::spec_u32_to_le_bytes(place.tx_index)
        }),
        ({
            let row = tables::address_location_bytes(listed);
            &&& row.len() == 141
            &&& row.take(64) == listed.tx_hash.0@
            &&& row.subrange(64, 72) == bytes::spec_u64_to_le_bytes(listed.block_height.0)
            &&& row.subrange(72, 136) == listed.block_hash.0@
            &&& row.subrange(136, 140) == bytes::spec_u32_to_le_bytes(listed.tx_index)
            &&& row[140] == if listed.sent {
                1u8
            } else {
                0u8
            }
        }),
        ({
            let name = tables::address_key_bytes(key);
            &&& name.len() == 33
            &&& name.take(20) == key.address.0@
            &&& name.subrange(20, 28) == codec::be64(key.height.0)
            &&& name.subrange(28, 32) == codec::be32(key.tx_index)
            &&& name[32] == if key.sent {
                1u8
            } else {
                0u8
            }
        }),
        ({
            let row = chain_storage::location_bytes(found);
            &&& row.len() == 72
            &&& row.take(8) == bytes::spec_u64_to_le_bytes(found.height.0)
            &&& row.skip(8) == found.block_hash.0@
        }),
{
    bytes::lemma_auto_spec_u64_to_from_le_bytes();
    bytes::lemma_auto_spec_u32_to_from_le_bytes();
    keys_hold_numbers_from_the_top(key.height.0, key.tx_index);
    let row = tables::location_bytes(place);
    assert(row.take(8) =~= bytes::spec_u64_to_le_bytes(place.block_height.0));
    assert(row.subrange(8, 72) =~= place.block_hash.0@);
    assert(row.skip(72) =~= bytes::spec_u32_to_le_bytes(place.tx_index));
    let row = tables::address_location_bytes(listed);
    assert(row.take(64) =~= listed.tx_hash.0@);
    assert(row.subrange(64, 72) =~= bytes::spec_u64_to_le_bytes(listed.block_height.0));
    assert(row.subrange(72, 136) =~= listed.block_hash.0@);
    assert(row.subrange(136, 140) =~= bytes::spec_u32_to_le_bytes(listed.tx_index));
    let name = tables::address_key_bytes(key);
    assert(name.take(20) =~= key.address.0@);
    assert(name.subrange(20, 28) =~= codec::be64(key.height.0));
    assert(name.subrange(28, 32) =~= codec::be32(key.tx_index));
    let row = chain_storage::location_bytes(found);
    assert(row.take(8) =~= bytes::spec_u64_to_le_bytes(found.height.0));
    assert(row.skip(8) =~= found.block_hash.0@);
}

/// A message is read only from a whole frame of the own network that is no larger
/// than a message may be.
pub proof fn only_messages_of_the_own_network_are_read(
    unread: Seq<u8>,
    params: ChainParams,
    r: Result<NetworkEnvelope, NetworkError>,
    left: Seq<u8>,
)
    requires
        transport::message_reads(unread, params, r, left),
    ensures
        r matches Ok(envelope) ==> {
            let body = unread.skip(4);
            let n = (body.len() - left.len()) as int;
            &&& unread.len() >= 8
            &&& unread.subrange(4, 8) == params.network_magic@
            &&& envelope.magic == params.network_magic
            &&& 4 <= n <= MAX_NETWORK_MESSAGE_SIZE
            &&& unread.take(4).reverse() == bytes::spec_u32_to_le_bytes(n as u32)
            &&& message::message_of(unread.subrange(8, 4 + n)) == Some(envelope.message@)
            &&& left == unread.skip(4 + n)
        },
{
    match r {
        Ok(envelope) => {
            let length = choose|length: u32| #[trigger]
                codec::be32(length) == unread.take(4) && {
                    let body = unread.skip(4);
                    if length > MAX_NETWORK_MESSAGE_SIZE {
                        false
                    } else if body.len() < length {
                        false
                    } else {
                        let written = body.take(length as int);
                        left == body.skip(length as int) && written.len() >= 4 && written.take(4)
                            == params.network_magic@ && envelope.magic == params.network_magic
                            && message::message_of(written.skip(4)) == Some(envelope.message@)
                    }
                };
            keys_hold_numbers_from_the_top(0, length);
            let body = unread.skip(4);
            let written = body.take(length as int);
            assert(unread.subrange(4, 8) =~= written.take(4));
            assert(unread.subrange(8, 4 + length) =~= written.skip(4));
            assert(unread.skip(4 + length) =~= body.skip(length as int));
        },
        Err(_) => {},
    }
}

} // verus!
