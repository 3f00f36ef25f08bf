//! The rows of the node's database, and which of them have changed.

use crate::codec;
use crate::ledger::AccountMap;
use crate::order::{self, OrderedKey, Rank};
use crate::ordered_map::{self, OrderedMap};
use crate::storage::SerializationError;
use crate::types::{
    self, Account, Address, Block, BlockHash, BlockHeight, Digest, Height, TransactionHash,
};
use std::sync::Arc;
use vstd::bytes;
use vstd::prelude::*;

verus! {

/// The accounts at a height, with the root that the block at that height
/// claims and the root that the accounts have.
#[derive(Debug, PartialEq, Eq)]
pub struct StateSnapshot {
    pub height: BlockHeight,
    pub block_hash: BlockHash,
    pub state_root: Digest,
    pub accounts: Arc<AccountMap>,
    pub accounts_root: Digest,
}

impl Clone for StateSnapshot {
    fn clone(&self) -> (r: Self)
        ensures
            r == *self,
    {
        StateSnapshot {
            height: self.height,
            block_hash: self.block_hash,
            state_root: self.state_root,
            accounts: types::share(&self.accounts),
            accounts_root: self.accounts_root,
        }
    }
}

impl StateSnapshot {
    /// The accounts have the root that is claimed.
    pub open spec fn root_holds(&self) -> bool {
        self.accounts_root == self.state_root
    }

    /// Whether the accounts have the root that is claimed.
    pub fn verify_state_root(&self) -> (r: bool)
        ensures
            r == self.root_holds(),
    {
        self.accounts_root.same(&self.state_root)
    }

    /// Whether the snapshot belongs to a block.
    pub fn verify_against_block(&self, block: &Block) -> (r: bool)
        ensures
            r == (block.data.height == self.height && block.data.hash == self.block_hash
                && block.data.state_root == self.state_root && self.root_holds()),
    {
        block.height().0 == self.height.0 && block.hash().same(&self.block_hash)
            && block.state_root().same(&self.state_root) && self.verify_state_root()
    }
}

/// Where a transaction stands in the chain.
#[derive(Clone, Copy, Debug, PartialEq, Eq)]
pub struct TransactionLocation {
    pub block_height: BlockHeight,
    pub block_hash: BlockHash,
    pub tx_index: u32,
}

/// Where a transaction of an address stands in the chain, and whether the
/// address sent it.
#[derive(Clone, Copy, Debug, PartialEq, Eq)]
pub struct AddressTransactionLocation {
    pub tx_hash: TransactionHash,
    pub block_height: BlockHeight,
    pub block_hash: BlockHash,
    pub tx_index: u32,
    pub sent: bool,
}

/// The bytes of a location: the height, the hash of the block and the position
/// in it, numbers with the least significant byte first.
pub open spec fn location_bytes(location: TransactionLocation) -> Seq<u8> {
    bytes::spec_u64_to_le_bytes(location.block_height.0) + location.block_hash.0@
        + bytes::spec_u32_to_le_bytes(location.tx_index)
}

/// `r` is what the bytes of a location read as.
pub open spec fn location_reads(
    s: Seq<u8>,
    r: Result<TransactionLocation, SerializationError>,
) -> bool {
    if s.len() != 76 {
        r == Err::<TransactionLocation, SerializationError>(
            SerializationError::Reason(codec::length_refusal(s.len(), 76)),
        )
    } else {
        r matches Ok(location) && s == location_bytes(location)
    }
}

/// The location that some bytes stand for.
pub open spec fn location_in(s: Seq<u8>) -> Result<TransactionLocation, SerializationError> {
    choose|r: Result<TransactionLocation, SerializationError>| location_reads(s, r)
}

/// Different locations have different bytes.
pub proof fn location_bytes_differ(a: TransactionLocation, b: TransactionLocation)
    ensures
        location_bytes(a).len() == 76,
        location_bytes(a) == location_bytes(b) <==> a == b,
{
    bytes::lemma_auto_spec_u64_to_from_le_bytes();
    bytes::lemma_auto_spec_u32_to_from_le_bytes();
    let (x, y) = (location_bytes(a), location_bytes(b));
    assert(x.subrange(0, 8) =~= bytes::spec_u64_to_le_bytes(a.block_height.0));
    assert(y.subrange(0, 8) =~= bytes::spec_u64_to_le_bytes(b.block_height.0));
    assert(x.subrange(8, 72) =~= a.block_hash.0@);
    assert(y.subrange(8, 72) =~= b.block_hash.0@);
    assert(x.subrange(72, 76) =~= bytes::spec_u32_to_le_bytes(a.tx_index));
    assert(y.subrange(72, 76) =~= bytes::spec_u32_to_le_bytes(b.tx_index));
    types::hash_is_its_bytes(a.block_hash, b.block_hash);
}

proof fn one_location_is_read(s: Seq<u8>, r: Result<TransactionLocation, SerializationError>)
    requires
        location_reads(s, r),
    ensures
        r == location_in(s),
{
    let other = location_in(s);
    assert(location_reads(s, other));
    match (r, other) {
        (Ok(a), Ok(b)) => {
            location_bytes_differ(a, b);
        },
        _ => {},
    }
}

/// The location that is written is the location that is read.
pub proof fn written_location_is_read(location: TransactionLocation)
    ensures
        location_in(location_bytes(location)) == Ok::<TransactionLocation, SerializationError>(
            location,
        ),
{
    location_bytes_differ(location, location);
    one_location_is_read(location_bytes(location), Ok(location));
}

/// The bytes of a location.
pub fn encode_location(location: &TransactionLocation) -> (r: Vec<u8>)
    ensures
        r@ == location_bytes(*location),
{
    let mut out = codec::encode_u64(location.block_height.0);
    out.extend_from_slice(location.block_hash.0.as_slice());
    out.extend_from_slice(bytes::u32_to_le_bytes(location.tx_index).as_slice());
    assert(out@ =~= location_bytes(*location));
    out
}

/// The location that some bytes stand for.
pub fn decode_location(s: &[u8]) -> (r: Result<TransactionLocation, SerializationError>)
    ensures
        r == location_in(s@),
        match r {
            Ok(location) => s@ == location_bytes(location),
            Err(_) => forall|location: TransactionLocation| s@ != #[trigger] location_bytes(
                location,
            ),
        },
{
    proof {
        bytes::lemma_auto_spec_u64_to_from_le_bytes();
        bytes::lemma_auto_spec_u32_to_from_le_bytes();
        assert forall|location: TransactionLocation| s@ == #[trigger] location_bytes(
            location,
        ) implies s@.len() == 76 by {
            location_bytes_differ(location, location);
        }
    }
    if s.len() != 76 {
        let refused: Result<TransactionLocation, SerializationError> = Err(
            SerializationError::Reason(codec::length_words(s.len(), 76)),
        );
        proof {
            one_location_is_read(s@, refused);
        }
        return refused;
    }
    let height = codec::decode_u64(vstd::slice::slice_subrange(s, 0, 8));
    let hash = types::hash_from_slice(vstd::slice::slice_subrange(s, 8, 72));
    let tx_index: u32 = bytes::u32_from_le_bytes(vstd::slice::slice_subrange(s, 72, 76));
    match (height, hash) {
        (Ok(height), Some(block_hash)) => {
            let location = TransactionLocation {
                block_height: Height(height),
                block_hash,
                tx_index,
            };
            proof {
                assert(s@ =~= location_bytes(location));
                one_location_is_read(s@, Ok(location));
            }
            Ok(location)
        },
        _ => Err(SerializationError::Reason(codec::length_words(s.len(), 76))),
    }
}

/// The bytes of a location under an address: the hash of the transaction, the
/// height, the hash of the block, the position in it, and whether the address
/// sent it.
pub open spec fn address_location_bytes(location: AddressTransactionLocation) -> Seq<u8> {
    location.tx_hash.0@ + bytes::spec_u64_to_le_bytes(location.block_height.0)
        + location.block_hash.0@ + bytes::spec_u32_to_le_bytes(location.tx_index) + seq![
        if location.sent {
            1u8
        } else {
            0u8
        },
    ]
}

/// `r` is what the bytes of a location under an address read as. Where they are
/// enough, the last that counts has to be zero or one, and none may follow.
pub open spec fn address_location_reads(
    s: Seq<u8>,
    r: Result<AddressTransactionLocation, SerializationError>,
) -> bool {
    if s.len() >= 141 && s[140] > 1 {
        r == Err::<AddressTransactionLocation, SerializationError>(
            SerializationError::InvalidBool(s[140]),
        )
    } else if s.len() != 141 {
        r == Err::<AddressTransactionLocation, SerializationError>(
            SerializationError::Reason(codec::length_refusal(s.len(), 141)),
        )
    } else {
        r matches Ok(location) && s == address_location_bytes(location)
    }
}

/// The location under an address that some bytes stand for.
pub open spec fn address_location_in(s: Seq<u8>) -> Result<
    AddressTransactionLocation,
    SerializationError,
> {
    choose|r: Result<AddressTransactionLocation, SerializationError>| address_location_reads(s, r)
}

/// Different locations under addresses have different bytes.
pub proof fn address_location_bytes_differ(
    a: AddressTransactionLocation,
    b: AddressTransactionLocation,
)
    ensures
        address_location_bytes(a).len() == 141,
        address_location_bytes(a)[140] <= 1,
        address_location_bytes(a) == address_location_bytes(b) <==> a == b,
{
    bytes::lemma_auto_spec_u64_to_from_le_bytes();
    bytes::lemma_auto_spec_u32_to_from_le_bytes();
    let (x, y) = (address_location_bytes(a), address_location_bytes(b));
    assert(x.subrange(0, 64) =~= a.tx_hash.0@);
    assert(y.subrange(0, 64) =~= b.tx_hash.0@);
    assert(x.subrange(64, 72) =~= bytes::spec_u64_to_le_bytes(a.block_height.0));
    assert(y.subrange(64, 72) =~= bytes::spec_u64_to_le_bytes(b.block_height.0));
    assert(x.subrange(72, 136) =~= a.block_hash.0@);
    assert(y.subrange(72, 136) =~= b.block_hash.0@);
    assert(x.subrange(136, 140) =~= bytes::spec_u32_to_le_bytes(a.tx_index));
    assert(y.subrange(136, 140) =~= bytes::spec_u32_to_le_bytes(b.tx_index));
    assert(x[140] == if a.sent {
        1u8
    } else {
        0u8
    });
    assert(y[140] == if b.sent {
        1u8
    } else {
        0u8
    });
    types::hash_is_its_bytes(a.tx_hash, b.tx_hash);
    types::hash_is_its_bytes(a.block_hash, b.block_hash);
}

proof fn one_address_location_is_read(
    s: Seq<u8>,
    r: Result<AddressTransactionLocation, SerializationError>,
)
    requires
        address_location_reads(s, r),
    ensures
        r == address_location_in(s),
{
    let other = address_location_in(s);
    assert(address_location_reads(s, other));
    match (r, other) {
        (Ok(a), Ok(b)) => {
            address_location_bytes_differ(a, b);
        },
        _ => {},
    }
}

/// The location under an address that is written is the one that is read.
pub proof fn written_address_location_is_read(location: AddressTransactionLocation)
    ensures
        address_location_in(address_location_bytes(location)) == Ok::<
            AddressTransactionLocation,
            SerializationError,
        >(location),
{
    address_location_bytes_differ(location, location);
    one_address_location_is_read(address_location_bytes(location), Ok(location));
}

/// The bytes of a location under an address.
pub fn encode_address_location(location: &AddressTransactionLocation) -> (r: Vec<u8>)
    ensures
        r@ == address_location_bytes(*location),
{
    let mut out: Vec<u8> = Vec::new();
    out.extend_from_slice(location.tx_hash.0.as_slice());
    out.extend_from_slice(codec::encode_u64(location.block_height.0).as_slice());
    out.extend_from_slice(location.block_hash.0.as_slice());
    out.extend_from_slice(bytes::u32_to_le_bytes(location.tx_index).as_slice());
    out.push(
        if location.sent {
            1u8
        } else {
            0u8
        },
    );
    assert(out@ =~= address_location_bytes(*location));
    out
}

/// The location under an address that some bytes stand for.
pub fn decode_address_location(s: &[u8]) -> (r: Result<
    AddressTransactionLocation,
    SerializationError,
>)
    ensures
        r == address_location_in(s@),
        match r {
            Ok(location) => s@ == address_location_bytes(location),
            Err(_) => forall|location: AddressTransactionLocation|
                s@ != #[trigger] address_location_bytes(location),
        },
{
    proof {
        bytes::lemma_auto_spec_u64_to_from_le_bytes();
        bytes::lemma_auto_spec_u32_to_from_le_bytes();
        assert forall|location: AddressTransactionLocation|
            s@ == #[trigger] address_location_bytes(location) implies s@.len() == 141 && s@[140]
            <= 1 by {
            address_location_bytes_differ(location, location);
        }
    }
    if s.len() >= 141 && s[140] > 1 {
        let refused: Result<AddressTransactionLocation, SerializationError> = Err(
            SerializationError::InvalidBool(s[140]),
        );
        proof {
            one_address_location_is_read(s@, refused);
        }
        return refused;
    }
    if s.len() != 141 {
        let refused: Result<AddressTransactionLocation, SerializationError> = Err(
            SerializationError::Reason(codec::length_words(s.len(), 141)),
        );
        proof {
            one_address_location_is_read(s@, refused);
        }
        return refused;
    }
    let tx_hash = types::hash_from_slice(vstd::slice::slice_subrange(s, 0, 64));
    let height = codec::decode_u64(vstd::slice::slice_subrange(s, 64, 72));
    let block_hash = types::hash_from_slice(vstd::slice::slice_subrange(s, 72, 136));
    let tx_index: u32 = bytes::u32_from_le_bytes(vstd::slice::slice_subrange(s, 136, 140));
    match (tx_hash, height, block_hash) {
        (Some(tx_hash), Ok(height), Some(block_hash)) => {
            let location = AddressTransactionLocation {
                tx_hash,
                block_height: Height(height),
                block_hash,
                tx_index,
                sent: s[140] == 1,
            };
            proof {
                assert(s@ =~= address_location_bytes(location));
                one_address_location_is_read(s@, Ok(location));
            }
            Ok(location)
        },
        _ => Err(SerializationError::Reason(codec::length_words(s.len(), 141))),
    }
}

/// The key of an address's transaction.
#[derive(Clone, Copy, Debug, PartialEq, Eq)]
pub struct AddressTxKey {
    pub address: Address,
    pub height: Height,
    pub tx_index: u32,
    pub sent: bool,
}

impl OrderedKey for AddressTxKey {
    open spec fn precedes(self, other: Self) -> bool {
        ||| self.address.precedes(other.address)
        ||| self.address == other.address && (self.height.0 < other.height.0 || (self.height.0
            == other.height.0 && (self.tx_index < other.tx_index || (self.tx_index
            == other.tx_index && !self.sent && other.sent))))
    }

    proof fn irreflexive(a: Self) {
        order::lex_less_irreflexive(a.address.0@);
    }

    proof fn transitive(a: Self, b: Self, c: Self) {
        if order::lex_less(a.address.0@, b.address.0@) && order::lex_less(
            b.address.0@,
            c.address.0@,
        ) {
            order::lex_less_transitive(a.address.0@, b.address.0@, c.address.0@);
        }
    }

    fn rank(&self, other: &Self) -> (r: Rank) {
        proof {
            order::lex_less_irreflexive(self.address.0@);
        }
        match self.address.rank(&other.address) {
            Rank::Before => {
                proof {
                    order::lex_less_asymmetric(self.address.0@, other.address.0@);
                }
                Rank::Before
            },
            Rank::After => {
                proof {
                    order::lex_less_asymmetric(other.address.0@, self.address.0@);
                }
                Rank::After
            },
            Rank::Same => {
                if self.height.0 < other.height.0 {
                    Rank::Before
                } else if other.height.0 < self.height.0 {
                    Rank::After
                } else if self.tx_index < other.tx_index {
                    Rank::Before
                } else if other.tx_index < self.tx_index {
                    Rank::After
                } else if !self.sent && other.sent {
                    Rank::Before
                } else if self.sent && !other.sent {
                    Rank::After
                } else {
                    Rank::Same
                }
            },
        }
    }
}

/// The bytes of the key of a height.
pub fn height_key(height: BlockHeight) -> (r: Vec<u8>)
    ensures
        r@ == codec::be64(height.0),
{
    codec::u64_to_be_bytes(height.0)
}

/// The height of which the bytes are the key.
pub fn height_of_key(key: &[u8]) -> (r: Option<Height>)
    ensures
        match r {
            Some(height) => key@ == codec::be64(height.0),
            None => key@.len() != 8,
        },
        forall|height: Height| key@ == #[trigger] codec::be64(height.0) ==> r == Some(height),
{
    proof {
        assert forall|height: Height| key@ == #[trigger] codec::be64(height.0) implies key@.len()
            == 8 by {
            codec::be64_is_injective(height.0, height.0);
        }
    }
    if key.len() != 8 {
        return None;
    }
    let number: u64 = codec::u64_from_be_bytes(key);
    proof {
        assert forall|height: Height| key@ == #[trigger] codec::be64(height.0) implies Height(number)
            == height by {
            codec::be64_is_injective(number, height.0);
        }
    }
    Some(Height(number))
}

/// The bytes of the key of an address's transaction: the address, the height,
/// the position in the block, and whether the address sent it.
pub open spec fn address_key_bytes(key: AddressTxKey) -> Seq<u8> {
    key.address.0@ + codec::be64(key.height.0) + codec::be32(key.tx_index) + seq![
        if key.sent {
            1u8
        } else {
            0u8
        },
    ]
}

/// The bytes of the key of an address's transaction.
pub fn address_tx_key(address: &Address, height: BlockHeight, tx_index: u32, sent: bool) -> (r: Vec<
    u8,
>)
    ensures
        r@ == address_key_bytes(AddressTxKey { address: *address, height, tx_index, sent }),
{
    let mut key: Vec<u8> = Vec::new();
    key.extend_from_slice(address.0.as_slice());
    key.extend_from_slice(codec::u64_to_be_bytes(height.0).as_slice());
    key.extend_from_slice(codec::u32_to_be_bytes(tx_index).as_slice());
    key.push(
        if sent {
            1u8
        } else {
            0u8
        },
    );
    assert(key@ =~= address_key_bytes(AddressTxKey { address: *address, height, tx_index, sent }));
    key
}

/// The transaction of an address of which the bytes are the key.
pub fn address_tx_of_key(key: &[u8]) -> (r: Option<AddressTxKey>)
    ensures
        match r {
            Some(place) => key@ == address_key_bytes(place),
            None => key@.len() != 33 || key@[32] > 1,
        },
        forall|place: AddressTxKey| key@ == #[trigger] address_key_bytes(place) ==> r == Some(place),
{
    proof {
        assert forall|place: AddressTxKey| key@ == #[trigger] address_key_bytes(
            place,
        ) implies key@.len() == 33 && key@[32] <= 1 by {
            codec::be64_is_injective(place.height.0, place.height.0);
            codec::be32_is_injective(place.tx_index, place.tx_index);
        }
    }
    if key.len() != 33 || key[32] > 1 {
        return None;
    }
    let address = match types::address_from_slice(vstd::slice::slice_subrange(key, 0, 20)) {
        Some(address) => address,
        None => {
            return None;
        },
    };
    let height = Height(codec::u64_from_be_bytes(vstd::slice::slice_subrange(key, 20, 28)));
    let tx_index: u32 = codec::u32_from_be_bytes(vstd::slice::slice_subrange(key, 28, 32));
    let place = AddressTxKey { address, height, tx_index, sent: key[32] == 1 };
    proof {
        assert(key@ =~= address_key_bytes(place));
        assert forall|other: AddressTxKey| key@ == #[trigger] address_key_bytes(other) implies place
            == other by {
            address_keys_differ(place, other);
        }
    }
    Some(place)
}

/// Different heights have different keys.
pub proof fn height_keys_differ(a: Height, b: Height)
    ensures
        codec::be64(a.0) == codec::be64(b.0) <==> a == b,
{
    codec::be64_is_injective(a.0, b.0);
}

/// Different transactions of addresses have different keys, and a key starts
/// with the bytes of one address alone.
pub proof fn address_keys_differ(a: AddressTxKey, b: AddressTxKey)
    ensures
        address_key_bytes(a) == address_key_bytes(b) <==> a == b,
        address_key_bytes(a).take(20) == b.address.0@ <==> a.address == b.address,
{
    codec::be64_is_injective(a.height.0, b.height.0);
    codec::be64_is_injective(b.height.0, a.height.0);
    codec::be32_is_injective(a.tx_index, b.tx_index);
    codec::be32_is_injective(b.tx_index, a.tx_index);
    types::address_is_its_bytes(a.address, b.address);
    let (x, y) = (address_key_bytes(a), address_key_bytes(b));
    assert(x.take(20) =~= a.address.0@);
    assert(y.take(20) =~= b.address.0@);
    assert(x.subrange(20, 28) =~= codec::be64(a.height.0));
    assert(y.subrange(20, 28) =~= codec::be64(b.height.0));
    assert(x.subrange(28, 32) =~= codec::be32(a.tx_index));
    assert(y.subrange(28, 32) =~= codec::be32(b.tx_index));
    assert(x[32] == if a.sent {
        1u8
    } else {
        0u8
    });
    assert(y[32] == if b.sent {
        1u8
    } else {
        0u8
    });
}

/// What a row holds or, where it does not decode, the words of whoever tried.
pub type Stored<T> = Result<T, String>;

/// The rows of the database. Where transactions stand and the three values about
/// the chain as a whole lie there as bytes.
#[derive(Debug, PartialEq, Eq)]
pub struct Tables {
    pub blocks_by_height: OrderedMap<Height, Stored<Block>>,
    pub blocks_by_hash: OrderedMap<Digest, Stored<Block>>,
    pub accounts: OrderedMap<Address, Stored<Account>>,
    pub genesis_accounts: Option<Stored<Arc<AccountMap>>>,
    pub state_snapshots: OrderedMap<Height, Stored<StateSnapshot>>,
    pub tx_index: OrderedMap<Digest, Vec<u8>>,
    pub address_tx_index: OrderedMap<AddressTxKey, Vec<u8>>,
    pub storage_version: Option<Vec<u8>>,
    pub tip_height: Option<Vec<u8>>,
    pub tip_hash: Option<Vec<u8>>,
}

/// The rows of the database as maps.
#[verifier::ext_equal]
pub struct Rows {
    pub blocks_by_height: Map<Height, Stored<Block>>,
    pub blocks_by_hash: Map<Digest, Stored<Block>>,
    pub accounts: Map<Address, Stored<Account>>,
    pub genesis_accounts: Option<Stored<Arc<AccountMap>>>,
    pub state_snapshots: Map<Height, Stored<StateSnapshot>>,
    pub tx_index: Map<Digest, Seq<u8>>,
    pub address_tx_index: Map<AddressTxKey, Seq<u8>>,
    pub storage_version: Option<Seq<u8>>,
    pub tip_height: Option<Seq<u8>>,
    pub tip_hash: Option<Seq<u8>>,
}

/// The bytes of a stored value.
pub open spec fn stored_bytes(value: Option<Vec<u8>>) -> Option<Seq<u8>> {
    match value {
        Some(v) => Some(v@),
        None => None,
    }
}

/// The bytes of the rows of a table.
pub open spec fn row_bytes<K>(table: Map<K, Vec<u8>>) -> Map<K, Seq<u8>> {
    Map::new(|k: K| table.contains_key(k), |k: K| table[k]@)
}

/// A table has no bytes exactly if it has no rows.
pub proof fn no_rows_no_bytes<K>(table: Map<K, Vec<u8>>)
    ensures
        row_bytes(table) == Map::<K, Seq<u8>>::empty() <==> table == Map::<K, Vec<u8>>::empty(),
{
    if row_bytes(table) == Map::<K, Seq<u8>>::empty() {
        assert forall|k: K| !table.contains_key(k) by {
            assert(!row_bytes(table).contains_key(k));
        }
        assert(table =~= Map::<K, Vec<u8>>::empty());
    } else if table == Map::<K, Vec<u8>>::empty() {
        assert(row_bytes(table) =~= Map::<K, Seq<u8>>::empty());
    }
}

/// The bytes of rows in key order.
pub open spec fn bytes_in_order<K>(rows: Seq<(K, Vec<u8>)>) -> Seq<(K, Seq<u8>)> {
    Seq::new(rows.len(), |i: int| (rows[i].0, rows[i].1@))
}

/// The bytes of a table's rows in key order are those of the table.
pub proof fn bytes_keep_their_order<K: OrderedKey>(rows: Seq<(K, Vec<u8>)>)
    requires
        ordered_map::ascending(rows),
    ensures
        ordered_map::rows_of(row_bytes(ordered_map::rows_map(rows))) == bytes_in_order(rows),
{
    let plain = bytes_in_order(rows);
    let table = ordered_map::rows_map(rows);
    assert forall|i: int, j: int|
        #![trigger plain[i], plain[j]]
        0 <= i < j < plain.len() implies plain[i].0.precedes(plain[j].0) && plain[i].0
        != plain[j].0 by {
        assert(rows[i].0.precedes(rows[j].0) && rows[i].0 != rows[j].0);
    }
    ordered_map::rows_are_entries(rows);
    ordered_map::rows_are_entries(plain);
    assert(ordered_map::rows_map(plain) =~= row_bytes(table)) by {
        assert forall|k: K| ordered_map::rows_map(plain).contains_key(k)
            == #[trigger] table.contains_key(k) by {
            if ordered_map::has_key(rows, k) {
                let i = choose|i: int| ordered_map::key_at(rows, k, i);
                assert(ordered_map::key_at(plain, k, i));
            }
            if ordered_map::has_key(plain, k) {
                let i = choose|i: int| ordered_map::key_at(plain, k, i);
                assert(ordered_map::key_at(rows, k, i));
            }
        }
        assert forall|k: K| #[trigger] table.contains_key(k) implies ordered_map::rows_map(plain)[k]
            == table[k]@ by {
            let i = choose|i: int| ordered_map::key_at(rows, k, i);
            assert(rows[i].0 == k && plain[i].0 == k);
        }
    }
    ordered_map::rows_are_rows_of(plain);
}

impl View for Tables {
    type V = Rows;

    open spec fn view(&self) -> Rows {
        Rows {
            blocks_by_height: self.blocks_by_height@,
            blocks_by_hash: self.blocks_by_hash@,
            accounts: self.accounts@,
            genesis_accounts: self.genesis_accounts,
            state_snapshots: self.state_snapshots@,
            tx_index: row_bytes(self.tx_index@),
            address_tx_index: row_bytes(self.address_tx_index@),
            storage_version: stored_bytes(self.storage_version),
            tip_height: stored_bytes(self.tip_height),
            tip_hash: stored_bytes(self.tip_hash),
        }
    }
}

impl Tables {
    /// Every table lies in key order.
    pub open spec fn wf(&self) -> bool {
        &&& self.blocks_by_height.wf()
        &&& self.blocks_by_hash.wf()
        &&& self.accounts.wf()
        &&& self.state_snapshots.wf()
        &&& self.tx_index.wf()
        &&& self.address_tx_index.wf()
        &&& self.genesis_accounts matches Some(Ok(accounts)) ==> accounts.wf()
        &&& forall|h: Height| #[trigger]
            self.state_snapshots@.contains_key(h) ==> (self.state_snapshots@[h] matches Ok(
                snapshot,
            ) ==> snapshot.accounts.wf())
    }

    /// A database without rows.
    pub fn new() -> (r: Self)
        ensures
            r.wf(),
            r@.has_no_rows(),
            r@.storage_version is None,
            r@.tip_height is None,
            r@.tip_hash is None,
    {
        let r = Tables {
            blocks_by_height: OrderedMap::new(),
            blocks_by_hash: OrderedMap::new(),
            accounts: OrderedMap::new(),
            genesis_accounts: None,
            state_snapshots: OrderedMap::new(),
            tx_index: OrderedMap::new(),
            address_tx_index: OrderedMap::new(),
            storage_version: None,
            tip_height: None,
            tip_hash: None,
        };
        assert(r@.tx_index =~= Map::<Digest, Seq<u8>>::empty());
        assert(r@.address_tx_index =~= Map::<AddressTxKey, Seq<u8>>::empty());
        r
    }
}

impl Rows {
    /// No table but the values about the chain as a whole has a row.
    pub open spec fn has_no_rows(self) -> bool {
        &&& self.blocks_by_height == Map::<Height, Stored<Block>>::empty()
        &&& self.blocks_by_hash == Map::<Digest, Stored<Block>>::empty()
        &&& self.accounts == Map::<Address, Stored<Account>>::empty()
        &&& self.genesis_accounts is None
        &&& self.state_snapshots == Map::<Height, Stored<StateSnapshot>>::empty()
        &&& self.tx_index == Map::<Digest, Seq<u8>>::empty()
        &&& self.address_tx_index == Map::<AddressTxKey, Seq<u8>>::empty()
    }
}

/// A place in the database that no longer holds what it held.
#[derive(Clone, Copy, Debug, PartialEq, Eq)]
pub enum Change {
    BlockByHeight(Height),
    BlockByHash(Digest),
    Account(Address),
    GenesisAccounts,
    StateSnapshot(Height),
    Transaction(Digest),
    AddressTransaction(AddressTxKey),
    TransactionIndexes,
    StorageVersion,
    TipHeight,
    TipHash,
}

/// Both maps hold the same under `k`.
pub open spec fn same_row<K, V>(a: Map<K, V>, b: Map<K, V>, k: K) -> bool {
    a.contains_key(k) == b.contains_key(k) && (a.contains_key(k) ==> a[k] == b[k])
}

/// Every place where the rows differ is named.
pub open spec fn covered(a: Rows, b: Rows, changes: Seq<Change>) -> bool {
    &&& forall|k: Height| #[trigger]
        same_row(a.blocks_by_height, b.blocks_by_height, k) || changes.contains(
            Change::BlockByHeight(k),
        )
    &&& forall|k: Digest| #[trigger]
        same_row(a.blocks_by_hash, b.blocks_by_hash, k) || changes.contains(Change::BlockByHash(k))
    &&& forall|k: Address| #[trigger]
        same_row(a.accounts, b.accounts, k) || changes.contains(Change::Account(k))
    &&& a.genesis_accounts == b.genesis_accounts || changes.contains(Change::GenesisAccounts)
    &&& forall|k: Height| #[trigger]
        same_row(a.state_snapshots, b.state_snapshots, k) || changes.contains(
            Change::StateSnapshot(k),
        )
    &&& forall|k: Digest| #[trigger]
        same_row(a.tx_index, b.tx_index, k) || changes.contains(Change::Transaction(k))
            || changes.contains(Change::TransactionIndexes)
    &&& forall|k: AddressTxKey| #[trigger]
        same_row(a.address_tx_index, b.address_tx_index, k) || changes.contains(
            Change::AddressTransaction(k),
        ) || changes.contains(Change::TransactionIndexes)
    &&& a.storage_version == b.storage_version || changes.contains(Change::StorageVersion)
    &&& a.tip_height == b.tip_height || changes.contains(Change::TipHeight)
    &&& a.tip_hash == b.tip_hash || changes.contains(Change::TipHash)
}

/// What names the places of one step and then of another names those of both.
pub proof fn covered_by_both(a: Rows, b: Rows, c: Rows, first: Seq<Change>, second: Seq<Change>)
    requires
        covered(a, b, first),
        covered(b, c, second),
    ensures
        covered(a, c, first + second),
{
    let both = first + second;
    assert forall|x: Change| first.contains(x) implies both.contains(x) by {
        let i = choose|i: int| 0 <= i < first.len() && first[i] == x;
        assert(both[i] == x);
    }
    assert forall|x: Change| second.contains(x) implies both.contains(x) by {
        let i = choose|i: int| 0 <= i < second.len() && second[i] == x;
        assert(both[first.len() + i] == x);
    }
    assert forall|k: Height| #[trigger] same_row(
        a.blocks_by_height,
        c.blocks_by_height,
        k,
    ) || both.contains(Change::BlockByHeight(k)) by {
        assert(same_row(a.blocks_by_height, b.blocks_by_height, k) || first.contains(
            Change::BlockByHeight(k),
        ));
        assert(same_row(b.blocks_by_height, c.blocks_by_height, k) || second.contains(
            Change::BlockByHeight(k),
        ));
    }
    assert forall|k: Digest| #[trigger] same_row(a.blocks_by_hash, c.blocks_by_hash, k)
        || both.contains(Change::BlockByHash(k)) by {
        assert(same_row(a.blocks_by_hash, b.blocks_by_hash, k) || first.contains(
            Change::BlockByHash(k),
        ));
        assert(same_row(b.blocks_by_hash, c.blocks_by_hash, k) || second.contains(
            Change::BlockByHash(k),
        ));
    }
    assert forall|k: Address| #[trigger] same_row(a.accounts, c.accounts, k) || both.contains(
        Change::Account(k),
    ) by {
        assert(same_row(a.accounts, b.accounts, k) || first.contains(Change::Account(k)));
        assert(same_row(b.accounts, c.accounts, k) || second.contains(Change::Account(k)));
    }
    assert forall|k: Height| #[trigger] same_row(a.state_snapshots, c.state_snapshots, k)
        || both.contains(Change::StateSnapshot(k)) by {
        assert(same_row(a.state_snapshots, b.state_snapshots, k) || first.contains(
            Change::StateSnapshot(k),
        ));
        assert(same_row(b.state_snapshots, c.state_snapshots, k) || second.contains(
            Change::StateSnapshot(k),
        ));
    }
    assert forall|k: Digest| #[trigger] same_row(a.tx_index, c.tx_index, k) || both.contains(
        Change::Transaction(k),
    ) || both.contains(Change::TransactionIndexes) by {
        assert(same_row(a.tx_index, b.tx_index, k) || first.contains(Change::Transaction(k))
            || first.contains(Change::TransactionIndexes));
        assert(same_row(b.tx_index, c.tx_index, k) || second.contains(Change::Transaction(k))
            || second.contains(Change::TransactionIndexes));
    }
    assert forall|k: AddressTxKey| #[trigger] same_row(a.address_tx_index, c.address_tx_index, k)
        || both.contains(Change::AddressTransaction(k)) || both.contains(
        Change::TransactionIndexes,
    ) by {
        assert(same_row(a.address_tx_index, b.address_tx_index, k) || first.contains(
            Change::AddressTransaction(k),
        ) || first.contains(Change::TransactionIndexes));
        assert(same_row(b.address_tx_index, c.address_tx_index, k) || second.contains(
            Change::AddressTransaction(k),
        ) || second.contains(Change::TransactionIndexes));
    }
}

} // verus!
