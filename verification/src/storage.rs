//! The node's database: what it writes, and what it checks when it reads.

use crate::codec;
use crate::ledger::{AccountMap, Ledger};
use crate::ordered_map::{self, OrderedMap};
use crate::params::STORAGE_VERSION;
use crate::sort::{self, SortOrder};
use crate::tables::{
    self, AddressTransactionLocation, AddressTxKey, Change, Rows, StateSnapshot, Stored, Tables,
    TransactionLocation,
};
use crate::types::{
    self, Account, Address, Block, BlockHash, BlockHeight, Digest, Height, SignedTransaction,
    TransactionHash,
};
use std::sync::Arc;
use vstd::bytes;
use vstd::prelude::*;

verus! {

/// Why bytes do not decode or a value does not encode: a reason that is known
/// beforehand, a byte that stands for neither yes nor no, or the words of whoever
/// tried.
#[derive(Debug, PartialEq, Eq)]
pub enum SerializationError {
    Reason(&'static str),
    InvalidBool(u8),
    Words(String),
}

/// Why the database cannot give or take a value. An error of the database itself
/// comes with its words.
#[derive(Debug, PartialEq, Eq)]
pub enum StorageError {
    Database(String),
    Serialization(SerializationError),
    Integrity(&'static str),
    MissingStorageVersion,
    UnsupportedStorageVersion { expected: u8, found: u8 },
}

/// The database: its rows, and the places that have changed since they were
/// last written down.
#[derive(Debug, PartialEq, Eq)]
pub struct Storage {
    pub tables: Tables,
    pub changes: Vec<Change>,
}

impl View for Storage {
    type V = Rows;

    open spec fn view(&self) -> Rows {
        self.tables@
    }
}

/// All that changed on the way from one state to the other is named in the
/// changes of the second, behind those of the first.
pub open spec fn journaled(before: Storage, after: Storage) -> bool {
    let n = before.changes@.len();
    &&& n <= after.changes@.len()
    &&& after.changes@.take(n as int) == before.changes@
    &&& tables::covered(before@, after@, after.changes@.skip(n as int))
}

/// Steps that name their changes make up a way that does.
pub proof fn journaled_transitive(a: Storage, b: Storage, c: Storage)
    requires
        journaled(a, b),
        journaled(b, c),
    ensures
        journaled(a, c),
{
    let (i, j) = (a.changes@.len() as int, b.changes@.len() as int);
    assert(c.changes@.take(i) =~= c.changes@.take(j).take(i));
    assert(c.changes@.skip(i) =~= b.changes@.skip(i) + c.changes@.skip(j)) by {
        assert(forall|k: int| 0 <= k < j ==> c.changes@.take(j)[k] == c.changes@[k]);
    }
    tables::covered_by_both(a@, b@, c@, b.changes@.skip(i), c.changes@.skip(j));
}

/// Nothing changed.
pub proof fn journaled_reflexive(a: Storage)
    ensures
        journaled(a, a),
{
    assert(a.changes@.take(a.changes@.len() as int) =~= a.changes@);
}

/// The location of a block's transaction.
pub open spec fn location_of(block: Block, i: int) -> TransactionLocation {
    TransactionLocation {
        block_height: block.data.height,
        block_hash: block.data.hash,
        tx_index: i as u32,
    }
}

/// The location of a block's transaction for its sender or its receiver.
pub open spec fn address_location_of(block: Block, i: int, sent: bool) -> AddressTransactionLocation {
    AddressTransactionLocation {
        tx_hash: block.data.transactions@[i].hash,
        block_height: block.data.height,
        block_hash: block.data.hash,
        tx_index: i as u32,
        sent,
    }
}

/// The key of a block's transaction under an address.
pub open spec fn address_key_of(address: Address, block: Block, i: int, sent: bool) -> AddressTxKey {
    AddressTxKey { address, height: block.data.height, tx_index: i as u32, sent }
}

/// The index of transactions with the first `n` of a block.
pub open spec fn with_transactions(
    index: Map<Digest, Seq<u8>>,
    block: Block,
    n: int,
) -> Map<Digest, Seq<u8>>
    decreases n,
{
    if n <= 0 {
        index
    } else {
        with_transactions(index, block, n - 1).insert(
            block.data.transactions@[n - 1].hash,
            tables::location_bytes(location_of(block, n - 1)),
        )
    }
}

/// The index of addresses with the first `n` transactions of a block: each under
/// its sender, and under its receiver if that is another.
pub open spec fn with_address_transactions(
    index: Map<AddressTxKey, Seq<u8>>,
    block: Block,
    n: int,
) -> Map<AddressTxKey, Seq<u8>>
    decreases n,
{
    if n <= 0 {
        index
    } else {
        let i = n - 1;
        let payload = block.data.transactions@[i].transaction;
        let sent = with_address_transactions(index, block, i).insert(
            address_key_of(payload.from, block, i, true),
            tables::address_location_bytes(address_location_of(block, i, true)),
        );
        if payload.to == payload.from {
            sent
        } else {
            sent.insert(
                address_key_of(payload.to, block, i, false),
                tables::address_location_bytes(address_location_of(block, i, false)),
            )
        }
    }
}

/// The positions of the block's transactions can be written down.
pub open spec fn can_index(block: Block) -> bool {
    block.data.transactions@.len() <= 0x1_0000_0000
}

/// The rows with a block of the active chain.
pub open spec fn with_block(rows: Rows, block: Block) -> Rows {
    let n = block.data.transactions@.len() as int;
    Rows {
        blocks_by_height: rows.blocks_by_height.insert(block.data.height, Ok(block)),
        blocks_by_hash: rows.blocks_by_hash.insert(block.data.hash, Ok(block)),
        tx_index: with_transactions(rows.tx_index, block, n),
        address_tx_index: with_address_transactions(rows.address_tx_index, block, n),
        ..rows
    }
}

/// The rows with the first `n` of a ledger's accounts.
pub open spec fn with_accounts(rows: Rows, accounts: Seq<(Address, Account)>, n: int) -> Rows
    decreases n,
{
    if n <= 0 {
        rows
    } else {
        let earlier = with_accounts(rows, accounts, n - 1);
        let account = accounts[n - 1].1;
        Rows { accounts: earlier.accounts.insert(account.address, Ok(account)), ..earlier }
    }
}

/// The rows with the first `n` of a ledger's blocks, up to the first whose
/// transactions cannot be indexed, and whether there was none.
pub open spec fn with_blocks(rows: Rows, blocks: Seq<(Height, Block)>, n: int) -> (Rows, bool)
    decreases n,
{
    if n <= 0 {
        (rows, true)
    } else {
        let (earlier, complete) = with_blocks(rows, blocks, n - 1);
        if complete && can_index(blocks[n - 1].1) {
            (with_block(earlier, blocks[n - 1].1), true)
        } else {
            (earlier, false)
        }
    }
}

/// The rows with a tip.
pub open spec fn with_tip(rows: Rows, height: Height, hash: Digest) -> Rows {
    Rows {
        tip_height: Some(bytes::spec_u64_to_le_bytes(height.0)),
        tip_hash: Some(hash.0@),
        ..rows
    }
}

/// The snapshot of a ledger with a tip.
pub open spec fn snapshot_of(ledger: Ledger, height: Height, hash: Digest) -> StateSnapshot {
    StateSnapshot {
        height,
        block_hash: hash,
        state_root: ledger.state_root,
        accounts: ledger.accounts,
        accounts_root: ledger.state_root,
    }
}

/// The rows with the snapshot of a ledger, if it has a tip.
pub open spec fn with_snapshot(rows: Rows, ledger: Ledger) -> Rows {
    match ledger.tip() {
        Some(block) => Rows {
            state_snapshots: rows.state_snapshots.insert(
                block.data.height,
                Ok(snapshot_of(ledger, block.data.height, block.data.hash)),
            ),
            ..rows
        },
        None => rows,
    }
}

/// The rows without what they say of where transactions stand.
pub open spec fn without_indexes(rows: Rows) -> Rows {
    Rows {
        tx_index: Map::<Digest, Seq<u8>>::empty(),
        address_tx_index: Map::<AddressTxKey, Seq<u8>>::empty(),
        ..rows
    }
}

/// The rows with a whole ledger: its accounts, its blocks with indexes of their
/// transactions alone, its tip and snapshot and, at the first height, its
/// accounts as those of the beginning. Says whether all could be written.
pub open spec fn with_ledger(rows: Rows, ledger: Ledger) -> (Rows, bool) {
    let accounts = ledger.accounts.rows();
    let blocks = ledger.blocks.rows();
    let (stored, complete) = with_blocks(
        without_indexes(with_accounts(rows, accounts, accounts.len() as int)),
        blocks,
        blocks.len() as int,
    );
    if !complete {
        (stored, false)
    } else {
        match ledger.tip() {
            None => (stored, true),
            Some(block) => {
                let tipped = with_snapshot(
                    with_tip(stored, block.data.height, block.data.hash),
                    ledger,
                );
                if block.data.height.0 == 0 {
                    (Rows { genesis_accounts: Some(Ok(ledger.accounts)), ..tipped }, true)
                } else {
                    (tipped, true)
                }
            },
        }
    }
}

/// The error for a row that does not decode.
pub open spec fn undecoded(words: String) -> StorageError {
    StorageError::Serialization(SerializationError::Words(words))
}

/// The error for a row that does not decode.
fn undecoded_row(words: &String) -> (r: StorageError)
    ensures
        r == undecoded(*words),
{
    StorageError::Serialization(SerializationError::Words(words.clone()))
}

/// The error for a value of `given` bytes that should have `wanted`.
pub open spec fn of_wrong_length(given: nat, wanted: nat) -> StorageError {
    StorageError::Serialization(
        SerializationError::Reason(codec::length_refusal(given, wanted)),
    )
}

/// What a row holds: nothing where there is none, an error where it does not
/// decode.
pub open spec fn read_row<K, V>(table: Map<K, Stored<V>>, key: K) -> Result<
    Option<V>,
    StorageError,
> {
    if !table.contains_key(key) {
        Ok(None)
    } else {
        match table[key] {
            Ok(value) => Ok(Some(value)),
            Err(words) => Err(undecoded(words)),
        }
    }
}

/// The block at a height.
pub open spec fn block_at(rows: Rows, height: Height) -> Result<Option<Block>, StorageError> {
    match read_row(rows.blocks_by_height, height) {
        Ok(Some(block)) => if block.data.height != height {
            Err(StorageError::Integrity("stored block height does not match height key"))
        } else {
            Ok(Some(block))
        },
        other => other,
    }
}

/// The block with a hash.
pub open spec fn block_with(rows: Rows, hash: Digest) -> Result<Option<Block>, StorageError> {
    match read_row(rows.blocks_by_hash, hash) {
        Ok(Some(block)) => if block.data.hash != hash {
            Err(StorageError::Integrity("stored block hash does not match hash key"))
        } else {
            Ok(Some(block))
        },
        other => other,
    }
}

/// Where the transaction with a hash stands.
pub open spec fn location_with(rows: Rows, hash: Digest) -> Result<
    Option<TransactionLocation>,
    StorageError,
> {
    if !rows.tx_index.contains_key(hash) {
        Ok(None)
    } else {
        match tables::location_in(rows.tx_index[hash]) {
            Ok(location) => Ok(Some(location)),
            Err(error) => Err(StorageError::Serialization(error)),
        }
    }
}

/// The transaction with a hash, and where it stands.
pub open spec fn transaction_with(rows: Rows, hash: Digest) -> Result<
    Option<(TransactionLocation, SignedTransaction)>,
    StorageError,
> {
    match location_with(rows, hash) {
        Err(error) => Err(error),
        Ok(None) => Ok(None),
        Ok(Some(location)) => match block_at(rows, location.block_height) {
            Err(error) => Err(error),
            Ok(None) => Err(StorageError::Integrity("indexed transaction block is missing")),
            Ok(Some(block)) => if block.data.hash != location.block_hash {
                Err(StorageError::Integrity("indexed transaction block hash mismatch"))
            } else if location.tx_index >= block.data.transactions@.len() {
                Err(StorageError::Integrity("indexed transaction position is missing"))
            } else if block.data.transactions@[location.tx_index as int].hash != hash {
                Err(StorageError::Integrity("indexed transaction hash does not match transaction"))
            } else {
                Ok(Some((location, block.data.transactions@[location.tx_index as int])))
            },
        },
    }
}

/// The height of the stored tip.
pub open spec fn stored_height(value: Seq<u8>) -> Result<Height, StorageError> {
    if value.len() == 8 {
        Ok(Height(bytes::spec_u64_from_le_bytes(value)))
    } else {
        Err(of_wrong_length(value.len(), 8))
    }
}

/// `r` is what the two stored values of the tip read as.
pub open spec fn tip_reads(rows: Rows, r: Result<Option<(Height, Digest)>, StorageError>) -> bool {
    match (rows.tip_height, rows.tip_hash) {
        (Some(height), Some(hash)) => match stored_height(height) {
            Err(error) => r == Err::<Option<(Height, Digest)>, StorageError>(error),
            Ok(h) => if hash.len() != 64 {
                r == Err::<Option<(Height, Digest)>, StorageError>(
                    StorageError::Serialization(
                        SerializationError::Reason("stored tip hash has invalid length"),
                    ),
                )
            } else {
                r matches Ok(Some(tip)) && tip.0 == h && tip.1.0@ == hash
            },
        },
        _ => r == Ok::<Option<(Height, Digest)>, StorageError>(None),
    }
}

/// The stored tip.
pub open spec fn tip_of(rows: Rows) -> Result<Option<(Height, Digest)>, StorageError> {
    choose|r: Result<Option<(Height, Digest)>, StorageError>| tip_reads(rows, r)
}

/// One reading of the tip is right.
proof fn tip_is_read(rows: Rows, r: Result<Option<(Height, Digest)>, StorageError>)
    requires
        tip_reads(rows, r),
    ensures
        r == tip_of(rows),
{
    let other = tip_of(rows);
    assert(tip_reads(rows, other));
    match (r, other) {
        (Ok(Some(a)), Ok(Some(b))) => {
            types::hash_is_its_bytes(a.1, b.1);
        },
        _ => {},
    }
}

impl Storage {
    /// Every table lies in key order.
    pub open spec fn wf(&self) -> bool {
        self.tables.wf()
    }

    fn mark(&mut self, change: Change)
        ensures
            final(self).tables == old(self).tables,
            final(self).changes@ == old(self).changes@.push(change),
    {
        self.changes.push(change);
    }

    fn put_block_by_height(&mut self, block: &Block)
        requires
            old(self).wf(),
        ensures
            final(self).wf(),
            final(self)@ == (Rows {
                blocks_by_height: old(self)@.blocks_by_height.insert(
                    block.data.height,
                    Ok(*block),
                ),
                ..old(self)@
            }),
            journaled(*old(self), *final(self)),
    {
        self.tables.blocks_by_height.insert(block.height(), Ok(block.clone()));
        self.mark(Change::BlockByHeight(block.height()));
        proof {
            one_change(*old(self), *self, Change::BlockByHeight(block.data.height));
        }
    }

    fn put_block_by_hash(&mut self, block: &Block)
        requires
            old(self).wf(),
        ensures
            final(self).wf(),
            final(self)@ == (Rows {
                blocks_by_hash: old(self)@.blocks_by_hash.insert(block.data.hash, Ok(*block)),
                ..old(self)@
            }),
            journaled(*old(self), *final(self)),
    {
        self.tables.blocks_by_hash.insert(block.hash(), Ok(block.clone()));
        self.mark(Change::BlockByHash(block.hash()));
        proof {
            one_change(*old(self), *self, Change::BlockByHash(block.data.hash));
        }
    }

    fn put_transaction(&mut self, hash: Digest, location: TransactionLocation)
        requires
            old(self).wf(),
        ensures
            final(self).wf(),
            final(self)@ == (Rows {
                tx_index: old(self)@.tx_index.insert(hash, tables::location_bytes(location)),
                ..old(self)@
            }),
            journaled(*old(self), *final(self)),
    {
        self.tables.tx_index.insert(hash, tables::encode_location(&location));
        self.mark(Change::Transaction(hash));
        proof {
            assert(self@.tx_index =~= old(self)@.tx_index.insert(
                hash,
                tables::location_bytes(location),
            ));
            one_change(*old(self), *self, Change::Transaction(hash));
        }
    }

    fn put_address_transaction(&mut self, key: AddressTxKey, location: AddressTransactionLocation)
        requires
            old(self).wf(),
        ensures
            final(self).wf(),
            final(self)@ == (Rows {
                address_tx_index: old(self)@.address_tx_index.insert(
                    key,
                    tables::address_location_bytes(location),
                ),
                ..old(self)@
            }),
            journaled(*old(self), *final(self)),
    {
        self.tables.address_tx_index.insert(key, tables::encode_address_location(&location));
        self.mark(Change::AddressTransaction(key));
        proof {
            assert(self@.address_tx_index =~= old(self)@.address_tx_index.insert(
                key,
                tables::address_location_bytes(location),
            ));
            one_change(*old(self), *self, Change::AddressTransaction(key));
        }
    }

    fn clear_transaction_indexes(&mut self)
        requires
            old(self).wf(),
        ensures
            final(self).wf(),
            final(self)@ == without_indexes(old(self)@),
            journaled(*old(self), *final(self)),
    {
        self.tables.tx_index.clear();
        self.tables.address_tx_index.clear();
        self.mark(Change::TransactionIndexes);
        proof {
            assert(self@.tx_index =~= Map::<Digest, Seq<u8>>::empty());
            assert(self@.address_tx_index =~= Map::<AddressTxKey, Seq<u8>>::empty());
            one_change(*old(self), *self, Change::TransactionIndexes);
        }
    }

    /// Writes an account.
    pub fn save_account(&mut self, account: &Account)
        requires
            old(self).wf(),
        ensures
            final(self).wf(),
            final(self)@ == (Rows {
                accounts: old(self)@.accounts.insert(account.address, Ok(*account)),
                ..old(self)@
            }),
            journaled(*old(self), *final(self)),
    {
        self.tables.accounts.insert(account.address, Ok(*account));
        self.mark(Change::Account(account.address));
        proof {
            one_change(*old(self), *self, Change::Account(account.address));
        }
    }

    /// Writes the accounts of the beginning.
    pub fn save_genesis_accounts(&mut self, accounts: &Arc<AccountMap>)
        requires
            old(self).wf(),
            accounts.wf(),
        ensures
            final(self).wf(),
            final(self)@ == (Rows { genesis_accounts: Some(Ok(*accounts)), ..old(self)@ }),
            journaled(*old(self), *final(self)),
    {
        self.tables.genesis_accounts = Some(Ok(types::share(accounts)));
        self.mark(Change::GenesisAccounts);
        proof {
            one_change(*old(self), *self, Change::GenesisAccounts);
        }
    }

    /// Writes the version of the layout.
    fn save_storage_version(&mut self, version: u8)
        requires
            old(self).wf(),
        ensures
            final(self).wf(),
            final(self)@ == (Rows { storage_version: Some(seq![version]), ..old(self)@ }),
            journaled(*old(self), *final(self)),
    {
        self.tables.storage_version = Some(codec::encode_u8(version));
        self.mark(Change::StorageVersion);
        proof {
            one_change(*old(self), *self, Change::StorageVersion);
        }
    }

    fn put_snapshot(&mut self, snapshot: StateSnapshot)
        requires
            old(self).wf(),
            snapshot.accounts.wf(),
        ensures
            final(self).wf(),
            final(self)@ == (Rows {
                state_snapshots: old(self)@.state_snapshots.insert(snapshot.height, Ok(snapshot)),
                ..old(self)@
            }),
            journaled(*old(self), *final(self)),
    {
        let height = snapshot.height;
        self.tables.state_snapshots.insert(height, Ok(snapshot));
        self.mark(Change::StateSnapshot(height));
        proof {
            one_change(*old(self), *self, Change::StateSnapshot(height));
        }
    }

    /// Writes the tip.
    pub fn save_tip(&mut self, height: BlockHeight, hash: &BlockHash)
        requires
            old(self).wf(),
        ensures
            final(self).wf(),
            final(self)@ == with_tip(old(self)@, height, *hash),
            journaled(*old(self), *final(self)),
    {
        self.tables.tip_height = Some(codec::encode_u64(height.0));
        self.mark(Change::TipHeight);
        let ghost half = *self;
        proof {
            one_change(*old(self), *self, Change::TipHeight);
        }
        let mut tip_hash: Vec<u8> = Vec::new();
        tip_hash.extend_from_slice(hash.0.as_slice());
        proof {
            assert(tip_hash@ =~= hash.0@);
        }
        self.tables.tip_hash = Some(tip_hash);
        self.mark(Change::TipHash);
        proof {
            one_change(half, *self, Change::TipHash);
            journaled_transitive(*old(self), half, *self);
        }
    }
}

/// A step that changes rows in one place and names it.
proof fn one_change(before: Storage, after: Storage, change: Change)
    requires
        after.changes@ == before.changes@.push(change),
        match change {
            Change::BlockByHeight(k) => exists|v: Stored<Block>|
                after@ == (Rows {
                    blocks_by_height: #[trigger] before@.blocks_by_height.insert(k, v),
                    ..before@
                }),
            Change::BlockByHash(k) => exists|v: Stored<Block>|
                after@ == (Rows {
                    blocks_by_hash: #[trigger] before@.blocks_by_hash.insert(k, v),
                    ..before@
                }),
            Change::Account(k) => exists|v: Stored<Account>|
                after@ == (Rows {
                    accounts: #[trigger] before@.accounts.insert(k, v),
                    ..before@
                }),
            Change::GenesisAccounts => after@ == (Rows {
                genesis_accounts: after@.genesis_accounts,
                ..before@
            }),
            Change::StateSnapshot(k) => exists|v: Stored<StateSnapshot>|
                after@ == (Rows {
                    state_snapshots: #[trigger] before@.state_snapshots.insert(k, v),
                    ..before@
                }),
            Change::Transaction(k) => exists|v: Seq<u8>|
                after@ == (Rows {
                    tx_index: #[trigger] before@.tx_index.insert(k, v),
                    ..before@
                }),
            Change::AddressTransaction(k) => exists|v: Seq<u8>|
                after@ == (Rows {
                    address_tx_index: #[trigger] before@.address_tx_index.insert(k, v),
                    ..before@
                }),
            Change::TransactionIndexes => after@ == without_indexes(before@),
            Change::StorageVersion => after@ == (Rows {
                storage_version: after@.storage_version,
                ..before@
            }),
            Change::TipHeight => after@ == (Rows { tip_height: after@.tip_height, ..before@ }),
            Change::TipHash => after@ == (Rows { tip_hash: after@.tip_hash, ..before@ }),
        },
    ensures
        journaled(before, after),
{
    let n = before.changes@.len() as int;
    assert(after.changes@.take(n) =~= before.changes@);
    let suffix = after.changes@.skip(n);
    assert(suffix =~= seq![change]);
    assert(suffix[0] == change);
    assert(suffix.contains(change));
}

/// Reads a row of values that can be copied.
fn read_value<K: crate::order::OrderedKey, V: Copy>(
    table: &OrderedMap<K, Stored<V>>,
    key: &K,
) -> (r: Result<Option<V>, StorageError>)
    requires
        table.wf(),
    ensures
        r == read_row(table@, *key),
{
    match table.get(key) {
        None => Ok(None),
        Some(row) => match row {
            Ok(value) => Ok(Some(*value)),
            Err(words) => Err(undecoded_row(words)),
        },
    }
}

/// Reads a row of blocks.
fn read_block<K: crate::order::OrderedKey>(table: &OrderedMap<K, Stored<Block>>, key: &K) -> (r:
    Result<Option<Block>, StorageError>)
    requires
        table.wf(),
    ensures
        r == read_row(table@, *key),
{
    match table.get(key) {
        None => Ok(None),
        Some(row) => match row {
            Ok(block) => Ok(Some(block.clone())),
            Err(words) => Err(undecoded_row(words)),
        },
    }
}

/// Locations in the order of the chain, a received transaction before a sent
/// one.
pub struct ByPosition;

impl SortOrder<AddressTransactionLocation> for ByPosition {
    open spec fn before(a: AddressTransactionLocation, b: AddressTransactionLocation) -> bool {
        ||| a.block_height.0 < b.block_height.0
        ||| a.block_height.0 == b.block_height.0 && (a.tx_index < b.tx_index || (a.tx_index
            == b.tx_index && !a.sent && b.sent))
    }

    proof fn irreflexive(a: AddressTransactionLocation) {
    }

    proof fn transitive(
        a: AddressTransactionLocation,
        b: AddressTransactionLocation,
        c: AddressTransactionLocation,
    ) {
    }

    proof fn negatively_transitive(
        a: AddressTransactionLocation,
        b: AddressTransactionLocation,
        c: AddressTransactionLocation,
    ) {
    }

    fn is_before(a: &AddressTransactionLocation, b: &AddressTransactionLocation) -> (r: bool) {
        if a.block_height.0 != b.block_height.0 {
            a.block_height.0 < b.block_height.0
        } else if a.tx_index != b.tx_index {
            a.tx_index < b.tx_index
        } else {
            !a.sent && b.sent
        }
    }
}

/// The locations under an address in the first rows of the index, in key order,
/// or an error if one of them does not decode.
pub open spec fn locations_under(
    index: Seq<(AddressTxKey, Seq<u8>)>,
    address: Address,
) -> Result<Seq<AddressTransactionLocation>, StorageError>
    decreases index.len(),
{
    if index.len() == 0 {
        Ok(Seq::empty())
    } else {
        let (key, row) = index.last();
        match locations_under(index.drop_last(), address) {
            Err(error) => Err(error),
            Ok(found) => if key.address != address {
                Ok(found)
            } else {
                match tables::address_location_in(row) {
                    Ok(location) => Ok(found.push(location)),
                    Err(error) => Err(StorageError::Serialization(error)),
                }
            },
        }
    }
}

/// An error in the first rows is an error in all.
proof fn locations_under_stops(
    index: Seq<(AddressTxKey, Seq<u8>)>,
    address: Address,
    k: int,
)
    requires
        0 <= k <= index.len(),
        locations_under(index.take(k), address) is Err,
    ensures
        locations_under(index, address) == locations_under(index.take(k), address),
    decreases index.len(),
{
    if k == index.len() {
        assert(index.take(k) =~= index);
    } else {
        assert(index.drop_last().take(k) =~= index.take(k));
        locations_under_stops(index.drop_last(), address, k);
    }
}

/// What holds of the version of the layout: an empty database gets it, another
/// has to have it.
pub open spec fn versioned(rows: Rows) -> (Rows, Result<(), StorageError>) {
    match rows.storage_version {
        Some(value) => if value.len() != 1 {
            (rows, Err(of_wrong_length(value.len(), 1)))
        } else if value[0] == STORAGE_VERSION {
            (rows, Ok(()))
        } else {
            (
                rows,
                Err(
                    StorageError::UnsupportedStorageVersion {
                        expected: STORAGE_VERSION,
                        found: value[0],
                    },
                ),
            )
        },
        None => if rows.has_no_rows() {
            (Rows { storage_version: Some(seq![STORAGE_VERSION]), ..rows }, Ok(()))
        } else {
            (rows, Err(StorageError::MissingStorageVersion))
        },
    }
}

/// Whether the blocks from `height` down to the first are there and linked, the
/// highest having the hash `expected`.
pub open spec fn links(rows: Rows, height: u64, expected: Digest) -> Result<(), StorageError>
    decreases height,
{
    match block_at(rows, Height(height)) {
        Err(error) => Err(error),
        Ok(None) => Err(StorageError::Integrity("stored chain block is missing")),
        Ok(Some(block)) => if block.data.hash != expected {
            Err(StorageError::Integrity("stored chain block hash does not match expected hash"))
        } else if height == 0 {
            if !block.data.previous_hash.is_zero_spec() {
                Err(StorageError::Integrity("stored genesis block previous hash is not zero"))
            } else {
                Ok(())
            }
        } else {
            match block_at(rows, Height((height - 1) as u64)) {
                Err(error) => Err(error),
                Ok(None) => Err(StorageError::Integrity("stored previous chain block is missing")),
                Ok(Some(previous)) => if block.data.previous_hash != previous.data.hash {
                    Err(StorageError::Integrity("stored chain block previous hash is broken"))
                } else {
                    links(rows, (height - 1) as u64, previous.data.hash)
                },
            }
        },
    }
}

/// Whether the stored chain is whole from the tip to the first block.
pub open spec fn integrity(rows: Rows) -> Result<(), StorageError> {
    match tip_of(rows) {
        Err(error) => Err(error),
        Ok(None) => Ok(()),
        Ok(Some((height, hash))) => match block_at(rows, height) {
            Err(error) => Err(error),
            Ok(None) => Err(StorageError::Integrity("stored tip height block is missing")),
            Ok(Some(block)) => if block.data.hash != hash {
                Err(StorageError::Integrity("stored tip hash does not match tip height block"))
            } else {
                links(rows, height.0, hash)
            },
        },
    }
}

/// The block of the stored chain at a height, where it is known to be there.
pub open spec fn chain_block(rows: Rows, height: u64) -> Block {
    block_at(rows, Height(height))->Ok_0->Some_0
}

/// A block stands at a height.
pub open spec fn has_block(rows: Rows, height: u64) -> bool {
    block_at(rows, Height(height)) matches Ok(Some(_))
}

/// Blocks stand at all heights up to `height`, each but the first names the one
/// below it, and the first names none.
pub open spec fn linked_chain(rows: Rows, height: u64) -> bool {
    &&& forall|h: u64| h <= height ==> #[trigger] has_block(rows, h)
    &&& forall|h: u64|
        0 < h <= height ==> (#[trigger] chain_block(rows, h)).data.previous_hash == chain_block(
            rows,
            (h - 1) as u64,
        ).data.hash
    &&& chain_block(rows, 0).data.previous_hash.is_zero_spec()
}

/// A chain passes the check exactly if its blocks are there and linked up to
/// one with the expected hash.
pub proof fn links_means_linked_chain(rows: Rows, height: u64, expected: Digest)
    ensures
        links(rows, height, expected) is Ok <==> linked_chain(rows, height) && chain_block(
            rows,
            height,
        ).data.hash == expected,
    decreases height,
{
    if height > 0 {
        let below = (height - 1) as u64;
        links_means_linked_chain(rows, below, chain_block(rows, below).data.hash);
        if links(rows, height, expected) is Ok {
            assert(has_block(rows, below));
            assert(linked_chain(rows, below));
            assert forall|h: u64| h <= height implies #[trigger] has_block(rows, h) by {
                if h < height {
                    assert(h <= below);
                }
            }
            assert forall|h: u64| 0 < h <= height implies (#[trigger] chain_block(
                rows,
                h,
            )).data.previous_hash == chain_block(rows, (h - 1) as u64).data.hash by {
                if h < height {
                    assert(h <= below);
                }
            }
        }
        if linked_chain(rows, height) && chain_block(rows, height).data.hash == expected {
            assert(has_block(rows, height));
            assert(has_block(rows, below));
            assert(chain_block(rows, height).data.previous_hash == chain_block(
                rows,
                below,
            ).data.hash);
            assert(linked_chain(rows, below));
        }
    } else {
        if linked_chain(rows, height) {
            assert(has_block(rows, 0));
        }
    }
}

/// A database with a tip passes the check exactly if its chain is there and
/// linked, from the tip to the first block.
pub proof fn integrity_means_linked_chain(rows: Rows)
    requires
        tip_of(rows) matches Ok(Some(_)),
    ensures
        integrity(rows) is Ok <==> linked_chain(rows, tip_of(rows)->Ok_0->Some_0.0.0)
            && chain_block(rows, tip_of(rows)->Ok_0->Some_0.0.0).data.hash
            == tip_of(rows)->Ok_0->Some_0.1,
{
    let (height, hash) = tip_of(rows)->Ok_0->Some_0;
    links_means_linked_chain(rows, height.0, hash);
    if linked_chain(rows, height.0) {
        assert(has_block(rows, height.0));
        assert(Height(height.0) == height);
    }
}

/// The accounts in the first rows of a table, each under its own address.
pub open spec fn accounts_in(table: Seq<(Address, Stored<Account>)>) -> Result<
    Map<Address, Account>,
    StorageError,
>
    decreases table.len(),
{
    if table.len() == 0 {
        Ok(Map::empty())
    } else {
        let (key, row) = table.last();
        match accounts_in(table.drop_last()) {
            Err(error) => Err(error),
            Ok(earlier) => match row {
                Err(words) => Err(undecoded(words)),
                Ok(account) => if account.address != key {
                    Err(
                        StorageError::Integrity(
                            "stored account address does not match account key",
                        ),
                    )
                } else {
                    Ok(earlier.insert(key, account))
                },
            },
        }
    }
}

proof fn accounts_in_stops(table: Seq<(Address, Stored<Account>)>, k: int)
    requires
        0 <= k <= table.len(),
        accounts_in(table.take(k)) is Err,
    ensures
        accounts_in(table) == accounts_in(table.take(k)),
    decreases table.len(),
{
    if k == table.len() {
        assert(table.take(k) =~= table);
    } else {
        assert(table.drop_last().take(k) =~= table.take(k));
        accounts_in_stops(table.drop_last(), k);
    }
}

/// The blocks at the heights below `n`.
pub open spec fn blocks_below(rows: Rows, n: int) -> Result<Map<Height, Block>, StorageError>
    decreases n,
{
    if n <= 0 {
        Ok(Map::empty())
    } else {
        let height = Height((n - 1) as u64);
        match blocks_below(rows, n - 1) {
            Err(error) => Err(error),
            Ok(earlier) => match block_at(rows, height) {
                Err(error) => Err(error),
                Ok(None) => Err(StorageError::Integrity("stored chain block is missing")),
                Ok(Some(block)) => Ok(earlier.insert(height, block)),
            },
        }
    }
}

proof fn blocks_below_stops(rows: Rows, k: int, n: int)
    requires
        0 <= k <= n,
        blocks_below(rows, k) is Err,
    ensures
        blocks_below(rows, n) == blocks_below(rows, k),
    decreases n,
{
    if k < n {
        blocks_below_stops(rows, k, n - 1);
    }
}

/// The accounts and blocks of the stored ledger, if the stored chain is whole.
pub open spec fn ledger_in(rows: Rows) -> Result<
    (Map<Address, Account>, Map<Height, Block>),
    StorageError,
> {
    match integrity(rows) {
        Err(error) => Err(error),
        Ok(_) => match accounts_in(ordered_map::rows_of(rows.accounts)) {
            Err(error) => Err(error),
            Ok(accounts) => match tip_of(rows) {
                Err(error) => Err(error),
                Ok(None) => Ok((accounts, Map::empty())),
                Ok(Some((height, _))) => match blocks_below(rows, height.0 + 1) {
                    Err(error) => Err(error),
                    Ok(blocks) => Ok((accounts, blocks)),
                },
            },
        },
    }
}

/// The times of the first and the last block of a window that ends at the tip,
/// the number of blocks that it spans, and the difficulty at its end.
pub open spec fn window_at(rows: Rows, tip_height: Height, window: u64) -> Result<
    Option<(u64, u64, u64, u32)>,
    StorageError,
> {
    if window == 0 || tip_height.0 < window {
        Ok(None)
    } else {
        match block_at(rows, tip_height) {
            Err(error) => Err(error),
            Ok(None) => Ok(None),
            Ok(Some(tip)) => match block_at(rows, Height((tip_height.0 - window) as u64)) {
                Err(error) => Err(error),
                Ok(None) => Ok(None),
                Ok(Some(first)) => Ok(
                    Some((first.data.timestamp, tip.data.timestamp, window, tip.data.difficulty)),
                ),
            },
        }
    }
}

/// The blocks in the first rows of the table by hash.
pub open spec fn blocks_in(table: Seq<(Digest, Stored<Block>)>) -> Result<Seq<Block>, StorageError>
    decreases table.len(),
{
    if table.len() == 0 {
        Ok(Seq::empty())
    } else {
        let (key, row) = table.last();
        match blocks_in(table.drop_last()) {
            Err(error) => Err(error),
            Ok(earlier) => match row {
                Err(words) => Err(undecoded(words)),
                Ok(block) => if block.data.hash != key {
                    Err(StorageError::Integrity("stored block hash does not match hash key"))
                } else {
                    Ok(earlier.push(block))
                },
            },
        }
    }
}

proof fn blocks_in_stops(table: Seq<(Digest, Stored<Block>)>, k: int)
    requires
        0 <= k <= table.len(),
        blocks_in(table.take(k)) is Err,
    ensures
        blocks_in(table) == blocks_in(table.take(k)),
    decreases table.len(),
{
    if k == table.len() {
        assert(table.take(k) =~= table);
    } else {
        assert(table.drop_last().take(k) =~= table.take(k));
        blocks_in_stops(table.drop_last(), k);
    }
}

impl Storage {
    /// Opens a database on the rows that were read. An empty one gets the
    /// version of the layout, another has to have it.
    pub fn open(tables: Tables) -> (r: Result<Self, StorageError>)
        requires
            tables.wf(),
        ensures
            match r {
                Ok(storage) => storage.wf() && (storage@, Ok::<(), StorageError>(())) == versioned(
                    tables@,
                ) && tables::covered(tables@, storage@, storage.changes@),
                Err(error) => versioned(tables@).1 == Err::<(), StorageError>(error),
            },
    {
        let mut storage = Storage { tables, changes: Vec::new() };
        let ghost before = storage;
        match storage.ensure_storage_version() {
            Ok(()) => {
                proof {
                    assert(storage.changes@.skip(0) =~= storage.changes@);
                }
                Ok(storage)
            },
            Err(error) => Err(error),
        }
    }

    /// An empty database that nothing writes down.
    pub fn temporary() -> (r: Result<Self, StorageError>)
        ensures
            r matches Ok(storage) && storage.wf() && storage@.has_no_rows()
                && storage@.storage_version == Some(seq![STORAGE_VERSION])
                && storage@.tip_height is None && storage@.tip_hash is None,
    {
        Storage::open(Tables::new())
    }

    /// The changed places, in the order of the changes. They count as written
    /// down from now on.
    pub fn take_changes(&mut self) -> (r: Vec<Change>)
        ensures
            final(self).tables == old(self).tables,
            final(self).changes@ == Seq::<Change>::empty(),
            r@ == old(self).changes@,
    {
        let mut taken: Vec<Change> = Vec::new();
        std::mem::swap(&mut taken, &mut self.changes);
        taken
    }

    /// The version of the layout.
    pub fn load_storage_version(&self) -> (r: Result<Option<u8>, StorageError>)
        ensures
            r == (match self@.storage_version {
                None => Ok::<Option<u8>, StorageError>(None),
                Some(value) => if value.len() == 1 {
                    Ok(Some(value[0]))
                } else {
                    Err(of_wrong_length(value.len(), 1))
                },
            }),
    {
        match &self.tables.storage_version {
            None => Ok(None),
            Some(value) => match codec::decode_u8(value.as_slice()) {
                Ok(version) => Ok(Some(version)),
                Err(words) => Err(
                    StorageError::Serialization(SerializationError::Reason(words)),
                ),
            },
        }
    }

    fn is_empty_database(&self) -> (r: bool)
        requires
            self.wf(),
        ensures
            r == self@.has_no_rows(),
    {
        proof {
            tables::no_rows_no_bytes(self.tables.tx_index@);
            tables::no_rows_no_bytes(self.tables.address_tx_index@);
        }
        self.tables.blocks_by_height.is_empty() && self.tables.blocks_by_hash.is_empty()
            && self.tables.accounts.is_empty() && self.tables.genesis_accounts.is_none()
            && self.tables.state_snapshots.is_empty() && self.tables.tx_index.is_empty()
            && self.tables.address_tx_index.is_empty()
    }

    /// Gives an empty database the version of the layout, and checks that
    /// another has it.
    pub fn ensure_storage_version(&mut self) -> (r: Result<(), StorageError>)
        requires
            old(self).wf(),
        ensures
            final(self).wf(),
            (final(self)@, r) == versioned(old(self)@),
            journaled(*old(self), *final(self)),
    {
        proof {
            journaled_reflexive(*self);
        }
        match self.load_storage_version() {
            Err(error) => Err(error),
            Ok(Some(found)) => {
                if found == STORAGE_VERSION {
                    Ok(())
                } else {
                    Err(
                        StorageError::UnsupportedStorageVersion {
                            expected: STORAGE_VERSION,
                            found,
                        },
                    )
                }
            },
            Ok(None) => {
                if self.is_empty_database() {
                    self.save_storage_version(STORAGE_VERSION);
                    Ok(())
                } else {
                    Err(StorageError::MissingStorageVersion)
                }
            },
        }
    }

    /// Writes where a block's transactions stand.
    fn index_block_transactions(&mut self, block: &Block)
        requires
            old(self).wf(),
            can_index(*block),
        ensures
            final(self).wf(),
            final(self)@ == (Rows {
                tx_index: with_transactions(
                    old(self)@.tx_index,
                    *block,
                    block.data.transactions@.len() as int,
                ),
                address_tx_index: with_address_transactions(
                    old(self)@.address_tx_index,
                    *block,
                    block.data.transactions@.len() as int,
                ),
                ..old(self)@
            }),
            journaled(*old(self), *final(self)),
    {
        let count: usize = block.transaction_count();
        let ghost start = *self;
        let mut i: usize = 0;
        proof {
            journaled_reflexive(*self);
        }
        while i < count
            invariant
                count == block.data.transactions@.len(),
                can_index(*block),
                i <= count,
                self.wf(),
                self@ == (Rows {
                    tx_index: with_transactions(start@.tx_index, *block, i as int),
                    address_tx_index: with_address_transactions(
                        start@.address_tx_index,
                        *block,
                        i as int,
                    ),
                    ..start@
                }),
                journaled(start, *self),
            decreases count - i,
        {
            let ghost before = *self;
            let transaction = block.transaction(i);
            let tx_index: u32 = i as u32;
            self.put_transaction(
                transaction.hash(),
                TransactionLocation {
                    block_height: block.height(),
                    block_hash: block.hash(),
                    tx_index,
                },
            );
            let ghost first = *self;
            let sent_location = AddressTransactionLocation {
                tx_hash: transaction.hash(),
                block_height: block.height(),
                block_hash: block.hash(),
                tx_index,
                sent: true,
            };
            self.put_address_transaction(
                AddressTxKey {
                    address: transaction.transaction.from,
                    height: block.height(),
                    tx_index,
                    sent: true,
                },
                sent_location,
            );
            let ghost second = *self;
            proof {
                journaled_transitive(start, before, first);
                journaled_transitive(start, first, second);
            }
            if !transaction.transaction.to.same(&transaction.transaction.from) {
                let received_location = AddressTransactionLocation {
                    tx_hash: transaction.hash(),
                    block_height: block.height(),
                    block_hash: block.hash(),
                    tx_index,
                    sent: false,
                };
                self.put_address_transaction(
                    AddressTxKey {
                        address: transaction.transaction.to,
                        height: block.height(),
                        tx_index,
                        sent: false,
                    },
                    received_location,
                );
                proof {
                    journaled_transitive(start, second, *self);
                }
            }
            i = i + 1;
        }
    }

    /// Writes a block of the active chain, and where its transactions stand.
    pub fn save_block(&mut self, block: &Block) -> (r: Result<(), StorageError>)
        requires
            old(self).wf(),
        ensures
            final(self).wf(),
            can_index(*block) ==> r == Ok::<(), StorageError>(()) && final(self)@ == with_block(
                old(self)@,
                *block,
            ),
            !can_index(*block) ==> r == Err::<(), StorageError>(
                StorageError::Integrity("transaction index exceeds u32"),
            ) && final(self)@ == old(self)@,
            journaled(*old(self), *final(self)),
    {
        proof {
            journaled_reflexive(*self);
        }
        if block.transaction_count() as u64 > 0x1_0000_0000u64 {
            return Err(StorageError::Integrity("transaction index exceeds u32"));
        }
        let ghost start = *self;
        self.put_block_by_height(block);
        let ghost first = *self;
        self.put_block_by_hash(block);
        let ghost second = *self;
        self.index_block_transactions(block);
        proof {
            journaled_transitive(start, first, second);
            journaled_transitive(start, second, *self);
        }
        Ok(())
    }

    /// Writes a block that is not on the active chain.
    pub fn save_side_block(&mut self, block: &Block)
        requires
            old(self).wf(),
        ensures
            final(self).wf(),
            final(self)@ == (Rows {
                blocks_by_hash: old(self)@.blocks_by_hash.insert(block.data.hash, Ok(*block)),
                ..old(self)@
            }),
            journaled(*old(self), *final(self)),
    {
        self.put_block_by_hash(block);
    }

    /// The block at a height of the active chain.
    pub fn load_block_by_height(&self, height: BlockHeight) -> (r: Result<
        Option<Block>,
        StorageError,
    >)
        requires
            self.wf(),
        ensures
            r == block_at(self@, height),
    {
        match read_block(&self.tables.blocks_by_height, &height) {
            Ok(Some(block)) => {
                if block.height().0 != height.0 {
                    Err(StorageError::Integrity("stored block height does not match height key"))
                } else {
                    Ok(Some(block))
                }
            },
            other => other,
        }
    }

    /// The block with a hash.
    pub fn load_block_by_hash(&self, hash: &BlockHash) -> (r: Result<Option<Block>, StorageError>)
        requires
            self.wf(),
        ensures
            r == block_with(self@, *hash),
    {
        match read_block(&self.tables.blocks_by_hash, hash) {
            Ok(Some(block)) => {
                if !block.hash().same(hash) {
                    Err(StorageError::Integrity("stored block hash does not match hash key"))
                } else {
                    Ok(Some(block))
                }
            },
            other => other,
        }
    }

    /// All blocks, in the order of their hashes.
    pub fn load_blocks_by_hash(&self) -> (r: Result<Vec<Block>, StorageError>)
        requires
            self.wf(),
        ensures
            match r {
                Ok(blocks) => blocks_in(ordered_map::rows_of(self@.blocks_by_hash)) == Ok::<
                    Seq<Block>,
                    StorageError,
                >(blocks@),
                Err(error) => blocks_in(ordered_map::rows_of(self@.blocks_by_hash)) == Err::<
                    Seq<Block>,
                    StorageError,
                >(error),
            },
    {
        let ghost table = self.tables.blocks_by_hash.rows();
        proof {
            ordered_map::rows_are_rows_of(table);
        }
        let mut blocks: Vec<Block> = Vec::new();
        let mut i: usize = 0;
        while i < self.tables.blocks_by_hash.len()
            invariant
                table == self.tables.blocks_by_hash.rows(),
                table == ordered_map::rows_of(self@.blocks_by_hash),
                i <= table.len(),
                blocks_in(table.take(i as int)) == Ok::<Seq<Block>, StorageError>(blocks@),
            decreases table.len() - i,
        {
            proof {
                assert(table.take(i + 1).drop_last() =~= table.take(i as int));
                if blocks_in(table.take(i + 1)) is Err {
                    blocks_in_stops(table, i + 1);
                }
            }
            let key = self.tables.blocks_by_hash.key(i);
            match self.tables.blocks_by_hash.value(i) {
                Err(words) => {
                    return Err(undecoded_row(words));
                },
                Ok(block) => {
                    if !block.hash().same(&key) {
                        return Err(
                            StorageError::Integrity("stored block hash does not match hash key"),
                        );
                    }
                    blocks.push(block.clone());
                },
            }
            i = i + 1;
        }
        proof {
            assert(table.take(i as int) =~= table);
        }
        Ok(blocks)
    }

    /// Where a transaction stands.
    pub fn load_transaction_location(&self, hash: &TransactionHash) -> (r: Result<
        Option<TransactionLocation>,
        StorageError,
    >)
        requires
            self.wf(),
        ensures
            r == location_with(self@, *hash),
    {
        match self.tables.tx_index.get(hash) {
            None => Ok(None),
            Some(row) => match tables::decode_location(row.as_slice()) {
                Ok(location) => Ok(Some(location)),
                Err(error) => Err(StorageError::Serialization(error)),
            },
        }
    }

    /// A transaction of the active chain, and where it stands.
    pub fn load_transaction(&self, hash: &TransactionHash) -> (r: Result<
        Option<(TransactionLocation, SignedTransaction)>,
        StorageError,
    >)
        requires
            self.wf(),
        ensures
            r == transaction_with(self@, *hash),
    {
        let location = match self.load_transaction_location(hash) {
            Err(error) => {
                return Err(error);
            },
            Ok(None) => {
                return Ok(None);
            },
            Ok(Some(location)) => location,
        };
        let block = match self.load_block_by_height(location.block_height) {
            Err(error) => {
                return Err(error);
            },
            Ok(None) => {
                return Err(StorageError::Integrity("indexed transaction block is missing"));
            },
            Ok(Some(block)) => block,
        };
        if !block.hash().same(&location.block_hash) {
            return Err(StorageError::Integrity("indexed transaction block hash mismatch"));
        }
        if location.tx_index as u64 >= block.transaction_count() as u64 {
            return Err(StorageError::Integrity("indexed transaction position is missing"));
        }
        let transaction = block.transaction(location.tx_index as usize);
        if !transaction.hash().same(hash) {
            return Err(
                StorageError::Integrity("indexed transaction hash does not match transaction"),
            );
        }
        Ok(Some((location, transaction)))
    }

    /// Where the transactions of an address stand, in the order of the chain.
    pub fn load_address_transaction_locations(&self, address: &Address) -> (r: Result<
        Vec<AddressTransactionLocation>,
        StorageError,
    >)
        requires
            self.wf(),
        ensures
            match locations_under(ordered_map::rows_of(self@.address_tx_index), *address) {
                Ok(found) => r matches Ok(locations) && locations@ == sort::stable_sorted::<
                    AddressTransactionLocation,
                    ByPosition,
                >(found),
                Err(error) => r == Err::<Vec<AddressTransactionLocation>, StorageError>(error),
            },
    {
        let ghost index = tables::bytes_in_order(self.tables.address_tx_index.rows());
        proof {
            tables::bytes_keep_their_order(self.tables.address_tx_index.rows());
        }
        let mut found: Vec<AddressTransactionLocation> = Vec::new();
        let mut i: usize = 0;
        while i < self.tables.address_tx_index.len()
            invariant
                index == tables::bytes_in_order(self.tables.address_tx_index.rows()),
                index == ordered_map::rows_of(self@.address_tx_index),
                i <= index.len(),
                locations_under(index.take(i as int), *address) == Ok::<
                    Seq<AddressTransactionLocation>,
                    StorageError,
                >(found@),
            decreases index.len() - i,
        {
            proof {
                assert(index.take(i + 1).drop_last() =~= index.take(i as int));
                if locations_under(index.take(i + 1), *address) is Err {
                    locations_under_stops(index, *address, i + 1);
                }
            }
            let key = self.tables.address_tx_index.key(i);
            if key.address.same(address) {
                let row: &Vec<u8> = self.tables.address_tx_index.value(i);
                match tables::decode_address_location(row.as_slice()) {
                    Err(error) => {
                        return Err(StorageError::Serialization(error));
                    },
                    Ok(location) => {
                        found.push(location);
                    },
                }
            }
            i = i + 1;
        }
        proof {
            assert(index.take(i as int) =~= index);
        }
        Ok(sort::stable_sort::<AddressTransactionLocation, ByPosition>(found))
    }

    /// A stored account.
    pub fn load_account(&self, address: &Address) -> (r: Result<Option<Account>, StorageError>)
        requires
            self.wf(),
        ensures
            r == read_row(self@.accounts, *address),
    {
        read_value(&self.tables.accounts, address)
    }

    /// The accounts of the beginning.
    pub fn load_genesis_accounts(&self) -> (r: Result<Option<Arc<AccountMap>>, StorageError>)
        ensures
            r == (match self@.genesis_accounts {
                None => Ok::<Option<Arc<AccountMap>>, StorageError>(None),
                Some(Ok(accounts)) => Ok(Some(accounts)),
                Some(Err(words)) => Err(undecoded(words)),
            }),
    {
        match &self.tables.genesis_accounts {
            None => Ok(None),
            Some(row) => match row {
                Ok(accounts) => Ok(Some(types::share(accounts))),
                Err(words) => Err(undecoded_row(words)),
            },
        }
    }

    /// Writes the snapshot of a ledger, if it has a tip.
    pub fn save_state_snapshot(&mut self, ledger: &Ledger)
        requires
            old(self).wf(),
            ledger.wf(),
        ensures
            final(self).wf(),
            final(self)@ == with_snapshot(old(self)@, *ledger),
            journaled(*old(self), *final(self)),
    {
        proof {
            journaled_reflexive(*self);
        }
        if let Some(height) = ledger.tip_height() {
            if let Some(block_hash) = ledger.tip_hash() {
                self.put_snapshot(
                    StateSnapshot {
                        height,
                        block_hash,
                        state_root: ledger.state_root,
                        accounts: types::share(&ledger.accounts),
                        accounts_root: ledger.state_root,
                    },
                );
            }
        }
    }

    /// The snapshot at a height. Its accounts have to have the claimed root.
    pub fn load_state_snapshot(&self, height: BlockHeight) -> (r: Result<
        Option<StateSnapshot>,
        StorageError,
    >)
        requires
            self.wf(),
        ensures
            r == (match read_row(self@.state_snapshots, height) {
                Ok(Some(snapshot)) => if snapshot.height != height {
                    Err(
                        StorageError::Integrity(
                            "stored state snapshot height does not match height key",
                        ),
                    )
                } else if !snapshot.root_holds() {
                    Err(
                        StorageError::Integrity(
                            "stored state snapshot root does not match accounts",
                        ),
                    )
                } else {
                    Ok(Some(snapshot))
                },
                other => other,
            }),
    {
        match self.tables.state_snapshots.get(&height) {
            None => Ok(None),
            Some(row) => match row {
                Err(words) => Err(undecoded_row(words)),
                Ok(snapshot) => {
                    if snapshot.height.0 != height.0 {
                        Err(
                            StorageError::Integrity(
                                "stored state snapshot height does not match height key",
                            ),
                        )
                    } else if !snapshot.verify_state_root() {
                        Err(
                            StorageError::Integrity(
                                "stored state snapshot root does not match accounts",
                            ),
                        )
                    } else {
                        Ok(Some(snapshot.clone()))
                    }
                },
            },
        }
    }

    /// The stored tip.
    pub fn load_tip(&self) -> (r: Result<Option<(BlockHeight, BlockHash)>, StorageError>)
        ensures
            tip_reads(self@, r),
            r == tip_of(self@),
    {
        let r = self.read_tip();
        proof {
            tip_is_read(self@, r);
        }
        r
    }

    fn read_tip(&self) -> (r: Result<Option<(BlockHeight, BlockHash)>, StorageError>)
        ensures
            tip_reads(self@, r),
    {
        let height_bytes = match &self.tables.tip_height {
            None => {
                return Ok(None);
            },
            Some(value) => value,
        };
        let hash_bytes = match &self.tables.tip_hash {
            None => {
                return Ok(None);
            },
            Some(value) => value,
        };
        proof {
            bytes::lemma_auto_spec_u64_to_from_le_bytes();
        }
        let height: u64 = match codec::decode_u64(height_bytes.as_slice()) {
            Ok(height) => height,
            Err(words) => {
                return Err(StorageError::Serialization(SerializationError::Reason(words)));
            },
        };
        match types::hash_from_slice(hash_bytes.as_slice()) {
            Some(hash) => Ok(Some((Height(height), hash))),
            None => Err(
                StorageError::Serialization(
                    SerializationError::Reason("stored tip hash has invalid length"),
                ),
            ),
        }
    }

    /// Writes a whole ledger. What was known of where transactions stand gives
    /// way to the ledger's own blocks.
    pub fn save_ledger(&mut self, ledger: &Ledger) -> (r: Result<(), StorageError>)
        requires
            old(self).wf(),
            ledger.wf(),
        ensures
            final(self).wf(),
            final(self)@ == with_ledger(old(self)@, *ledger).0,
            r == if with_ledger(old(self)@, *ledger).1 {
                Ok::<(), StorageError>(())
            } else {
                Err(StorageError::Integrity("transaction index exceeds u32"))
            },
            journaled(*old(self), *final(self)),
    {
        let ghost start = *self;
        let ghost accounts = ledger.accounts.rows();
        let ghost blocks = ledger.blocks.rows();
        let mut i: usize = 0;
        proof {
            journaled_reflexive(*self);
        }
        while i < ledger.accounts.len()
            invariant
                accounts == ledger.accounts.rows(),
                i <= accounts.len(),
                self.wf(),
                self@ == with_accounts(start@, accounts, i as int),
                journaled(start, *self),
            decreases accounts.len() - i,
        {
            let ghost before = *self;
            self.save_account(ledger.accounts.value(i));
            proof {
                journaled_transitive(start, before, *self);
            }
            i = i + 1;
        }
        let ghost before = *self;
        self.clear_transaction_indexes();
        proof {
            journaled_transitive(start, before, *self);
        }
        let ghost cleared = self@;
        let mut j: usize = 0;
        while j < ledger.blocks.len()
            invariant
                blocks == ledger.blocks.rows(),
                accounts == ledger.accounts.rows(),
                cleared == without_indexes(with_accounts(start@, accounts, accounts.len() as int)),
                j <= blocks.len(),
                self.wf(),
                with_blocks(cleared, blocks, j as int) == (self@, true),
                start == *old(self),
                journaled(start, *self),
            decreases blocks.len() - j,
        {
            let ghost before = *self;
            let saved = self.save_block(ledger.blocks.value(j));
            proof {
                journaled_transitive(start, before, *self);
            }
            match saved {
                Ok(()) => {},
                Err(error) => {
                    proof {
                        with_blocks_stops(cleared, blocks, j + 1, blocks.len() as int);
                    }
                    return Err(error);
                },
            }
            j = j + 1;
        }
        if let Some(height) = ledger.tip_height() {
            if let Some(hash) = ledger.tip_hash() {
                let ghost before = *self;
                self.save_tip(height, &hash);
                let ghost tipped = *self;
                self.save_state_snapshot(ledger);
                let ghost pictured = *self;
                proof {
                    journaled_transitive(start, before, tipped);
                    journaled_transitive(start, tipped, pictured);
                }
                if height.0 == 0 {
                    self.save_genesis_accounts(&ledger.accounts);
                    proof {
                        journaled_transitive(start, pictured, *self);
                    }
                }
            }
        }
        Ok(())
    }

    /// Checks that the stored chain is whole from the tip to the first block.
    pub fn validate_chain_integrity(&self) -> (r: Result<(), StorageError>)
        requires
            self.wf(),
        ensures
            r == integrity(self@),
    {
        let (tip_height, tip_hash) = match self.load_tip() {
            Err(error) => {
                return Err(error);
            },
            Ok(None) => {
                return Ok(());
            },
            Ok(Some(tip)) => tip,
        };
        match self.load_block_by_height(tip_height) {
            Err(error) => {
                return Err(error);
            },
            Ok(None) => {
                return Err(StorageError::Integrity("stored tip height block is missing"));
            },
            Ok(Some(tip_block)) => {
                if !tip_block.hash().same(&tip_hash) {
                    return Err(
                        StorageError::Integrity("stored tip hash does not match tip height block"),
                    );
                }
            },
        }
        let mut expected_hash = tip_hash;
        let mut height: u64 = tip_height.0;
        loop
            invariant
                self.wf(),
                integrity(self@) == links(self@, height, expected_hash),
            decreases height,
        {
            let block = match self.load_block_by_height(Height(height)) {
                Err(error) => {
                    return Err(error);
                },
                Ok(None) => {
                    return Err(StorageError::Integrity("stored chain block is missing"));
                },
                Ok(Some(block)) => block,
            };
            if !block.hash().same(&expected_hash) {
                return Err(
                    StorageError::Integrity("stored chain block hash does not match expected hash"),
                );
            }
            if height == 0 {
                if !block.previous_hash().is_zero() {
                    return Err(
                        StorageError::Integrity("stored genesis block previous hash is not zero"),
                    );
                }
                return Ok(());
            }
            let previous = match self.load_block_by_height(Height(height - 1)) {
                Err(error) => {
                    return Err(error);
                },
                Ok(None) => {
                    return Err(StorageError::Integrity("stored previous chain block is missing"));
                },
                Ok(Some(previous)) => previous,
            };
            if !block.previous_hash().same(&previous.hash()) {
                return Err(StorageError::Integrity("stored chain block previous hash is broken"));
            }
            expected_hash = previous.hash();
            height = height - 1;
        }
    }

    /// The stored ledger, if the layout has the right version and the stored
    /// chain is whole. `state_root` is the root of the stored accounts.
    pub fn load_ledger(&mut self, state_root: Digest) -> (r: Result<Ledger, StorageError>)
        requires
            old(self).wf(),
        ensures
            final(self).wf(),
            final(self)@ == versioned(old(self)@).0,
            journaled(*old(self), *final(self)),
            match versioned(old(self)@).1 {
                Err(error) => r == Err::<Ledger, StorageError>(error),
                Ok(_) => match ledger_in(final(self)@) {
                    Err(error) => r == Err::<Ledger, StorageError>(error),
                    Ok((accounts, blocks)) => r matches Ok(ledger) && ledger.wf()
                        && ledger.accounts@ == accounts && ledger.blocks@ == blocks
                        && ledger.state_root == state_root,
                },
            },
    {
        match self.ensure_storage_version() {
            Err(error) => {
                return Err(error);
            },
            Ok(()) => {},
        }
        match self.validate_chain_integrity() {
            Err(error) => {
                return Err(error);
            },
            Ok(()) => {},
        }
        let accounts = match self.load_accounts() {
            Err(error) => {
                return Err(error);
            },
            Ok(accounts) => accounts,
        };
        let blocks = match self.load_tip() {
            Err(error) => {
                return Err(error);
            },
            Ok(None) => OrderedMap::new(),
            Ok(Some((tip_height, _))) => match self.load_chain(tip_height) {
                Err(error) => {
                    return Err(error);
                },
                Ok(blocks) => blocks,
            },
        };
        Ok(Ledger { accounts: Arc::new(accounts), blocks, state_root })
    }

    fn load_accounts(&self) -> (r: Result<AccountMap, StorageError>)
        requires
            self.wf(),
        ensures
            match accounts_in(ordered_map::rows_of(self@.accounts)) {
                Err(error) => r == Err::<AccountMap, StorageError>(error),
                Ok(accounts) => r matches Ok(loaded) && loaded.wf() && loaded@ == accounts,
            },
    {
        let ghost table = self.tables.accounts.rows();
        proof {
            ordered_map::rows_are_rows_of(table);
        }
        let mut accounts: AccountMap = OrderedMap::new();
        let mut i: usize = 0;
        while i < self.tables.accounts.len()
            invariant
                table == self.tables.accounts.rows(),
                table == ordered_map::rows_of(self@.accounts),
                i <= table.len(),
                accounts.wf(),
                accounts_in(table.take(i as int)) == Ok::<Map<Address, Account>, StorageError>(
                    accounts@,
                ),
            decreases table.len() - i,
        {
            proof {
                assert(table.take(i + 1).drop_last() =~= table.take(i as int));
                if accounts_in(table.take(i + 1)) is Err {
                    accounts_in_stops(table, i + 1);
                }
            }
            let key = self.tables.accounts.key(i);
            match self.tables.accounts.value(i) {
                Err(words) => {
                    return Err(undecoded_row(words));
                },
                Ok(account) => {
                    if !account.address.same(&key) {
                        return Err(
                            StorageError::Integrity(
                                "stored account address does not match account key",
                            ),
                        );
                    }
                    accounts.insert(account.address, *account);
                },
            }
            i = i + 1;
        }
        proof {
            assert(table.take(i as int) =~= table);
        }
        Ok(accounts)
    }

    fn load_chain(&self, tip_height: Height) -> (r: Result<
        OrderedMap<Height, Block>,
        StorageError,
    >)
        requires
            self.wf(),
        ensures
            match blocks_below(self@, tip_height.0 + 1) {
                Err(error) => r == Err::<OrderedMap<Height, Block>, StorageError>(error),
                Ok(blocks) => r matches Ok(loaded) && loaded.wf() && loaded@ == blocks,
            },
    {
        let mut blocks: OrderedMap<Height, Block> = OrderedMap::new();
        let mut height: u64 = 0;
        loop
            invariant
                self.wf(),
                height <= tip_height.0,
                blocks.wf(),
                blocks_below(self@, height as int) == Ok::<Map<Height, Block>, StorageError>(
                    blocks@,
                ),
            decreases tip_height.0 - height,
        {
            proof {
                if blocks_below(self@, height + 1) is Err {
                    blocks_below_stops(self@, height + 1, tip_height.0 + 1);
                }
            }
            match self.load_block_by_height(Height(height)) {
                Err(error) => {
                    return Err(error);
                },
                Ok(None) => {
                    return Err(StorageError::Integrity("stored chain block is missing"));
                },
                Ok(Some(block)) => {
                    blocks.insert(Height(height), block);
                },
            }
            if height == tip_height.0 {
                return Ok(blocks);
            }
            height = height + 1;
        }
    }

    /// The times of the first and the last block of a window that ends at the
    /// tip, the number of blocks that it spans, and the difficulty at its end.
    pub fn difficulty_window(&self, tip_height: BlockHeight, window: u64) -> (r: Result<
        Option<(u64, u64, u64, u32)>,
        StorageError,
    >)
        requires
            self.wf(),
        ensures
            r == window_at(self@, tip_height, window),
    {
        if window == 0 || tip_height.0 < window {
            return Ok(None);
        }
        let tip = match self.load_block_by_height(tip_height) {
            Err(error) => {
                return Err(error);
            },
            Ok(None) => {
                return Ok(None);
            },
            Ok(Some(tip)) => tip,
        };
        let first_height: u64 = tip_height.0 - window;
        let first = match self.load_block_by_height(Height(first_height)) {
            Err(error) => {
                return Err(error);
            },
            Ok(None) => {
                return Ok(None);
            },
            Ok(Some(first)) => first,
        };
        let block_count: u64 = tip_height.0 - first_height;
        Ok(Some((first.timestamp(), tip.timestamp(), block_count, tip.difficulty())))
    }
}

proof fn with_blocks_stops(rows: Rows, blocks: Seq<(Height, Block)>, k: int, n: int)
    requires
        0 <= k <= n,
        !with_blocks(rows, blocks, k).1,
    ensures
        with_blocks(rows, blocks, n) == with_blocks(rows, blocks, k),
    decreases n,
{
    if k < n {
        with_blocks_stops(rows, blocks, k, n - 1);
    }
}

} // verus!
