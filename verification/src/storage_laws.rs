//! What a reader of the database finds of what was written.

use crate::ledger::Ledger;
use crate::ordered_map;
use crate::params::STORAGE_VERSION;
use crate::storage::{self, SerializationError, Storage, StorageError};
use crate::tables::{self, AddressTransactionLocation, Rows, Stored, TransactionLocation};
use crate::types::{self, Account, Address, Block, Digest, Height};
use vstd::bytes;
use vstd::prelude::*;

verus! {

/// A written block is read back by its height and by its hash, and no other
/// height reads differently.
pub proof fn saved_block_is_read(rows: Rows, block: Block, other: Height)
    ensures
        storage::block_at(storage::with_block(rows, block), block.data.height) == Ok::<
            Option<Block>,
            StorageError,
        >(Some(block)),
        storage::block_with(storage::with_block(rows, block), block.data.hash) == Ok::<
            Option<Block>,
            StorageError,
        >(Some(block)),
        other != block.data.height ==> storage::block_at(storage::with_block(rows, block), other)
            == storage::block_at(rows, other),
{
}

/// A written tip is read back.
pub proof fn saved_tip_is_read(rows: Rows, height: Height, hash: Digest)
    ensures
        storage::tip_of(storage::with_tip(rows, height, hash)) == Ok::<
            Option<(Height, Digest)>,
            StorageError,
        >(Some((height, hash))),
{
    bytes::lemma_auto_spec_u64_to_from_le_bytes();
    let tipped = storage::with_tip(rows, height, hash);
    let right = Ok::<Option<(Height, Digest)>, StorageError>(Some((height, hash)));
    assert(storage::tip_reads(tipped, right));
    let read = storage::tip_of(tipped);
    assert(storage::tip_reads(tipped, read));
    types::hash_is_its_bytes(read->Ok_0->Some_0.1, hash);
}

proof fn transactions_are_indexed(rows: Rows, block: Block, i: int, n: int)
    requires
        0 <= i < n <= block.data.transactions@.len(),
        forall|j: int, k: int|
            0 <= j < k < block.data.transactions@.len() ==> (
            #[trigger] block.data.transactions@[j]).hash != (
            #[trigger] block.data.transactions@[k]).hash,
    ensures
        storage::with_transactions(rows.tx_index, block, n).contains_key(
            block.data.transactions@[i].hash,
        ),
        storage::with_transactions(rows.tx_index, block, n)[block.data.transactions@[i].hash]
            == tables::location_bytes(storage::location_of(block, i)),
    decreases n,
{
    if i < n - 1 {
        assert(block.data.transactions@[i].hash != block.data.transactions@[n - 1].hash);
        transactions_are_indexed(rows, block, i, n - 1);
    }
}

/// Every transaction of a written block is found by its hash, where it stands,
/// if no two transactions of the block have one hash.
pub proof fn saved_transaction_is_found(rows: Rows, block: Block, i: int)
    requires
        storage::can_index(block),
        0 <= i < block.data.transactions@.len(),
        forall|j: int, k: int|
            0 <= j < k < block.data.transactions@.len() ==> (
            #[trigger] block.data.transactions@[j]).hash != (
            #[trigger] block.data.transactions@[k]).hash,
    ensures
        storage::transaction_with(
            storage::with_block(rows, block),
            block.data.transactions@[i].hash,
        ) == Ok::<
            Option<(TransactionLocation, crate::types::SignedTransaction)>,
            StorageError,
        >(Some((storage::location_of(block, i), block.data.transactions@[i]))),
{
    transactions_are_indexed(rows, block, i, block.data.transactions@.len() as int);
    tables::written_location_is_read(storage::location_of(block, i));
    saved_block_is_read(rows, block, block.data.height);
}

proof fn address_transactions_are_indexed(rows: Rows, block: Block, i: int, n: int)
    requires
        storage::can_index(block),
        0 <= i < n <= block.data.transactions@.len(),
    ensures
        ({
            let index = storage::with_address_transactions(rows.address_tx_index, block, n);
            let payload = block.data.transactions@[i].transaction;
            let sent = storage::address_key_of(payload.from, block, i, true);
            let received = storage::address_key_of(payload.to, block, i, false);
            &&& index.contains_key(sent)
            &&& index[sent] == tables::address_location_bytes(
                storage::address_location_of(block, i, true),
            )
            &&& payload.to != payload.from ==> index.contains_key(received) && index[received]
                == tables::address_location_bytes(storage::address_location_of(block, i, false))
        }),
    decreases n,
{
    if i < n - 1 {
        assert(i as u32 != (n - 1) as u32);
        address_transactions_are_indexed(rows, block, i, n - 1);
    }
}

/// Every transaction of a written block stands in the index under its sender
/// and, if that is another, under its receiver, and is read there as it was
/// written.
pub proof fn saved_transaction_is_found_by_address(rows: Rows, block: Block, i: int)
    requires
        storage::can_index(block),
        0 <= i < block.data.transactions@.len(),
    ensures
        ({
            let index = storage::with_block(rows, block).address_tx_index;
            let payload = block.data.transactions@[i].transaction;
            let sent = storage::address_key_of(payload.from, block, i, true);
            let received = storage::address_key_of(payload.to, block, i, false);
            &&& index.contains_key(sent)
            &&& tables::address_location_in(index[sent]) == Ok::<
                AddressTransactionLocation,
                SerializationError,
            >(storage::address_location_of(block, i, true))
            &&& payload.to != payload.from ==> index.contains_key(received)
                && tables::address_location_in(index[received]) == Ok::<
                AddressTransactionLocation,
                SerializationError,
            >(storage::address_location_of(block, i, false))
        }),
{
    address_transactions_are_indexed(rows, block, i, block.data.transactions@.len() as int);
    tables::written_address_location_is_read(storage::address_location_of(block, i, true));
    tables::written_address_location_is_read(storage::address_location_of(block, i, false));
}

/// The blocks of a ledger form a chain: one at every height up to the tip, each
/// naming the one below, the first naming none.
pub open spec fn is_chain(ledger: Ledger) -> bool {
    let blocks = ledger.blocks.rows();
    &&& 0 < blocks.len() <= u64::MAX
    &&& forall|i: int|
        0 <= i < blocks.len() ==> (#[trigger] blocks[i]).0 == Height(i as u64)
            && blocks[i].1.data.height == Height(i as u64) && storage::can_index(blocks[i].1)
    &&& forall|i: int|
        0 < i < blocks.len() ==> (#[trigger] blocks[i]).1.data.previous_hash == blocks[i
            - 1].1.data.hash
    &&& blocks[0].1.data.previous_hash.is_zero_spec()
}

proof fn chain_blocks_are_stored(rows: Rows, blocks: Seq<(Height, Block)>, n: int)
    requires
        0 <= n <= blocks.len() <= u64::MAX,
        forall|i: int|
            0 <= i < blocks.len() ==> (#[trigger] blocks[i]).0 == Height(i as u64)
                && blocks[i].1.data.height == Height(i as u64) && storage::can_index(blocks[i].1),
    ensures
        storage::with_blocks(rows, blocks, n).1,
        forall|i: int|
            0 <= i < n ==> storage::block_at(
                storage::with_blocks(rows, blocks, n).0,
                (#[trigger] blocks[i]).0,
            ) == Ok::<Option<Block>, StorageError>(Some(blocks[i].1)),
        storage::with_blocks(rows, blocks, n).0.accounts == rows.accounts,
    decreases n,
{
    if n > 0 {
        chain_blocks_are_stored(rows, blocks, n - 1);
        let earlier = storage::with_blocks(rows, blocks, n - 1).0;
        let block = blocks[n - 1].1;
        assert(blocks[n - 1].0 == Height((n - 1) as u64));
        saved_block_is_read(earlier, block, block.data.height);
        assert forall|i: int| 0 <= i < n implies storage::block_at(
            storage::with_blocks(rows, blocks, n).0,
            (#[trigger] blocks[i]).0,
        ) == Ok::<Option<Block>, StorageError>(Some(blocks[i].1)) by {
            if i < n - 1 {
                assert(blocks[i].0 != blocks[n - 1].0);
                saved_block_is_read(earlier, block, blocks[i].0);
            }
        }
    }
}

/// The tip is read from its own two values alone.
proof fn tip_reads_alike(a: Rows, b: Rows, height: Height, hash: Digest)
    requires
        a.tip_height == b.tip_height,
        a.tip_hash == b.tip_hash,
        storage::tip_of(a) == Ok::<Option<(Height, Digest)>, StorageError>(Some((height, hash))),
        a == storage::with_tip(a, height, hash),
    ensures
        storage::tip_of(b) == storage::tip_of(a),
{
    saved_tip_is_read(b, height, hash);
    assert(b =~= storage::with_tip(b, height, hash));
}

/// The heights of a written chain read back as its blocks, and the tip as its
/// last.
proof fn ledger_rows_read(rows: Rows, ledger: Ledger)
    requires
        ledger.wf(),
        is_chain(ledger),
    ensures
        storage::with_ledger(rows, ledger).1,
        forall|h: u64|
            h < ledger.blocks.rows().len() ==> #[trigger] storage::block_at(
                storage::with_ledger(rows, ledger).0,
                Height(h),
            ) == Ok::<Option<Block>, StorageError>(Some(ledger.blocks.rows()[h as int].1)),
        storage::tip_of(storage::with_ledger(rows, ledger).0) == Ok::<
            Option<(Height, Digest)>,
            StorageError,
        >(
            Some(
                (
                    Height((ledger.blocks.rows().len() - 1) as u64),
                    ledger.blocks.rows().last().1.data.hash,
                ),
            ),
        ),
        storage::with_ledger(rows, ledger).0.accounts == storage::with_accounts(
            rows,
            ledger.accounts.rows(),
            ledger.accounts.rows().len() as int,
        ).accounts,
{
    let blocks = ledger.blocks.rows();
    let accounts = ledger.accounts.rows();
    let cleared = storage::without_indexes(
        storage::with_accounts(rows, accounts, accounts.len() as int),
    );
    let n = blocks.len() as int;
    chain_blocks_are_stored(cleared, blocks, n);
    let stored = storage::with_blocks(cleared, blocks, n).0;
    let done = storage::with_ledger(rows, ledger).0;
    let last = blocks[n - 1].1;
    assert(blocks[n - 1].0 == Height((n - 1) as u64));
    assert(ledger.tip() == Some(last));
    let tipped = storage::with_tip(stored, last.data.height, last.data.hash);
    assert(done.tip_height == tipped.tip_height && done.tip_hash == tipped.tip_hash);
    assert(done.blocks_by_height == stored.blocks_by_height);
    assert(done.accounts == stored.accounts);
    saved_tip_is_read(stored, last.data.height, last.data.hash);
    tip_reads_alike(tipped, done, last.data.height, last.data.hash);
    assert forall|h: u64| h < blocks.len() implies #[trigger] storage::block_at(done, Height(h))
        == Ok::<Option<Block>, StorageError>(Some(blocks[h as int].1)) by {
        assert(blocks[h as int].0 == Height(h));
        assert(storage::block_at(done, Height(h)) == storage::block_at(stored, Height(h)));
    }
}

/// A written chain passes the check of the stored chain.
pub proof fn saved_ledger_is_whole(rows: Rows, ledger: Ledger)
    requires
        ledger.wf(),
        is_chain(ledger),
    ensures
        storage::with_ledger(rows, ledger).1,
        storage::integrity(storage::with_ledger(rows, ledger).0) is Ok,
{
    let blocks = ledger.blocks.rows();
    let done = storage::with_ledger(rows, ledger).0;
    ledger_rows_read(rows, ledger);
    let height = (blocks.len() - 1) as u64;
    assert forall|h: u64| h <= height implies #[trigger] storage::has_block(done, h) by {
        assert(storage::block_at(done, Height(h)) is Ok);
    }
    assert forall|h: u64| 0 < h <= height implies (#[trigger] storage::chain_block(
        done,
        h,
    )).data.previous_hash == storage::chain_block(done, (h - 1) as u64).data.hash by {
        assert(storage::block_at(done, Height(h)) is Ok);
        assert(storage::block_at(done, Height((h - 1) as u64)) is Ok);
        assert(blocks[h as int].1.data.previous_hash == blocks[h as int - 1].1.data.hash);
    }
    assert(storage::block_at(done, Height(0)) is Ok);
    assert(storage::block_at(done, Height(height)) is Ok);
    assert(storage::linked_chain(done, height));
    storage::integrity_means_linked_chain(done);
}

/// Every row holds an account under its own address.
pub open spec fn accounts_decode(table: Map<Address, Stored<Account>>) -> bool {
    forall|a: Address| #[trigger]
        table.contains_key(a) ==> (table[a] matches Ok(account) && account.address == a)
}

/// The accounts of rows that decode.
pub open spec fn decoded(table: Map<Address, Stored<Account>>) -> Map<Address, Account> {
    Map::new(|a: Address| table.contains_key(a), |a: Address| table[a]->Ok_0)
}

proof fn accounts_that_decode_are_read(table: Seq<(Address, Stored<Account>)>)
    requires
        ordered_map::ascending(table),
        accounts_decode(ordered_map::rows_map(table)),
    ensures
        storage::accounts_in(table) == Ok::<Map<Address, Account>, StorageError>(
            decoded(ordered_map::rows_map(table)),
        ),
    decreases table.len(),
{
    let m = ordered_map::rows_map(table);
    ordered_map::rows_are_entries(table);
    if table.len() == 0 {
        assert(decoded(m) =~= Map::<Address, Account>::empty());
    } else {
        let (key, row) = table.last();
        assert(table[table.len() - 1] == (key, row));
        assert(m.contains_key(key) && m[key] == row);
        ordered_map::rows_without_last(table);
        let short = ordered_map::rows_map(table.drop_last());
        assert(accounts_decode(short)) by {
            assert forall|a: Address| #[trigger] short.contains_key(a) implies (
            short[a] matches Ok(account) && account.address == a) by {
                assert(m.contains_key(a) && m[a] == short[a]);
            }
        }
        accounts_that_decode_are_read(table.drop_last());
        assert(decoded(short).insert(key, row->Ok_0) =~= decoded(m));
    }
}

proof fn accounts_are_stored(rows: Rows, accounts: Seq<(Address, Account)>, n: int)
    requires
        ordered_map::ascending(accounts),
        0 <= n <= accounts.len(),
        forall|i: int|
            0 <= i < accounts.len() ==> (#[trigger] accounts[i]).1.address == accounts[i].0,
    ensures
        storage::with_accounts(rows, accounts, n).accounts == rows.accounts.union_prefer_right(
            ordered_map::rows_map(accounts.take(n)).map_values(|a: Account| Ok::<Account, String>(a)),
        ),
        ordered_map::ascending(accounts.take(n)),
    decreases n,
{
    let taken = accounts.take(n);
    assert forall|i: int, j: int|
        #![trigger taken[i], taken[j]]
        0 <= i < j < taken.len() implies crate::order::OrderedKey::precedes(
        taken[i].0,
        taken[j].0,
    ) && taken[i].0 != taken[j].0 by {
        assert(taken[i] == accounts[i] && taken[j] == accounts[j]);
    }
    ordered_map::rows_are_entries(taken);
    let m = ordered_map::rows_map(taken);
    if n == 0 {
        assert(m =~= Map::<Address, Account>::empty()) by {
            assert forall|a: Address| !m.contains_key(a) by {
                if m.contains_key(a) {
                    assert(ordered_map::has_key(taken, a));
                }
            }
        }
        assert(rows.accounts.union_prefer_right(m.map_values(|a: Account| Ok::<Account, String>(a)))
            =~= rows.accounts);
    } else {
        accounts_are_stored(rows, accounts, n - 1);
        assert(taken.drop_last() =~= accounts.take(n - 1));
        ordered_map::rows_without_last(taken);
        let short = ordered_map::rows_map(accounts.take(n - 1));
        let account = accounts[n - 1].1;
        assert(taken[n - 1] == accounts[n - 1]);
        assert(m.contains_key(account.address) && m[account.address] == account);
        assert(rows.accounts.union_prefer_right(short.map_values(|a: Account| Ok::<Account, String>(a))).insert(
            account.address,
            Ok(account),
        ) =~= rows.accounts.union_prefer_right(m.map_values(|a: Account| Ok::<Account, String>(a))));
    }
}

proof fn chain_reads_as_blocks(rows: Rows, ledger: Ledger, n: int)
    requires
        ledger.wf(),
        is_chain(ledger),
        0 <= n <= ledger.blocks.rows().len(),
    ensures
        storage::blocks_below(storage::with_ledger(rows, ledger).0, n) == Ok::<
            Map<Height, Block>,
            StorageError,
        >(ordered_map::rows_map(ledger.blocks.rows().take(n))),
        ordered_map::ascending(ledger.blocks.rows().take(n)),
    decreases n,
{
    let done = storage::with_ledger(rows, ledger).0;
    let blocks = ledger.blocks.rows();
    let taken = blocks.take(n);
    assert forall|i: int, j: int|
        #![trigger taken[i], taken[j]]
        0 <= i < j < taken.len() implies crate::order::OrderedKey::precedes(
        taken[i].0,
        taken[j].0,
    ) && taken[i].0 != taken[j].0 by {
        assert(taken[i] == blocks[i] && taken[j] == blocks[j]);
    }
    ordered_map::rows_are_entries(taken);
    let m = ordered_map::rows_map(taken);
    if n == 0 {
        assert(m =~= Map::<Height, Block>::empty()) by {
            assert forall|h: Height| !m.contains_key(h) by {
                if m.contains_key(h) {
                    assert(ordered_map::has_key(taken, h));
                }
            }
        }
    } else {
        ledger_rows_read(rows, ledger);
        chain_reads_as_blocks(rows, ledger, n - 1);
        assert(taken.drop_last() =~= blocks.take(n - 1));
        ordered_map::rows_without_last(taken);
        let height = (n - 1) as u64;
        assert(storage::block_at(done, Height(height)) is Ok);
        assert(taken[n - 1] == blocks[n - 1]);
        assert(blocks[n - 1].0 == Height(height));
        assert(m.contains_key(Height(height)) && m[Height(height)] == blocks[n - 1].1);
        assert(ordered_map::rows_map(blocks.take(n - 1)).insert(Height(height), blocks[n - 1].1)
            =~= m);
    }
}

/// A written ledger is read back: its blocks, and its accounts beside those that
/// were there before.
pub proof fn saved_ledger_is_read(rows: Rows, ledger: Ledger, after: &Storage)
    requires
        ledger.wf(),
        after.wf(),
        after@ == storage::with_ledger(rows, ledger).0,
        is_chain(ledger),
        accounts_decode(rows.accounts),
        forall|a: Address| #[trigger]
            ledger.accounts@.contains_key(a) ==> ledger.accounts@[a].address == a,
    ensures
        storage::ledger_in(after@) == Ok::<
            (Map<Address, Account>, Map<Height, Block>),
            StorageError,
        >((decoded(rows.accounts).union_prefer_right(ledger.accounts@), ledger.blocks@)),
{
    let done = storage::with_ledger(rows, ledger).0;
    let blocks = ledger.blocks.rows();
    let accounts = ledger.accounts.rows();
    saved_ledger_is_whole(rows, ledger);
    ledger_rows_read(rows, ledger);
    chain_reads_as_blocks(rows, ledger, blocks.len() as int);
    assert(blocks.take(blocks.len() as int) =~= blocks);
    ordered_map::rows_are_entries(accounts);
    assert forall|i: int| 0 <= i < accounts.len() implies (#[trigger] accounts[i]).1.address
        == accounts[i].0 by {
        assert(ledger.accounts@.contains_key(accounts[i].0));
    }
    accounts_are_stored(rows, accounts, accounts.len() as int);
    assert(accounts.take(accounts.len() as int) =~= accounts);
    let table = after.tables.accounts.rows();
    ordered_map::rows_are_rows_of(table);
    assert(accounts_decode(done.accounts)) by {
        assert forall|a: Address| #[trigger] done.accounts.contains_key(a) implies (
        done.accounts[a] matches Ok(account) && account.address == a) by {
            if ledger.accounts@.contains_key(a) {
            } else {
                assert(rows.accounts.contains_key(a));
            }
        }
    }
    accounts_that_decode_are_read(table);
    assert(decoded(done.accounts) =~= decoded(rows.accounts).union_prefer_right(ledger.accounts@));
}

/// A transaction with the hash stands in the block.
pub open spec fn block_has(block: Block, hash: Digest) -> bool {
    exists|i: int| stands_at(block, hash, i)
}

/// The transaction at position `i` has the hash.
pub open spec fn stands_at(block: Block, hash: Digest, i: int) -> bool {
    0 <= i < block.data.transactions@.len() && block.data.transactions@[i].hash == hash
}

proof fn index_names_only_transactions(rows: Rows, block: Block, hash: Digest, n: int)
    requires
        !block_has(block, hash),
        0 <= n <= block.data.transactions@.len(),
    ensures
        storage::with_transactions(rows.tx_index, block, n).contains_key(hash)
            == rows.tx_index.contains_key(hash),
    decreases n,
{
    if n > 0 {
        index_names_only_transactions(rows, block, hash, n - 1);
        assert(!stands_at(block, hash, n - 1));
    }
}

proof fn indexes_name_only_blocks(rows: Rows, blocks: Seq<(Height, Block)>, hash: Digest, n: int)
    requires
        0 <= n <= blocks.len(),
        forall|i: int| 0 <= i < blocks.len() ==> !block_has((#[trigger] blocks[i]).1, hash),
    ensures
        storage::with_blocks(rows, blocks, n).0.tx_index.contains_key(hash)
            == rows.tx_index.contains_key(hash),
    decreases n,
{
    if n > 0 {
        indexes_name_only_blocks(rows, blocks, hash, n - 1);
        let (earlier, complete) = storage::with_blocks(rows, blocks, n - 1);
        let block = blocks[n - 1].1;
        assert(!block_has(block, hash));
        index_names_only_transactions(
            earlier,
            block,
            hash,
            block.data.transactions@.len() as int,
        );
    }
}

/// After a ledger is written, a transaction that stands in none of its blocks
/// is not found, whatever was known before.
pub proof fn saved_ledger_rebuilds_the_index(rows: Rows, ledger: Ledger, hash: Digest)
    requires
        ledger.wf(),
        forall|i: int|
            0 <= i < ledger.blocks.rows().len() ==> !block_has(
                (#[trigger] ledger.blocks.rows()[i]).1,
                hash,
            ),
    ensures
        storage::transaction_with(storage::with_ledger(rows, ledger).0, hash) == Ok::<
            Option<(TransactionLocation, crate::types::SignedTransaction)>,
            StorageError,
        >(None),
{
    let blocks = ledger.blocks.rows();
    let accounts = ledger.accounts.rows();
    let cleared = storage::without_indexes(
        storage::with_accounts(rows, accounts, accounts.len() as int),
    );
    indexes_name_only_blocks(cleared, blocks, hash, blocks.len() as int);
}

/// A block is read by its height exactly if one is stored under that height and
/// says that height, and by its hash exactly if one is stored under that hash and
/// says that hash.
pub proof fn a_block_is_read_under_its_own_name(rows: Rows, height: Height, hash: Digest, block: Block)
    ensures
        storage::block_at(rows, height) == Ok::<Option<Block>, StorageError>(Some(block))
            <==> rows.blocks_by_height.contains_key(height) && rows.blocks_by_height[height] == Ok::<
            Block,
            String,
        >(block) && block.data.height == height,
        storage::block_at(rows, height) == Ok::<Option<Block>, StorageError>(None)
            <==> !rows.blocks_by_height.contains_key(height),
        storage::block_with(rows, hash) == Ok::<Option<Block>, StorageError>(Some(block))
            <==> rows.blocks_by_hash.contains_key(hash) && rows.blocks_by_hash[hash] == Ok::<
            Block,
            String,
        >(block) && block.data.hash == hash,
        storage::block_with(rows, hash) == Ok::<Option<Block>, StorageError>(None)
            <==> !rows.blocks_by_hash.contains_key(hash),
{
}

/// A transaction that is read by its hash has that hash, and stands where the
/// index says: in the block at that height and with that hash, at that position.
pub proof fn a_transaction_is_read_where_it_stands(rows: Rows, hash: Digest)
    ensures
        storage::transaction_with(rows, hash) matches Ok(Some((location, t))) ==> {
            &&& t.hash == hash
            &&& rows.tx_index.contains_key(hash)
            &&& rows.blocks_by_height.contains_key(location.block_height)
            &&& rows.blocks_by_height[location.block_height] matches Ok(block)
                && block.data.height == location.block_height && block.data.hash
                == location.block_hash && location.tx_index < block.data.transactions@.len()
                && block.data.transactions@[location.tx_index as int] == t
        },
        storage::transaction_with(rows, hash) matches Ok(None) ==> !rows.tx_index.contains_key(
            hash,
        ),
{
}

/// A database is opened exactly if it has the version of this program, or holds
/// nothing at all and gets it; no other row is touched.
pub proof fn only_this_version_is_opened(rows: Rows)
    ensures
        ({
            let (after, result) = storage::versioned(rows);
            &&& result is Ok <==> (rows.storage_version == Some(seq![STORAGE_VERSION])
                || (rows.storage_version is None && rows.has_no_rows()))
            &&& result is Ok ==> after.storage_version == Some(seq![STORAGE_VERSION])
            &&& result is Err ==> after == rows
            &&& after.blocks_by_height == rows.blocks_by_height
            &&& after.blocks_by_hash == rows.blocks_by_hash
            &&& after.accounts == rows.accounts
            &&& after.tx_index == rows.tx_index
            &&& after.address_tx_index == rows.address_tx_index
            &&& after.state_snapshots == rows.state_snapshots
            &&& after.genesis_accounts == rows.genesis_accounts
            &&& after.tip_height == rows.tip_height
            &&& after.tip_hash == rows.tip_hash
        }),
{
    match rows.storage_version {
        Some(value) => {
            if value.len() == 1 && value[0] == STORAGE_VERSION {
                assert(value =~= seq![STORAGE_VERSION]);
            }
            if value == seq![STORAGE_VERSION] {
                assert(value.len() == 1 && value[0] == STORAGE_VERSION);
            }
        },
        None => {},
    }
}

/// Accounts are read exactly if every row holds one under its own address.
pub proof fn accounts_are_read_under_their_own_addresses(table: Seq<(Address, Stored<Account>)>)
    ensures
        storage::accounts_in(table) is Ok <==> forall|i: int|
            0 <= i < table.len() ==> ((#[trigger] table[i]).1 matches Ok(account)
                && account.address == table[i].0),
        storage::accounts_in(table) matches Ok(accounts) ==> forall|a: Address| #[trigger]
            accounts.contains_key(a) ==> accounts[a].address == a && ordered_map::has_key(table, a),
    decreases table.len(),
{
    if table.len() > 0 {
        let short = table.drop_last();
        accounts_are_read_under_their_own_addresses(short);
        let (key, row) = table.last();
        assert(table[table.len() - 1] == (key, row));
        if storage::accounts_in(table) is Ok {
            assert forall|i: int| 0 <= i < table.len() implies (
            (#[trigger] table[i]).1 matches Ok(account) && account.address == table[i].0) by {
                if i < short.len() {
                    assert(short[i] == table[i]);
                }
            }
            let accounts = storage::accounts_in(table)->Ok_0;
            assert forall|a: Address| #[trigger] accounts.contains_key(a) implies accounts[a].address
                == a && ordered_map::has_key(table, a) by {
                if a == key {
                    assert(ordered_map::key_at(table, a, table.len() - 1));
                } else {
                    assert(ordered_map::has_key(short, a));
                    let i = choose|i: int| ordered_map::key_at(short, a, i);
                    assert(ordered_map::key_at(table, a, i));
                }
            }
        }
        if forall|i: int|
            0 <= i < table.len() ==> ((#[trigger] table[i]).1 matches Ok(account)
                && account.address == table[i].0) {
            assert forall|i: int| 0 <= i < short.len() implies (
            (#[trigger] short[i]).1 matches Ok(account) && account.address == short[i].0) by {
                assert(short[i] == table[i]);
            }
        }
    }
}

/// Row `i` stands under the address and holds the location.
pub open spec fn holds_location(
    index: Seq<(tables::AddressTxKey, Seq<u8>)>,
    address: Address,
    location: AddressTransactionLocation,
    i: int,
) -> bool {
    0 <= i < index.len() && index[i].0.address == address && tables::address_location_in(
        index[i].1,
    ) == Ok::<AddressTransactionLocation, SerializationError>(location)
}

/// Some row under the address holds the location.
pub open spec fn is_held(
    index: Seq<(tables::AddressTxKey, Seq<u8>)>,
    address: Address,
    location: AddressTransactionLocation,
) -> bool {
    exists|i: int| holds_location(index, address, location, i)
}

proof fn locations_are_those_of_the_address(
    index: Seq<(tables::AddressTxKey, Seq<u8>)>,
    address: Address,
)
    requires
        storage::locations_under(index, address) is Ok,
    ensures
        ({
            let found = storage::locations_under(index, address)->Ok_0;
            &&& forall|k: int|
                0 <= k < found.len() ==> is_held(index, address, #[trigger] found[k])
            &&& forall|i: int|
                0 <= i < index.len() && (#[trigger] index[i]).0.address == address
                    ==> tables::address_location_in(index[i].1) is Ok && found.contains(
                    tables::address_location_in(index[i].1)->Ok_0,
                )
        }),
    decreases index.len(),
{
    if index.len() > 0 {
        let short = index.drop_last();
        locations_are_those_of_the_address(short, address);
        let earlier = storage::locations_under(short, address)->Ok_0;
        let found = storage::locations_under(index, address)->Ok_0;
        assert(index[index.len() - 1] == index.last());
        assert forall|k: int| 0 <= k < found.len() implies is_held(
            index,
            address,
            #[trigger] found[k],
        ) by {
            if k < earlier.len() {
                assert(found[k] == earlier[k]);
                let i = choose|i: int| holds_location(short, address, earlier[k], i);
                assert(index[i] == short[i]);
                assert(holds_location(index, address, found[k], i));
            } else {
                assert(holds_location(index, address, found[k], index.len() - 1));
            }
        }
        assert forall|i: int|
            0 <= i < index.len() && (
            #[trigger] index[i]).0.address == address implies tables::address_location_in(
            index[i].1,
        ) is Ok && found.contains(tables::address_location_in(index[i].1)->Ok_0) by {
            if i < short.len() {
                assert(short[i] == index[i]);
                let location = tables::address_location_in(index[i].1)->Ok_0;
                assert(earlier.contains(location));
                let k = choose|k: int| 0 <= k < earlier.len() && earlier[k] == location;
                assert(found[k] == location);
            } else {
                assert(found[earlier.len() as int] == tables::address_location_in(
                    index[i].1,
                )->Ok_0);
            }
        }
    }
}

/// The places of an address's transactions are all those that the index has
/// under the address, and no others, from the bottom of the chain up, and in a
/// block in the block's order.
pub proof fn places_of_an_address_come_in_order(
    index: Seq<(tables::AddressTxKey, Seq<u8>)>,
    address: Address,
)
    requires
        storage::locations_under(index, address) is Ok,
    ensures
        ({
            let out = crate::sort::stable_sorted::<
                AddressTransactionLocation,
                storage::ByPosition,
            >(storage::locations_under(index, address)->Ok_0);
            &&& forall|i: int, j: int|
                0 <= i < j < out.len() ==> (#[trigger] out[i]).block_height.0 < (
                #[trigger] out[j]).block_height.0 || (out[i].block_height == out[j].block_height
                    && out[i].tx_index <= out[j].tx_index)
            &&& forall|k: int|
                0 <= k < out.len() ==> is_held(index, address, #[trigger] out[k])
            &&& forall|i: int|
                0 <= i < index.len() && (#[trigger] index[i]).0.address == address
                    ==> tables::address_location_in(index[i].1) is Ok && out.contains(
                    tables::address_location_in(index[i].1)->Ok_0,
                )
        }),
{
    let found = storage::locations_under(index, address)->Ok_0;
    let out = crate::sort::stable_sorted::<
        AddressTransactionLocation,
        storage::ByPosition,
    >(found);
    locations_are_those_of_the_address(index, address);
    crate::sort::stable_sorted_is_sorted::<
        AddressTransactionLocation,
        storage::ByPosition,
    >(found);
    crate::sort::stable_sorted_is_permutation::<
        AddressTransactionLocation,
        storage::ByPosition,
    >(found);
    assert forall|i: int, j: int| 0 <= i < j < out.len() implies (
    #[trigger] out[i]).block_height.0 < (#[trigger] out[j]).block_height.0 || (
    out[i].block_height == out[j].block_height && out[i].tx_index <= out[j].tx_index) by {
        assert(!<storage::ByPosition as crate::sort::SortOrder<
            AddressTransactionLocation,
        >>::before(out[j], out[i]));
    }
    assert forall|k: int| 0 <= k < out.len() implies is_held(
        index,
        address,
        #[trigger] out[k],
    ) by {
        assert(out.contains(out[k]));
        assert(found.contains(out[k]));
        let m = choose|m: int| 0 <= m < found.len() && found[m] == out[k];
        let i = choose|i: int| holds_location(index, address, found[m], i);
        assert(holds_location(index, address, out[k], i));
    }
}

/// With a ledger its tip is written, and the state at the tip: the accounts and
/// their root, under the tip's height. The accounts of the beginning are written
/// with the first block alone, and stay as they were with any other.
pub proof fn a_saved_ledger_has_its_state_written(rows: Rows, ledger: Ledger)
    requires
        storage::with_ledger(rows, ledger).1,
        ledger.tip() is Some,
    ensures
        ({
            let after = storage::with_ledger(rows, ledger).0;
            let tip = ledger.tip()->Some_0;
            &&& after.state_snapshots.contains_key(tip.data.height)
            &&& after.state_snapshots[tip.data.height] matches Ok(state) && {
                &&& state.height == tip.data.height
                &&& state.block_hash == tip.data.hash
                &&& state.accounts == ledger.accounts
                &&& state.state_root == ledger.state_root
                &&& state.accounts_root == ledger.state_root
            }
            &&& after.tip_hash == Some(tip.data.hash.0@)
            &&& tip.data.height.0 == 0 ==> after.genesis_accounts == Some(
                Ok::<_, String>(ledger.accounts),
            )
            &&& tip.data.height.0 != 0 ==> after.genesis_accounts == rows.genesis_accounts
            &&& after.storage_version == rows.storage_version
        }),
{
    let accounts = ledger.accounts.rows();
    let blocks = ledger.blocks.rows();
    accounts_touch_nothing_else(rows, accounts, accounts.len() as int);
    blocks_touch_nothing_else(
        storage::without_indexes(storage::with_accounts(rows, accounts, accounts.len() as int)),
        blocks,
        blocks.len() as int,
    );
}

proof fn accounts_touch_nothing_else(rows: Rows, accounts: Seq<(Address, Account)>, n: int)
    ensures
        storage::with_accounts(rows, accounts, n).genesis_accounts == rows.genesis_accounts,
        storage::with_accounts(rows, accounts, n).storage_version == rows.storage_version,
    decreases n,
{
    if n > 0 {
        accounts_touch_nothing_else(rows, accounts, n - 1);
    }
}

proof fn blocks_touch_nothing_else(rows: Rows, blocks: Seq<(Height, Block)>, n: int)
    ensures
        storage::with_blocks(rows, blocks, n).0.genesis_accounts == rows.genesis_accounts,
        storage::with_blocks(rows, blocks, n).0.storage_version == rows.storage_version,
    decreases n,
{
    if n > 0 {
        blocks_touch_nothing_else(rows, blocks, n - 1);
    }
}

/// The stored blocks are read exactly if every row holds one under its own hash,
/// and come in the order of the rows.
pub proof fn stored_blocks_are_read_under_their_own_hashes(table: Seq<(Digest, Stored<Block>)>)
    ensures
        storage::blocks_in(table) is Ok <==> forall|i: int|
            0 <= i < table.len() ==> ((#[trigger] table[i]).1 matches Ok(block) && block.data.hash
                == table[i].0),
        storage::blocks_in(table) matches Ok(blocks) ==> blocks.len() == table.len() && forall|i:
            int|
            0 <= i < table.len() ==> table[i].1 == Ok::<Block, String>(#[trigger] blocks[i]),
    decreases table.len(),
{
    if table.len() > 0 {
        let short = table.drop_last();
        stored_blocks_are_read_under_their_own_hashes(short);
        let (key, row) = table.last();
        assert(table[table.len() - 1] == (key, row));
        if storage::blocks_in(table) is Ok {
            assert forall|i: int| 0 <= i < table.len() implies (
            (#[trigger] table[i]).1 matches Ok(block) && block.data.hash == table[i].0) by {
                if i < short.len() {
                    assert(short[i] == table[i]);
                }
            }
            let blocks = storage::blocks_in(table)->Ok_0;
            assert forall|i: int| 0 <= i < table.len() implies table[i].1 == Ok::<Block, String>(
                #[trigger] blocks[i],
            ) by {
                if i < short.len() {
                    assert(short[i] == table[i]);
                    assert(blocks[i] == storage::blocks_in(short)->Ok_0[i]);
                }
            }
        }
        if forall|i: int|
            0 <= i < table.len() ==> ((#[trigger] table[i]).1 matches Ok(block)
                && block.data.hash == table[i].0) {
            assert forall|i: int| 0 <= i < short.len() implies (
            (#[trigger] short[i]).1 matches Ok(block) && block.data.hash == short[i].0) by {
                assert(short[i] == table[i]);
            }
        }
    }
}

} // verus!
