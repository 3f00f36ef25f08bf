//! What the node answers to those who ask it for blocks, transactions and
//! balances.

use crate::clock;
use crate::display;
use crate::errors;
use crate::mempool;
use crate::miner;
use crate::node::{self, Node};
use crate::parse;
use crate::storage::{self, StorageError};
use crate::tables::Rows;
use crate::text;
use crate::types::{Address, Block, Digest, Height, SignedTransaction};
use vstd::prelude::*;
use vstd::string::*;

verus! {

/// A transaction as it is shown.
#[derive(Debug, PartialEq, Eq)]
pub struct TxResponse {
    pub hash: String,
    pub from: String,
    pub to: String,
    pub amount: u32,
    pub fee: u32,
    pub nonce: u64,
    pub block_height: Option<u64>,
    pub block_hash: Option<String>,
    pub status: &'static str,
}

/// The same, as it is spoken of.
#[verifier::ext_equal]
pub struct TxShown {
    pub hash: Seq<char>,
    pub from: Seq<char>,
    pub to: Seq<char>,
    pub amount: u32,
    pub fee: u32,
    pub nonce: u64,
    pub block_height: Option<u64>,
    pub block_hash: Option<Seq<char>>,
    pub status: Seq<char>,
}

impl View for TxResponse {
    type V = TxShown;

    open spec fn view(&self) -> TxShown {
        TxShown {
            hash: self.hash@,
            from: self.from@,
            to: self.to@,
            amount: self.amount,
            fee: self.fee,
            nonce: self.nonce,
            block_height: self.block_height,
            block_hash: match self.block_hash {
                Some(hash) => Some(hash@),
                None => None,
            },
            status: self.status@,
        }
    }
}

/// A transaction as it is shown.
pub open spec fn tx_shown(
    t: SignedTransaction,
    block_height: Option<Height>,
    block_hash: Option<Digest>,
    status: Seq<char>,
) -> TxShown {
    TxShown {
        hash: text::hex_text(t.hash.0@),
        from: text::hex_text(t.transaction.from.0@),
        to: text::hex_text(t.transaction.to.0@),
        amount: t.transaction.amount.0,
        fee: t.transaction.fee.0,
        nonce: t.transaction.nonce.0,
        block_height: match block_height {
            Some(height) => Some(height.0),
            None => None,
        },
        block_hash: match block_hash {
            Some(hash) => Some(text::hex_text(hash.0@)),
            None => None,
        },
        status,
    }
}

/// A transaction as it is shown.
pub fn tx_response(
    t: &SignedTransaction,
    block_height: Option<Height>,
    block_hash: Option<Digest>,
    status: &'static str,
) -> (r: TxResponse)
    ensures
        r@ == tx_shown(*t, block_height, block_hash, status@),
{
    TxResponse {
        hash: parse::bytes_to_hex(t.hash.0.as_slice()),
        from: parse::address_to_string(&t.transaction.from),
        to: parse::address_to_string(&t.transaction.to),
        amount: t.transaction.amount.0,
        fee: t.transaction.fee.0,
        nonce: t.transaction.nonce.0,
        block_height: match block_height {
            Some(height) => Some(height.0),
            None => None,
        },
        block_hash: match block_hash {
            Some(hash) => Some(parse::bytes_to_hex(hash.0.as_slice())),
            None => None,
        },
        status,
    }
}

/// A transaction of a block as it is shown.
pub open spec fn confirmed(t: SignedTransaction, block: Block, status: Seq<char>) -> TxShown {
    tx_shown(t, Some(block.data.height), Some(block.data.hash), status)
}

/// A pending transaction as it is shown.
pub open spec fn pending(t: SignedTransaction) -> TxShown {
    tx_shown(t, None, None, "pending"@)
}

/// What is shown in a list.
pub open spec fn shown_in(list: Seq<TxResponse>) -> Seq<TxShown> {
    Seq::new(list.len(), |i: int| list[i]@)
}

/// The reward of a block as it is shown.
#[derive(Debug, PartialEq, Eq)]
pub struct CoinbaseResponse {
    pub to: String,
    pub subsidy: u32,
    pub fees: u32,
    pub total: u32,
}

/// A payment of the first block as it is shown.
#[derive(Debug, PartialEq, Eq)]
pub struct GenesisAllocationResponse {
    pub to: String,
    pub amount: u32,
}

/// A block as it is shown.
#[derive(Debug, PartialEq, Eq)]
pub struct BlockResponse {
    pub height: u64,
    pub hash: String,
    pub short_hash: String,
    pub previous_hash: String,
    pub merkle_root: String,
    pub state_root: String,
    pub miner_address: String,
    pub difficulty: u32,
    pub timestamp: u64,
    pub age_secs: u64,
    pub confirmations: u64,
    pub block_time_secs: Option<u64>,
    pub target_block_time_secs: u32,
    pub block_time_delta_secs: Option<i64>,
    pub value_moved: u32,
    pub nonce: u64,
    pub tx_count: usize,
    pub size: usize,
    pub coinbase: Option<CoinbaseResponse>,
    pub genesis_allocations: Vec<GenesisAllocationResponse>,
    pub transactions: Vec<TxResponse>,
}

/// The same, as it is spoken of.
#[verifier::ext_equal]
pub struct BlockShown {
    pub height: u64,
    pub hash: Seq<char>,
    pub short_hash: Seq<char>,
    pub previous_hash: Seq<char>,
    pub merkle_root: Seq<char>,
    pub state_root: Seq<char>,
    pub miner_address: Seq<char>,
    pub difficulty: u32,
    pub timestamp: u64,
    pub age_secs: u64,
    pub confirmations: u64,
    pub block_time_secs: Option<u64>,
    pub target_block_time_secs: u32,
    pub block_time_delta_secs: Option<i64>,
    pub value_moved: u32,
    pub nonce: u64,
    pub tx_count: usize,
    pub size: usize,
    pub coinbase: Option<(Seq<char>, u32, u32, u32)>,
    pub genesis_allocations: Seq<(Seq<char>, u32)>,
    pub transactions: Seq<TxShown>,
}

/// The payments in a list.
pub open spec fn payments_in(list: Seq<GenesisAllocationResponse>) -> Seq<(Seq<char>, u32)> {
    Seq::new(list.len(), |i: int| (list[i].to@, list[i].amount))
}

impl View for BlockResponse {
    type V = BlockShown;

    open spec fn view(&self) -> BlockShown {
        BlockShown {
            height: self.height,
            hash: self.hash@,
            short_hash: self.short_hash@,
            previous_hash: self.previous_hash@,
            merkle_root: self.merkle_root@,
            state_root: self.state_root@,
            miner_address: self.miner_address@,
            difficulty: self.difficulty,
            timestamp: self.timestamp,
            age_secs: self.age_secs,
            confirmations: self.confirmations,
            block_time_secs: self.block_time_secs,
            target_block_time_secs: self.target_block_time_secs,
            block_time_delta_secs: self.block_time_delta_secs,
            value_moved: self.value_moved,
            nonce: self.nonce,
            tx_count: self.tx_count,
            size: self.size,
            coinbase: match self.coinbase {
                Some(c) => Some((c.to@, c.subsidy, c.fees, c.total)),
                None => None,
            },
            genesis_allocations: payments_in(self.genesis_allocations@),
            transactions: shown_in(self.transactions@),
        }
    }
}

/// The difference, or zero where it is negative.
pub open spec fn minus(a: u64, b: u64) -> u64 {
    if a >= b {
        (a - b) as u64
    } else {
        0
    }
}

/// One more, or the largest number.
pub open spec fn and_one(a: u64) -> u64 {
    if a == u64::MAX {
        a
    } else {
        (a + 1) as u64
    }
}

/// When the block before a height was made, if it can be read.
pub open spec fn previous_time(rows: Rows, height: u64) -> Option<u64> {
    if height == 0 {
        None
    } else {
        match storage::block_at(rows, Height((height - 1) as u64)) {
            Ok(Some(block)) => Some(block.data.timestamp),
            _ => None,
        }
    }
}

/// A block can be shown: the amounts that it moves add up to an amount, and the
/// difference of its time from the target is a number.
pub open spec fn showable(node: Node, block: Block) -> bool {
    &&& miner::amount_sum(block.data.transactions@) <= u32::MAX
    &&& previous_time(node.storage@, block.data.height.0) matches Some(time) ==> i64::MIN <= (
    minus(block.data.timestamp, time) as i64) - node.params.block_time
}

/// A status that may be there, in words.
pub open spec fn status_words(status: Option<&'static str>) -> Option<Seq<char>> {
    match status {
        Some(status) => Some(status@),
        None => None,
    }
}

/// A block as it is shown at the time `now`.
pub open spec fn block_shown(
    node: Node,
    block: Block,
    status: Option<Seq<char>>,
    now: Option<u64>,
) -> BlockShown {
    let d = *block.data;
    let time = match now {
        Some(now) => now,
        None => d.timestamp,
    };
    let previous = previous_time(node.storage@, d.height.0);
    let word = match status {
        Some(status) => status,
        None => "confirmed"@,
    };
    BlockShown {
        height: d.height.0,
        hash: text::hex_text(d.hash.0@),
        short_hash: display::short(Some(d.hash)),
        previous_hash: text::hex_text(d.previous_hash.0@),
        merkle_root: text::hex_text(d.merkle_root.0@),
        state_root: text::hex_text(d.state_root.0@),
        miner_address: text::hex_text(d.miner_address.0@),
        difficulty: d.difficulty,
        timestamp: d.timestamp,
        age_secs: minus(time, d.timestamp),
        confirmations: and_one(minus(node.height_spec(), d.height.0)),
        block_time_secs: match previous {
            Some(before) => Some(minus(d.timestamp, before)),
            None => None,
        },
        target_block_time_secs: node.params.block_time,
        block_time_delta_secs: match previous {
            Some(before) => Some(
                ((minus(d.timestamp, before) as i64) - node.params.block_time) as i64,
            ),
            None => None,
        },
        value_moved: miner::amount_sum(d.transactions@) as u32,
        nonce: d.nonce.0,
        tx_count: d.transactions@.len() as usize,
        size: d.size,
        coinbase: match d.coinbase {
            Some(c) => Some((text::hex_text(c.to.0@), c.subsidy.0, c.fees.0, c.total.0)),
            None => None,
        },
        genesis_allocations: Seq::new(
            d.genesis_allocations@.len(),
            |i: int|
                (text::hex_text(d.genesis_allocations@[i].to.0@), d.genesis_allocations@[i].amount.0),
        ),
        transactions: Seq::new(
            d.transactions@.len(),
            |i: int| confirmed(d.transactions@[i], block, word),
        ),
    }
}

fn previous_timestamp(node: &Node, height: u64) -> (r: Option<u64>)
    requires
        node.wf(),
    ensures
        r == previous_time(node.storage@, height),
{
    if height == 0 {
        return None;
    }
    match node.storage.load_block_by_height(Height(height - 1)) {
        Ok(Some(block)) => Some(block.timestamp()),
        _ => None,
    }
}

fn block_transactions(block: &Block, status: &'static str) -> (r: Vec<TxResponse>)
    ensures
        shown_in(r@) == Seq::new(
            block.data.transactions@.len(),
            |i: int| confirmed(block.data.transactions@[i], *block, status@),
        ),
{
    let mut out: Vec<TxResponse> = Vec::new();
    let mut i: usize = 0;
    while i < block.data.transactions.len()
        invariant
            i <= block.data.transactions@.len(),
            out@.len() == i,
            forall|j: int|
                0 <= j < i ==> (#[trigger] out@[j])@ == confirmed(
                    block.data.transactions@[j],
                    *block,
                    status@,
                ),
        decreases block.data.transactions@.len() - i,
    {
        let t = block.transaction(i);
        out.push(tx_response(&t, Some(block.height()), Some(block.hash()), status));
        i = i + 1;
    }
    assert(shown_in(out@) =~= Seq::new(
        block.data.transactions@.len(),
        |i: int| confirmed(block.data.transactions@[i], *block, status@),
    ));
    out
}

fn genesis_payments(block: &Block) -> (r: Vec<GenesisAllocationResponse>)
    ensures
        payments_in(r@) == Seq::new(
            block.data.genesis_allocations@.len(),
            |i: int|
                (
                    text::hex_text(block.data.genesis_allocations@[i].to.0@),
                    block.data.genesis_allocations@[i].amount.0,
                ),
        ),
{
    let mut out: Vec<GenesisAllocationResponse> = Vec::new();
    let mut i: usize = 0;
    while i < block.data.genesis_allocations.len()
        invariant
            i <= block.data.genesis_allocations@.len(),
            out@.len() == i,
            forall|j: int|
                0 <= j < i ==> (#[trigger] out@[j]).to@ == text::hex_text(
                    block.data.genesis_allocations@[j].to.0@,
                ) && out@[j].amount == block.data.genesis_allocations@[j].amount.0,
        decreases block.data.genesis_allocations@.len() - i,
    {
        let allocation = block.data.genesis_allocations[i];
        out.push(
            GenesisAllocationResponse {
                to: parse::address_to_string(&allocation.to),
                amount: allocation.amount.0,
            },
        );
        i = i + 1;
    }
    assert(payments_in(out@) =~= Seq::new(
        block.data.genesis_allocations@.len(),
        |i: int|
            (
                text::hex_text(block.data.genesis_allocations@[i].to.0@),
                block.data.genesis_allocations@[i].amount.0,
            ),
    ));
    out
}

/// Whether a block can be shown.
pub fn is_showable(node: &Node, block: &Block) -> (r: bool)
    requires
        node.wf(),
    ensures
        r == showable(*node, *block),
{
    if miner::total_amounts(&block.data.transactions).is_none() {
        return false;
    }
    match previous_timestamp(node, block.height().0) {
        Some(before) => {
            let elapsed: i64 = block.timestamp().saturating_sub(before) as i64;
            elapsed >= i64::MIN + node.params.block_time as i64
        },
        None => true,
    }
}

/// A block as it is shown at the time `now`; without a time, at its own.
pub fn block_response_at(
    node: &Node,
    block: &Block,
    status: Option<&'static str>,
    now: Option<u64>,
) -> (r: BlockResponse)
    requires
        node.wf(),
        showable(*node, *block),
    ensures
        r@ == block_shown(
            *node,
            *block,
            status_words(status),
            now,
        ),
{
    let timestamp: u64 = block.timestamp();
    let height: u64 = block.height().0;
    let now: u64 = match now {
        Some(now) => now,
        None => timestamp,
    };
    let previous = previous_timestamp(node, height);
    let value_moved: u32 = match miner::total_amounts(&block.data.transactions) {
        Some(total) => total.0,
        None => 0,
    };
    let word: &'static str = match status {
        Some(status) => status,
        None => "confirmed",
    };
    let block_time_secs: Option<u64> = match previous {
        Some(before) => Some(timestamp.saturating_sub(before)),
        None => None,
    };
    let block_time_delta_secs: Option<i64> = match previous {
        Some(before) => {
            let elapsed: i64 = timestamp.saturating_sub(before) as i64;
            Some(elapsed - node.params.block_time as i64)
        },
        None => None,
    };
    let confirmations: u64 = node.height().saturating_sub(height).saturating_add(1);
    BlockResponse {
        height,
        hash: parse::bytes_to_hex(block.data.hash.0.as_slice()),
        short_hash: display::short_hash(Some(block.hash())),
        previous_hash: parse::bytes_to_hex(block.data.previous_hash.0.as_slice()),
        merkle_root: parse::bytes_to_hex(block.data.merkle_root.0.as_slice()),
        state_root: parse::bytes_to_hex(block.data.state_root.0.as_slice()),
        miner_address: parse::address_to_string(&block.data.miner_address),
        difficulty: block.difficulty(),
        timestamp,
        age_secs: now.saturating_sub(timestamp),
        confirmations,
        block_time_secs,
        target_block_time_secs: node.params.block_time,
        block_time_delta_secs,
        value_moved,
        nonce: block.data.nonce.0,
        tx_count: block.transaction_count(),
        size: block.serialized_size(),
        coinbase: match &block.data.coinbase {
            Some(c) => Some(
                CoinbaseResponse {
                    to: parse::address_to_string(&c.to),
                    subsidy: c.subsidy.0,
                    fees: c.fees.0,
                    total: c.total.0,
                },
            ),
            None => None,
        },
        genesis_allocations: genesis_payments(block),
        transactions: block_transactions(block, word),
    }
}

/// A block as it is shown now.
pub fn block_response(node: &Node, block: &Block, status: Option<&'static str>) -> (r: BlockResponse)
    requires
        node.wf(),
        showable(*node, *block),
    ensures
        exists|now: Option<u64>|
            r@ == #[trigger] block_shown(
                *node,
                *block,
                status_words(status),
                now,
            ),
{
    let now: Option<u64> = match clock::unix_timestamp() {
        Ok(now) => Some(now),
        Err(_) => None,
    };
    block_response_at(node, block, status, now)
}

/// The first transaction with a hash.
pub open spec fn first_with(list: Seq<SignedTransaction>, hash: Digest) -> Option<
    SignedTransaction,
>
    decreases list.len(),
{
    if list.len() == 0 {
        None
    } else if list[0].hash == hash {
        Some(list[0])
    } else {
        first_with(list.skip(1), hash)
    }
}

fn find_hash(list: &Vec<SignedTransaction>, hash: &Digest) -> (r: Option<SignedTransaction>)
    ensures
        r == first_with(list@, *hash),
{
    let mut i: usize = 0;
    assert(list@.skip(0) =~= list@);
    while i < list.len()
        invariant
            i <= list@.len(),
            first_with(list@.skip(i as int), *hash) == first_with(list@, *hash),
        decreases list@.len() - i,
    {
        proof {
            assert(list@.skip(i as int)[0] == list@[i as int]);
            assert(list@.skip(i as int).skip(1) =~= list@.skip(i + 1));
        }
        if list[i].hash.same(hash) {
            return Some(list[i]);
        }
        i = i + 1;
    }
    None
}

/// The words for a block that cannot be read.
pub open spec fn load_failure(error: StorageError) -> Seq<char> {
    "failed to load block: "@ + errors::storage_words(error)
}

fn load_failure_text(error: &StorageError) -> (r: String)
    ensures
        r@ == load_failure(*error),
{
    text::join2("failed to load block: ", error.message().as_str())
}

/// The transaction with a hash in the blocks from a height up to the tip.
pub open spec fn found_from(rows: Rows, hash: Digest, height: int, tip: int) -> Result<
    Option<TxShown>,
    Seq<char>,
>
    decreases tip + 1 - height,
{
    if height > tip {
        Ok(None)
    } else {
        match storage::block_at(rows, Height(height as u64)) {
            Err(error) => Err(load_failure(error)),
            Ok(None) => found_from(rows, hash, height + 1, tip),
            Ok(Some(block)) => match first_with(block.data.transactions@, hash) {
                Some(t) => Ok(Some(confirmed(t, block, "confirmed"@))),
                None => found_from(rows, hash, height + 1, tip),
            },
        }
    }
}

/// The transaction with a hash: a pending one, or one of the chain.
pub open spec fn found(node: Node, hash: Digest) -> Result<Option<TxShown>, Seq<char>> {
    match first_with(mempool::pending_transactions(node.mempool@.entries), hash) {
        Some(t) => Ok(Some(pending(t))),
        None => found_from(node.storage@, hash, 0, node.height_spec() as int),
    }
}

/// The transaction with a hash: a pending one, or one of the chain.
pub fn find_transaction(node: &Node, hash: &Digest) -> (r: Result<Option<TxResponse>, String>)
    requires
        node.wf(),
    ensures
        match found(*node, *hash) {
            Ok(Some(shown)) => r matches Ok(Some(t)) && t@ == shown,
            Ok(None) => r == Ok::<Option<TxResponse>, String>(None),
            Err(error) => r matches Err(words) && words@ == error,
        },
{
    match find_hash(&node.mempool.transactions(), hash) {
        Some(t) => {
            return Ok(Some(tx_response(&t, None, None, "pending")));
        },
        None => {},
    }
    let tip: u64 = node.height();
    let mut height: u64 = 0;
    loop
        invariant
            node.wf(),
            tip == node.height_spec(),
            height <= tip,
            found(*node, *hash) == found_from(node.storage@, *hash, height as int, tip as int),
        decreases tip - height,
    {
        match node.storage.load_block_by_height(Height(height)) {
            Err(error) => {
                return Err(load_failure_text(&error));
            },
            Ok(None) => {},
            Ok(Some(block)) => match find_hash(&block.data.transactions, hash) {
                Some(t) => {
                    return Ok(
                        Some(
                            tx_response(&t, Some(block.height()), Some(block.hash()), "confirmed"),
                        ),
                    );
                },
                None => {},
            },
        }
        if height == tip {
            proof {
                reveal_with_fuel(found_from, 2);
            }
            return Ok(None);
        }
        height = height + 1;
    }
}

/// The transaction is sent from or to an address.
pub open spec fn touches(t: SignedTransaction, address: Address) -> bool {
    t.transaction.from == address || t.transaction.to == address
}

/// The transactions of a block that touch an address, as they are shown.
pub open spec fn block_touching(
    block: Block,
    list: Seq<SignedTransaction>,
    address: Address,
) -> Seq<TxShown>
    decreases list.len(),
{
    if list.len() == 0 {
        Seq::empty()
    } else {
        let before = block_touching(block, list.drop_last(), address);
        if touches(list.last(), address) {
            before.push(confirmed(list.last(), block, "confirmed"@))
        } else {
            before
        }
    }
}

/// The pending transactions that touch an address, as they are shown.
pub open spec fn pending_touching(list: Seq<SignedTransaction>, address: Address) -> Seq<TxShown>
    decreases list.len(),
{
    if list.len() == 0 {
        Seq::empty()
    } else {
        let before = pending_touching(list.drop_last(), address);
        if touches(list.last(), address) {
            before.push(pending(list.last()))
        } else {
            before
        }
    }
}

/// The transactions that touch an address in the blocks below a height.
pub open spec fn chain_touching(rows: Rows, address: Address, below: int) -> Result<
    Seq<TxShown>,
    Seq<char>,
>
    decreases below,
{
    if below <= 0 {
        Ok(Seq::empty())
    } else {
        match chain_touching(rows, address, below - 1) {
            Err(error) => Err(error),
            Ok(before) => match storage::block_at(rows, Height((below - 1) as u64)) {
                Err(error) => Err(load_failure(error)),
                Ok(None) => Ok(before),
                Ok(Some(block)) => Ok(
                    before + block_touching(block, block.data.transactions@, address),
                ),
            },
        }
    }
}

/// An error at a height stays the error up to every greater height.
proof fn failed_stays_failed(rows: Rows, address: Address, n: int, m: int)
    requires
        0 <= n <= m,
        chain_touching(rows, address, n) is Err,
    ensures
        chain_touching(rows, address, m) == chain_touching(rows, address, n),
    decreases m - n,
{
    if n < m {
        failed_stays_failed(rows, address, n, m - 1);
    }
}

fn same_party(t: &SignedTransaction, address: &Address) -> (r: bool)
    ensures
        r == touches(*t, *address),
{
    t.transaction.from.same(address) || t.transaction.to.same(address)
}

fn push_block_touching(out: &mut Vec<TxResponse>, block: &Block, address: &Address)
    ensures
        shown_in(final(out)@) == shown_in(old(out)@) + block_touching(
            *block,
            block.data.transactions@,
            *address,
        ),
{
    let ghost start = shown_in(out@);
    let ghost all = block.data.transactions@;
    let mut i: usize = 0;
    proof {
        assert(all.take(0) =~= Seq::empty());
        assert(start + Seq::<TxShown>::empty() =~= start);
    }
    while i < block.data.transactions.len()
        invariant
            all == block.data.transactions@,
            i <= all.len(),
            start == shown_in(old(out)@),
            shown_in(out@) == start + block_touching(*block, all.take(i as int), *address),
        decreases all.len() - i,
    {
        let t = block.transaction(i);
        let ghost before = out@;
        proof {
            assert(all.take(i + 1).drop_last() =~= all.take(i as int));
            assert(all.take(i + 1).last() == t);
        }
        if same_party(&t, address) {
            out.push(tx_response(&t, Some(block.height()), Some(block.hash()), "confirmed"));
            proof {
                assert(shown_in(out@) =~= shown_in(before).push(
                    confirmed(t, *block, "confirmed"@),
                ));
                assert(shown_in(out@) =~= start + block_touching(
                    *block,
                    all.take(i + 1),
                    *address,
                ));
            }
        }
        i = i + 1;
    }
    proof {
        assert(all.take(i as int) =~= all);
    }
}

fn push_pending_touching(
    out: &mut Vec<TxResponse>,
    list: &Vec<SignedTransaction>,
    address: &Address,
)
    ensures
        shown_in(final(out)@) == shown_in(old(out)@) + pending_touching(list@, *address),
{
    let ghost start = shown_in(out@);
    let mut i: usize = 0;
    proof {
        assert(list@.take(0) =~= Seq::empty());
        assert(start + Seq::<TxShown>::empty() =~= start);
    }
    while i < list.len()
        invariant
            i <= list@.len(),
            start == shown_in(old(out)@),
            shown_in(out@) == start + pending_touching(list@.take(i as int), *address),
        decreases list@.len() - i,
    {
        let ghost before = out@;
        proof {
            assert(list@.take(i + 1).drop_last() =~= list@.take(i as int));
            assert(list@.take(i + 1).last() == list@[i as int]);
        }
        if same_party(&list[i], address) {
            out.push(tx_response(&list[i], None, None, "pending"));
            proof {
                assert(shown_in(out@) =~= shown_in(before).push(pending(list@[i as int])));
                assert(shown_in(out@) =~= start + pending_touching(list@.take(i + 1), *address));
            }
        }
        i = i + 1;
    }
    proof {
        assert(list@.take(i as int) =~= list@);
    }
}

fn reversed(list: Vec<TxResponse>) -> (r: Vec<TxResponse>)
    ensures
        r@ == list@.reverse(),
{
    let ghost all = list@;
    let mut left = list;
    let mut out: Vec<TxResponse> = Vec::new();
    while left.len() > 0
        invariant
            left@.len() <= all.len(),
            left@ == all.take(left@.len() as int),
            out@ == all.skip(left@.len() as int).reverse(),
        decreases left@.len(),
    {
        let ghost n = left@.len() as int;
        match left.pop() {
            Some(t) => {
                out.push(t);
                proof {
                    assert(all.take(n).drop_last() =~= all.take(n - 1));
                    assert(out@ =~= all.skip(n - 1).reverse());
                }
            },
            None => {},
        }
    }
    assert(all.skip(0) =~= all);
    out
}

/// The transactions that touch an address, the latest first: the pending ones,
/// and then those of the chain from the tip down.
pub open spec fn touching(node: Node, address: Address) -> Result<Seq<TxShown>, Seq<char>> {
    match chain_touching(node.storage@, address, node.height_spec() + 1) {
        Err(error) => Err(error),
        Ok(chain) => Ok(
            (chain + pending_touching(
                mempool::pending_transactions(node.mempool@.entries),
                address,
            )).reverse(),
        ),
    }
}

/// The transactions that touch an address, the latest first.
pub fn address_transactions(node: &Node, address: &Address) -> (r: Result<Vec<TxResponse>, String>)
    requires
        node.wf(),
    ensures
        match touching(*node, *address) {
            Ok(shown) => r matches Ok(list) && shown_in(list@) == shown,
            Err(error) => r matches Err(words) && words@ == error,
        },
{
    let mut out: Vec<TxResponse> = Vec::new();
    let tip: u64 = node.height();
    let mut height: u64 = 0;
    let mut done = false;
    assert(shown_in(out@) =~= Seq::empty());
    while !done
        invariant
            node.wf(),
            tip == node.height_spec(),
            height <= tip,
            done ==> height == tip,
            chain_touching(
                node.storage@,
                *address,
                if done {
                    tip + 1
                } else {
                    height as int
                },
            ) == Ok::<Seq<TxShown>, Seq<char>>(shown_in(out@)),
        decreases
                tip - height,
                if done {
                    0int
                } else {
                    1
                },
    {
        match node.storage.load_block_by_height(Height(height)) {
            Err(error) => {
                let words = load_failure_text(&error);
                proof {
                    assert(chain_touching(node.storage@, *address, height + 1) is Err);
                    failed_stays_failed(node.storage@, *address, height + 1, tip + 1);
                }
                return Err(words);
            },
            Ok(None) => {},
            Ok(Some(block)) => {
                push_block_touching(&mut out, &block, address);
            },
        }
        if height == tip {
            done = true;
        } else {
            height = height + 1;
        }
    }
    push_pending_touching(&mut out, &node.mempool.transactions(), address);
    let ghost forward = out@;
    let list = reversed(out);
    proof {
        assert(shown_in(list@) =~= shown_in(forward).reverse());
    }
    Ok(list)
}

/// The balance of an address in words.
pub open spec fn balance_words(node: Node, address: Address) -> Seq<char> {
    let head = "{\"address\":\""@ + text::hex_text(address.0@) + "\",\"height\":"@ + text::decimal(
        node.height_spec() as nat,
    );
    match node.summary_spec(address) {
        None => head
            + ",\"exists\":false,\"confirmed\":0,\"available\":0,\"pending_incoming\":0,\"pending_outgoing\":0,\"nonce\":null,\"unspendable\":0}"@,
        Some(summary) => head + ",\"exists\":true,\"confirmed\":"@ + text::decimal(
            summary.confirmed.0 as nat,
        ) + ",\"available\":"@ + text::decimal(summary.available.0 as nat)
            + ",\"pending_incoming\":"@ + text::decimal(summary.pending.incoming.0 as nat)
            + ",\"pending_outgoing\":"@ + text::decimal(summary.pending.outgoing.0 as nat)
            + ",\"nonce\":"@ + (match node.account_view_spec(address) {
            Some(account) => text::decimal(account.nonce.0 as nat),
            None => "null"@,
        }) + ",\"unspendable\":"@ + (match node.account_view_spec(address) {
            Some(account) => text::decimal(account.unspendable.0 as nat),
            None => text::decimal(0),
        }) + "}"@,
    }
}

/// The balance of an address in words.
pub fn balance_json(node: &Node, address: &Address) -> (r: String)
    requires
        node.wf(),
    ensures
        r@ == balance_words(*node, *address),
{
    let mut out = text::join4(
        "{\"address\":\"",
        parse::address_to_string(address).as_str(),
        "\",\"height\":",
        text::decimal_text(node.height()).as_str(),
    );
    let summary = match node.balance_summary(address) {
        Some(summary) => summary,
        None => {
            out.append(
                ",\"exists\":false,\"confirmed\":0,\"available\":0,\"pending_incoming\":0,\"pending_outgoing\":0,\"nonce\":null,\"unspendable\":0}",
            );
            return out;
        },
    };
    let account = node.account_view(address);
    let nonce: String = match account {
        Some(account) => text::decimal_text(account.nonce.0),
        None => text::owned("null"),
    };
    let unspendable: u32 = match account {
        Some(account) => account.unspendable.0,
        None => 0,
    };
    out.append(",\"exists\":true,\"confirmed\":");
    out.append(text::decimal_text(summary.confirmed.0 as u64).as_str());
    out.append(",\"available\":");
    out.append(text::decimal_text(summary.available.0 as u64).as_str());
    out.append(",\"pending_incoming\":");
    out.append(text::decimal_text(summary.pending.incoming.0 as u64).as_str());
    out.append(",\"pending_outgoing\":");
    out.append(text::decimal_text(summary.pending.outgoing.0 as u64).as_str());
    out.append(",\"nonce\":");
    out.append(nonce.as_str());
    out.append(",\"unspendable\":");
    out.append(text::decimal_text(unspendable as u64).as_str());
    out.append("}");
    out
}

} // verus!
