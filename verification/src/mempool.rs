//! The transactions that wait for a block.

use crate::clock::current_unix_timestamp;
use crate::ledger::Ledger;
use crate::ordered_map::{self, OrderedMap};
use crate::params::{
    ChainParams, DEFAULT_MARKET_FEE, DEFAULT_MIN_RELAY_FEE, LOW_FEE_EXPIRY_SECS, MAX_MEMPOOL_BYTES,
    MAX_MEMPOOL_TXS, MAX_RELAY_TRANSACTION_AGE_SECS, MEMPOOL_EXPIRY_SECS, MIN_RELAY_FEE_FLOOR,
};
use crate::sort::{self, SortOrder};
use crate::types::{
    Address, Block, Digest, LedgerError, SignedTransaction, StateError, TransactionError, TransactionHash,
};
use vstd::prelude::*;

verus! {

/// Why a transaction does not become pending.
#[derive(Clone, Copy, Debug, PartialEq, Eq, Structural)]
pub enum MempoolError {
    DuplicateTransaction,
    MempoolFull,
    FeeTooLow,
    ReplacementFeeTooLow,
    InvalidTransaction(TransactionError),
    InvalidLedgerState(LedgerError),
}

/// What the node admits, and for how long.
#[derive(Clone, Copy, Debug, PartialEq, Eq)]
pub struct MempoolConfig {
    pub max_transactions: usize,
    pub max_bytes: usize,
    pub transaction_ttl_secs: u64,
    pub low_fee_ttl_secs: u64,
    pub min_relay_fee: u32,
    pub market_fee: u32,
}

/// What a node admits unless it is told otherwise.
pub open spec fn usual_limits() -> MempoolConfig {
    MempoolConfig {
        max_transactions: MAX_MEMPOOL_TXS,
        max_bytes: MAX_MEMPOOL_BYTES,
        transaction_ttl_secs: MEMPOOL_EXPIRY_SECS,
        low_fee_ttl_secs: LOW_FEE_EXPIRY_SECS,
        min_relay_fee: DEFAULT_MIN_RELAY_FEE,
        market_fee: DEFAULT_MARKET_FEE,
    }
}

impl Default for MempoolConfig {
    fn default() -> (r: Self)
        ensures
            r == usual_limits(),
    {
        MempoolConfig {
            max_transactions: MAX_MEMPOOL_TXS,
            max_bytes: MAX_MEMPOOL_BYTES,
            transaction_ttl_secs: MEMPOOL_EXPIRY_SECS,
            low_fee_ttl_secs: LOW_FEE_EXPIRY_SECS,
            min_relay_fee: DEFAULT_MIN_RELAY_FEE,
            market_fee: DEFAULT_MARKET_FEE,
        }
    }
}

/// A pending transaction and the time at which it came.
#[derive(Clone, Copy, Debug, PartialEq, Eq)]
pub struct MempoolEntry {
    pub transaction: SignedTransaction,
    pub inserted_at: u64,
}

/// The pending transactions by hash, and the count of their bytes.
#[verifier::ext_equal]
pub struct PoolState {
    pub entries: Map<Digest, MempoolEntry>,
    pub total_bytes: usize,
}

/// The pool of pending transactions.
#[derive(Clone, Debug, PartialEq, Eq)]
pub struct Mempool {
    transactions: OrderedMap<Digest, MempoolEntry>,
    config: MempoolConfig,
    total_bytes: usize,
    params: ChainParams,
}

/// The sizes of the rows' transactions, added up.
pub open spec fn size_sum(rows: Seq<(Digest, MempoolEntry)>) -> int
    decreases rows.len(),
{
    if rows.len() == 0 {
        0
    } else {
        size_sum(rows.drop_last()) + rows.last().1.transaction.size
    }
}

/// The largest machine count that does not exceed `n`.
pub open spec fn capped(n: int) -> usize {
    if n > usize::MAX {
        usize::MAX
    } else {
        n as usize
    }
}

/// The difference, or zero where it would be negative.
pub open spec fn monus(a: int, b: int) -> int {
    if a > b {
        a - b
    } else {
        0
    }
}

/// How long an entry stays: its fee decides.
pub open spec fn lifetime(config: MempoolConfig, entry: MempoolEntry) -> u64 {
    if entry.transaction.transaction.fee.0 < config.market_fee {
        config.low_fee_ttl_secs
    } else {
        config.transaction_ttl_secs
    }
}

/// The entry has outlived its time.
pub open spec fn expired(config: MempoolConfig, entry: MempoolEntry, now: u64) -> bool {
    monus(now as int, entry.inserted_at as int) > lifetime(config, entry)
}

/// The entries that have not outlived their time.
pub open spec fn survivors(
    entries: Map<Digest, MempoolEntry>,
    config: MempoolConfig,
    now: u64,
) -> Map<Digest, MempoolEntry> {
    Map::new(
        |h: Digest| entries.contains_key(h) && !expired(config, entries[h], now),
        |h: Digest| entries[h],
    )
}

/// The pool without the entries that have outlived their time, its bytes
/// counted anew.
pub open spec fn pruned(state: PoolState, config: MempoolConfig, now: u64) -> PoolState {
    let entries = survivors(state.entries, config, now);
    PoolState { entries, total_bytes: capped(size_sum(ordered_map::rows_of(entries))) }
}

/// Whether the pool may hold the transaction at all: its signature holds, its
/// time is neither too old nor too far ahead, and its fee reaches the floor.
pub open spec fn admissible(
    config: MempoolConfig,
    params: ChainParams,
    transaction: SignedTransaction,
    now: u64,
) -> Result<(), MempoolError> {
    let timestamp = transaction.transaction.timestamp;
    let floor = if config.min_relay_fee < MIN_RELAY_FEE_FLOOR {
        MIN_RELAY_FEE_FLOOR
    } else {
        config.min_relay_fee
    };
    match transaction.signed {
        Err(error) => Err(MempoolError::InvalidTransaction(error)),
        Ok(_) => if now > timestamp + MAX_RELAY_TRANSACTION_AGE_SECS {
            Err(MempoolError::InvalidTransaction(TransactionError::Expired))
        } else if timestamp > now + params.block_time {
            Err(MempoolError::InvalidTransaction(TransactionError::FromFuture))
        } else if transaction.transaction.fee.0 < floor {
            Err(MempoolError::FeeTooLow)
        } else {
            Ok(())
        },
    }
}

/// The pool without `hash`.
pub open spec fn without(state: PoolState, hash: Digest) -> PoolState {
    if state.entries.contains_key(hash) {
        PoolState {
            entries: state.entries.remove(hash),
            total_bytes: monus(
                state.total_bytes as int,
                state.entries[hash].transaction.size as int,
            ) as usize,
        }
    } else {
        state
    }
}

/// The pool after a transaction came in, in the place of `replacement` if there
/// is one, or why it stays out.
pub open spec fn added(
    state: PoolState,
    config: MempoolConfig,
    transaction: SignedTransaction,
    now: u64,
    replacement: Option<Digest>,
) -> Result<PoolState, MempoolError> {
    let rest = match replacement {
        Some(hash) => without(state, hash),
        None => state,
    };
    let bytes = capped(rest.total_bytes + transaction.size);
    if state.entries.contains_key(transaction.hash) {
        Err(MempoolError::DuplicateTransaction)
    } else if replacement is None && state.entries.dom().len() >= config.max_transactions {
        Err(MempoolError::MempoolFull)
    } else if bytes > config.max_bytes {
        Err(MempoolError::MempoolFull)
    } else {
        Ok(
            PoolState {
                entries: rest.entries.insert(
                    transaction.hash,
                    MempoolEntry { transaction, inserted_at: now },
                ),
                total_bytes: bytes,
            },
        )
    }
}

/// What a submission leads to: the pool after it, and the answer.
pub open spec fn submitted(
    state: PoolState,
    outcome: Result<PoolState, MempoolError>,
    hash: Digest,
) -> (PoolState, Result<Digest, MempoolError>) {
    match outcome {
        Ok(next) => (next, Ok(hash)),
        Err(error) => (state, Err(error)),
    }
}

/// Submission of a transaction without regard to the ledger.
pub open spec fn insertion(
    state: PoolState,
    config: MempoolConfig,
    params: ChainParams,
    transaction: SignedTransaction,
    now: u64,
) -> (PoolState, Result<Digest, MempoolError>) {
    let fresh = pruned(state, config, now);
    let outcome = match admissible(config, params, transaction, now) {
        Err(error) => Err(error),
        Ok(_) => added(fresh, config, transaction, now, None),
    };
    submitted(fresh, outcome, transaction.hash)
}

/// Row `i` is pending from the same sender under the same nonce.
pub open spec fn conflicts(
    rows: Seq<(Digest, MempoolEntry)>,
    transaction: SignedTransaction,
    i: int,
) -> bool {
    &&& 0 <= i < rows.len()
    &&& rows[i].1.transaction.transaction.from == transaction.transaction.from
    &&& rows[i].1.transaction.transaction.nonce == transaction.transaction.nonce
}

/// The first such row.
pub open spec fn first_conflict(
    rows: Seq<(Digest, MempoolEntry)>,
    transaction: SignedTransaction,
) -> Option<int> {
    if exists|i: int| conflicts(rows, transaction, i) {
        Some(
            choose|i: int|
                conflicts(rows, transaction, i) && forall|j: int|
                    0 <= j < i ==> !conflicts(rows, transaction, j),
        )
    } else {
        None
    }
}

/// The pending transaction whose place the new one takes, if its fee is higher.
pub open spec fn replacement(
    entries: Map<Digest, MempoolEntry>,
    transaction: SignedTransaction,
) -> Result<Option<Digest>, MempoolError> {
    let rows = ordered_map::rows_of(entries);
    match first_conflict(rows, transaction) {
        None => Ok(None),
        Some(i) => if transaction.transaction.fee.0
            <= rows[i].1.transaction.transaction.fee.0 {
            Err(MempoolError::ReplacementFeeTooLow)
        } else {
            Ok(Some(rows[i].0))
        },
    }
}

/// The transactions of the entries in the order of their hashes.
pub open spec fn pending_transactions(entries: Map<Digest, MempoolEntry>) -> Seq<
    SignedTransaction,
> {
    let rows = ordered_map::rows_of(entries);
    Seq::new(rows.len(), |i: int| rows[i].1.transaction)
}

/// Transactions in the order of their nonces.
pub struct ByNonce;

impl SortOrder<SignedTransaction> for ByNonce {
    open spec fn before(a: SignedTransaction, b: SignedTransaction) -> bool {
        a.transaction.nonce.0 < b.transaction.nonce.0
    }

    proof fn irreflexive(a: SignedTransaction) {
    }

    proof fn transitive(a: SignedTransaction, b: SignedTransaction, c: SignedTransaction) {
    }

    proof fn negatively_transitive(
        a: SignedTransaction,
        b: SignedTransaction,
        c: SignedTransaction,
    ) {
    }

    fn is_before(a: &SignedTransaction, b: &SignedTransaction) -> (r: bool) {
        a.transaction.nonce.0 < b.transaction.nonce.0
    }
}

/// The rows' transactions from `from`, but for the one under `excluded`.
pub open spec fn pending_from(
    rows: Seq<(Digest, MempoolEntry)>,
    from: Address,
    excluded: Option<Digest>,
) -> Seq<SignedTransaction>
    decreases rows.len(),
{
    if rows.len() == 0 {
        Seq::empty()
    } else {
        let earlier = pending_from(rows.drop_last(), from, excluded);
        let row = rows.last();
        if excluded != Some(row.0) && row.1.transaction.transaction.from == from {
            earlier.push(row.1.transaction)
        } else {
            earlier
        }
    }
}

/// A sender's pending transactions in the order of their nonces.
pub open spec fn sender_queue(
    entries: Map<Digest, MempoolEntry>,
    from: Address,
    excluded: Option<Digest>,
) -> Seq<SignedTransaction> {
    sort::stable_sorted::<SignedTransaction, ByNonce>(
        pending_from(ordered_map::rows_of(entries), from, excluded),
    )
}

/// What an account that expects `nonce` next and may spend `funds` expects and
/// may spend after a transaction.
pub open spec fn spend(transaction: SignedTransaction, nonce: u64, funds: u32) -> Result<
    (u64, u32),
    StateError,
> {
    let total = transaction.transaction.amount.0 + transaction.transaction.fee.0;
    if transaction.transaction.nonce.0 != nonce {
        Err(StateError::InvalidNonce)
    } else if total > u32::MAX {
        Err(StateError::BalanceOverflow)
    } else if funds < total {
        Err(StateError::InsufficientBalance)
    } else {
        Ok(
            (
                if nonce == u64::MAX {
                    nonce
                } else {
                    (nonce + 1) as u64
                },
                (funds - total) as u32,
            ),
        )
    }
}

/// The same after a queue of transactions, one after the other, up to the first
/// that the account does not admit.
pub open spec fn spend_all(queue: Seq<SignedTransaction>, nonce: u64, funds: u32) -> Result<
    (u64, u32),
    StateError,
>
    decreases queue.len(),
{
    if queue.len() == 0 {
        Ok((nonce, funds))
    } else {
        match spend_all(queue.drop_last(), nonce, funds) {
            Ok((next, left)) => spend(queue.last(), next, left),
            Err(error) => Err(error),
        }
    }
}

/// Whether the sender's account admits the transaction after all that is
/// pending from the sender.
pub open spec fn ledger_verdict(
    entries: Map<Digest, MempoolEntry>,
    ledger: Ledger,
    transaction: SignedTransaction,
    excluded: Option<Digest>,
) -> Result<(), MempoolError> {
    let from = transaction.transaction.from;
    match transaction.signed {
        Err(error) => Err(MempoolError::InvalidTransaction(error)),
        Ok(_) => match ledger.account_spec(from) {
            None => Err(MempoolError::InvalidLedgerState(LedgerError::AccountNotFound)),
            Some(account) => match spend_all(
                sender_queue(entries, from, excluded).push(transaction),
                account.nonce.0,
                account.available.0,
            ) {
                Ok(_) => Ok(()),
                Err(error) => Err(
                    MempoolError::InvalidLedgerState(LedgerError::InvalidState(error)),
                ),
            },
        },
    }
}

/// Submission of a transaction that the ledger has to admit.
pub open spec fn validated_insertion(
    state: PoolState,
    config: MempoolConfig,
    params: ChainParams,
    ledger: Ledger,
    transaction: SignedTransaction,
    now: u64,
) -> (PoolState, Result<Digest, MempoolError>) {
    let fresh = pruned(state, config, now);
    let outcome = match admissible(config, params, transaction, now) {
        Err(error) => Err(error),
        Ok(_) => match replacement(fresh.entries, transaction) {
            Err(error) => Err(error),
            Ok(replaced) => match ledger_verdict(fresh.entries, ledger, transaction, replaced) {
                Err(error) => Err(error),
                Ok(_) => added(fresh, config, transaction, now, replaced),
            },
        },
    };
    submitted(fresh, outcome, transaction.hash)
}

/// The hashes of a block's transactions.
pub open spec fn block_hashes(block: Block) -> Set<Digest> {
    hashes_of(block.data.transactions@)
}

/// The hashes of transactions.
pub open spec fn hashes_of(transactions: Seq<SignedTransaction>) -> Set<Digest> {
    Set::new(|h: Digest| exists|i: int| has_hash(transactions, i, h))
}

/// Transaction `i` has the hash `h`.
pub open spec fn has_hash(transactions: Seq<SignedTransaction>, i: int, h: Digest) -> bool {
    0 <= i < transactions.len() && transactions[i].hash == h
}

/// A queue that is not admitted as far as `k` is not admitted at all, for the
/// same reason.
proof fn spend_all_stops(queue: Seq<SignedTransaction>, nonce: u64, funds: u32, k: int)
    requires
        0 <= k <= queue.len(),
        spend_all(queue.take(k), nonce, funds) is Err,
    ensures
        spend_all(queue, nonce, funds) == spend_all(queue.take(k), nonce, funds),
    decreases queue.len(),
{
    if k == queue.len() {
        assert(queue.take(k) =~= queue);
    } else {
        assert(queue.drop_last().take(k) =~= queue.take(k));
        spend_all_stops(queue.drop_last(), nonce, funds, k);
    }
}

pub(crate) proof fn size_sum_nonnegative(rows: Seq<(Digest, MempoolEntry)>)
    ensures
        size_sum(rows) >= 0,
    decreases rows.len(),
{
    if rows.len() > 0 {
        size_sum_nonnegative(rows.drop_last());
    }
}

proof fn size_sum_take(rows: Seq<(Digest, MempoolEntry)>, i: int)
    requires
        0 <= i < rows.len(),
    ensures
        size_sum(rows.take(i + 1)) == size_sum(rows.take(i)) + rows[i].1.transaction.size,
{
    assert(rows.take(i + 1).drop_last() =~= rows.take(i));
}

pub(crate) proof fn size_sum_insert(rows: Seq<(Digest, MempoolEntry)>, at: int, row: (Digest, MempoolEntry))
    requires
        0 <= at <= rows.len(),
    ensures
        size_sum(rows.insert(at, row)) == size_sum(rows) + row.1.transaction.size,
    decreases rows.len(),
{
    let out = rows.insert(at, row);
    if at == rows.len() {
        assert(out.drop_last() =~= rows);
    } else {
        assert(out.drop_last() =~= rows.drop_last().insert(at, row));
        assert(out.last() == rows.last());
        size_sum_insert(rows.drop_last(), at, row);
    }
}

pub(crate) proof fn size_sum_remove(rows: Seq<(Digest, MempoolEntry)>, i: int)
    requires
        0 <= i < rows.len(),
    ensures
        size_sum(rows) == size_sum(rows.remove(i)) + rows[i].1.transaction.size,
{
    assert(rows.remove(i).insert(i, rows[i]) =~= rows);
    size_sum_insert(rows.remove(i), i, rows[i]);
}

impl View for Mempool {
    type V = PoolState;

    closed spec fn view(&self) -> PoolState {
        PoolState { entries: self.transactions@, total_bytes: self.total_bytes }
    }
}

impl Mempool {
    /// What the pool admits.
    pub closed spec fn limits(&self) -> MempoolConfig {
        self.config
    }

    /// The chain that the pool belongs to.
    pub closed spec fn chain(&self) -> ChainParams {
        self.params
    }

    /// The pending transactions in the order of their hashes.
    pub closed spec fn rows(&self) -> Seq<(Digest, MempoolEntry)> {
        self.transactions.rows()
    }

    /// Every transaction stands under its own hash, and the pool keeps to its
    /// limits: no more transactions than it may hold and, with a byte limit
    /// below the largest machine count, no more bytes than are counted and no
    /// more counted than the limit.
    pub closed spec fn wf(&self) -> bool {
        &&& self.transactions.wf()
        &&& forall|i: int|
            0 <= i < self.rows().len() ==> (#[trigger] self.rows()[i]).0
                == self.rows()[i].1.transaction.hash
        &&& self.rows().len() <= self.config.max_transactions
        &&& self.config.max_bytes < usize::MAX ==> size_sum(self.rows()) <= self.total_bytes
            <= self.config.max_bytes
    }

    /// What holds of every well-formed pool: its rows are its entries in hash
    /// order, each under its own hash, within the limits.
    pub proof fn keeps_its_limits(&self)
        requires
            self.wf(),
        ensures
            self.rows() == ordered_map::rows_of(self@.entries),
            ordered_map::ascending(self.rows()),
            ordered_map::rows_map(self.rows()) == self@.entries,
            self@.entries.dom().finite(),
            self.rows().len() == self@.entries.dom().len(),
            forall|h: Digest| #[trigger]
                self@.entries.contains_key(h) ==> self@.entries[h].transaction.hash == h,
            self@.entries.dom().len() <= self.limits().max_transactions,
            self.limits().max_bytes < usize::MAX ==> size_sum(ordered_map::rows_of(self@.entries))
                <= self@.total_bytes <= self.limits().max_bytes,
    {
        ordered_map::rows_are_rows_of(self.rows());
        ordered_map::rows_count(self.rows());
        ordered_map::rows_are_entries(self.rows());
        assert forall|h: Digest| #[trigger] self@.entries.contains_key(
            h,
        ) implies self@.entries[h].transaction.hash == h by {
            assert(ordered_map::has_key(self.rows(), h));
            let i = choose|i: int| ordered_map::key_at(self.rows(), h, i);
            assert(self.rows()[i].0 == h);
        }
    }

    /// An empty pool with the usual limits.
    pub fn new(params: ChainParams) -> (r: Self)
        ensures
            r.wf(),
            r@.entries == Map::<Digest, MempoolEntry>::empty(),
            r@.total_bytes == 0,
            r.limits() == usual_limits(),
            r.chain() == params,
    {
        Mempool::with_config(MempoolConfig::default(), params)
    }

    /// An empty pool with limits of its own.
    pub fn with_config(config: MempoolConfig, params: ChainParams) -> (r: Self)
        ensures
            r.wf(),
            r@.entries == Map::<Digest, MempoolEntry>::empty(),
            r@.total_bytes == 0,
            r.limits() == config,
            r.chain() == params,
    {
        Mempool { transactions: OrderedMap::new(), config, total_bytes: 0, params }
    }

    /// What the pool admits.
    pub fn config(&self) -> (r: MempoolConfig)
        ensures
            r == self.limits(),
    {
        self.config
    }

    /// The difficulty that the chain starts from.
    pub fn difficulty_start(&self) -> (r: u32)
        ensures
            r == self.chain().difficulty_start,
    {
        self.params.difficulty_start
    }

    /// Takes out the entries that have outlived their time, and says how many.
    pub fn prune_expired(&mut self, now: u64) -> (count: usize)
        requires
            old(self).wf(),
        ensures
            final(self).wf(),
            final(self)@ == pruned(old(self)@, old(self).limits(), now),
            final(self).limits() == old(self).limits(),
            final(self).chain() == old(self).chain(),
            count == old(self)@.entries.dom().len() - final(self)@.entries.dom().len(),
    {
        let before: usize = self.transactions.len();
        let ghost entries = self@.entries;
        let ghost config = self.config;
        let ghost params = self.params;
        let ghost bytes = self.total_bytes;
        let mut retained_bytes: usize = 0;
        let mut i: usize = 0;
        proof {
            self.keeps_its_limits();
        }
        while i < self.transactions.len()
            invariant
                self.transactions.wf(),
                self.config == config,
                self.params == params,
                self.total_bytes == bytes,
                forall|j: int|
                    0 <= j < self.rows().len() ==> (#[trigger] self.rows()[j]).0
                        == self.rows()[j].1.transaction.hash,
                i <= self.rows().len() <= before,
                before <= config.max_transactions,
                config.max_bytes < usize::MAX ==> size_sum(self.rows()) <= bytes
                    <= config.max_bytes,
                retained_bytes == capped(size_sum(self.rows().take(i as int))),
                forall|j: int| 0 <= j < i ==> !expired(config, (#[trigger] self.rows()[j]).1, now),
                forall|h: Digest|
                    entries.contains_key(h) && !expired(config, entries[h], now)
                        ==> #[trigger] self.transactions@.contains_key(h),
                forall|h: Digest| #[trigger]
                    self.transactions@.contains_key(h) ==> entries.contains_key(h)
                        && self.transactions@[h] == entries[h],
            decreases self.rows().len() - i,
        {
            let entry: MempoolEntry = *self.transactions.value(i);
            let ttl: u64 = if entry.transaction.transaction.fee.0 < self.config.market_fee {
                self.config.low_fee_ttl_secs
            } else {
                self.config.transaction_ttl_secs
            };
            let ghost rows = self.rows();
            proof {
                size_sum_take(rows, i as int);
                size_sum_nonnegative(rows.take(i as int));
                ordered_map::rows_are_entries(rows);
                assert(self.transactions@.contains_key(rows[i as int].0));
            }
            if now.saturating_sub(entry.inserted_at) <= ttl {
                retained_bytes = retained_bytes.saturating_add(entry.transaction.size);
                i = i + 1;
            } else {
                proof {
                    size_sum_remove(rows, i as int);
                    assert(rows.remove(i as int).take(i as int) =~= rows.take(i as int));
                }
                self.transactions.remove_row(i);
                proof {
                    assert forall|j: int| 0 <= j < self.rows().len() implies (
                    #[trigger] self.rows()[j]).0 == self.rows()[j].1.transaction.hash by {
                        let k = if j < i { j } else { j + 1 };
                        assert(self.rows()[j] == rows[k]);
                    }
                    assert forall|j: int| 0 <= j < i implies !expired(
                        config,
                        (#[trigger] self.rows()[j]).1,
                        now,
                    ) by {
                        assert(self.rows()[j] == rows[j]);
                    }
                }
            }
        }
        self.total_bytes = retained_bytes;
        proof {
            let rows = self.rows();
            assert(rows.take(i as int) =~= rows);
            ordered_map::rows_are_entries(rows);
            ordered_map::rows_are_rows_of(rows);
            assert(self.transactions@ =~= survivors(entries, config, now)) by {
                assert forall|h: Digest| #[trigger] self.transactions@.contains_key(
                    h,
                ) implies !expired(config, entries[h], now) by {
                    assert(ordered_map::has_key(rows, h));
                    let j = choose|j: int| ordered_map::key_at(rows, h, j);
                    assert(rows[j].0 == h);
                    assert(self.transactions@[rows[j].0] == rows[j].1);
                }
            }
            size_sum_nonnegative(rows);
            self.keeps_its_limits();
        }
        before - self.transactions.len()
    }

    /// Takes a transaction out.
    pub fn remove(&mut self, hash: &TransactionHash) -> (r: Option<SignedTransaction>)
        requires
            old(self).wf(),
        ensures
            final(self).wf(),
            final(self)@ == without(old(self)@, *hash),
            final(self).limits() == old(self).limits(),
            final(self).chain() == old(self).chain(),
            r == if old(self)@.entries.contains_key(*hash) {
                Some(old(self)@.entries[*hash].transaction)
            } else {
                None
            },
    {
        let ghost rows = self.rows();
        match self.transactions.find(hash) {
            Some(i) => {
                proof {
                    size_sum_remove(rows, i as int);
                    size_sum_nonnegative(rows.remove(i as int));
                }
                let (_, entry) = self.transactions.remove_row(i);
                self.total_bytes = self.total_bytes.saturating_sub(entry.transaction.size);
                proof {
                    assert forall|j: int| 0 <= j < self.rows().len() implies (
                    #[trigger] self.rows()[j]).0 == self.rows()[j].1.transaction.hash by {
                        let k = if j < i { j } else { j + 1 };
                        assert(self.rows()[j] == rows[k]);
                    }
                }
                Some(entry.transaction)
            },
            None => None,
        }
    }

    /// Brings a transaction in, in the place of `replacement` if there is one.
    fn insert_unchecked(
        &mut self,
        transaction: SignedTransaction,
        inserted_at: u64,
        replacement: Option<TransactionHash>,
    ) -> (r: Result<TransactionHash, MempoolError>)
        requires
            old(self).wf(),
            replacement matches Some(h) ==> old(self)@.entries.contains_key(h),
        ensures
            final(self).wf(),
            (final(self)@, r) == submitted(
                old(self)@,
                added(old(self)@, old(self).limits(), transaction, inserted_at, replacement),
                transaction.hash,
            ),
            final(self).limits() == old(self).limits(),
            final(self).chain() == old(self).chain(),
    {
        let hash = transaction.hash();
        proof {
            self.keeps_its_limits();
        }
        if self.transactions.contains_key(&hash) {
            return Err(MempoolError::DuplicateTransaction);
        }
        let transaction_size: usize = transaction.serialized_size();
        let mut replacement_size: usize = 0;
        let mut replaces: bool = false;
        if let Some(old_hash) = replacement {
            replaces = true;
            if let Some(entry) = self.transactions.get(&old_hash) {
                replacement_size = entry.transaction.serialized_size();
            }
        }
        if !replaces && self.transactions.len() >= self.config.max_transactions {
            return Err(MempoolError::MempoolFull);
        }
        if self.total_bytes.saturating_sub(replacement_size).saturating_add(transaction_size)
            > self.config.max_bytes {
            return Err(MempoolError::MempoolFull);
        }
        if let Some(old_hash) = replacement {
            self.remove(&old_hash);
            proof {
                self.keeps_its_limits();
            }
        }
        let ghost rest = self.rows();
        let entry = MempoolEntry { transaction, inserted_at };
        self.transactions.insert(hash, entry);
        proof {
            assert(!ordered_map::rows_map(rest).contains_key(hash));
            let at = choose|at: int|
                0 <= at <= rest.len() && self.rows() == #[trigger] rest.insert(at, (hash, entry));
            size_sum_insert(rest, at, (hash, entry));
            size_sum_nonnegative(rest);
            assert forall|j: int| 0 <= j < self.rows().len() implies (#[trigger] self.rows()[j]).0
                == self.rows()[j].1.transaction.hash by {
                if j < at {
                    assert(self.rows()[j] == rest[j]);
                } else if j > at {
                    assert(self.rows()[j] == rest[j - 1]);
                }
            }
        }
        self.total_bytes = self.total_bytes.saturating_add(transaction_size);
        Ok(hash)
    }

    /// Tests whether the pool may hold the transaction at all.
    fn check_admissible(&self, transaction: &SignedTransaction, now: u64) -> (r: Result<
        (),
        MempoolError,
    >)
        ensures
            r == admissible(self.limits(), self.chain(), *transaction, now),
    {
        match transaction.validate_signed() {
            Err(error) => Err(MempoolError::InvalidTransaction(error)),
            Ok(()) => {
                let timestamp: u64 = transaction.transaction.timestamp;
                let future: u64 = self.params.max_relay_transaction_future_secs();
                let floor: u32 = if self.config.min_relay_fee < MIN_RELAY_FEE_FLOOR {
                    MIN_RELAY_FEE_FLOOR
                } else {
                    self.config.min_relay_fee
                };
                if now.saturating_sub(timestamp) > MAX_RELAY_TRANSACTION_AGE_SECS {
                    Err(MempoolError::InvalidTransaction(TransactionError::Expired))
                } else if timestamp > now.saturating_add(future) {
                    Err(MempoolError::InvalidTransaction(TransactionError::FromFuture))
                } else if transaction.transaction.fee.0 < floor {
                    Err(MempoolError::FeeTooLow)
                } else {
                    Ok(())
                }
            },
        }
    }

    /// Submits a transaction at the time `now`, without regard to the ledger.
    pub fn insert_at(&mut self, transaction: SignedTransaction, now: u64) -> (r: Result<
        TransactionHash,
        MempoolError,
    >)
        requires
            old(self).wf(),
        ensures
            final(self).wf(),
            (final(self)@, r) == insertion(
                old(self)@,
                old(self).limits(),
                old(self).chain(),
                transaction,
                now,
            ),
            final(self).limits() == old(self).limits(),
            final(self).chain() == old(self).chain(),
    {
        self.prune_expired(now);
        match self.check_admissible(&transaction, now) {
            Err(error) => Err(error),
            Ok(()) => self.insert_unchecked(transaction, now, None),
        }
    }

    /// The pending transaction whose place the new one takes.
    fn replacement_candidate(&self, transaction: &SignedTransaction) -> (r: Result<
        Option<TransactionHash>,
        MempoolError,
    >)
        requires
            self.wf(),
        ensures
            r == replacement(self@.entries, *transaction),
            r matches Ok(Some(h)) ==> self@.entries.contains_key(h),
    {
        let ghost rows = self.rows();
        proof {
            self.keeps_its_limits();
            ordered_map::rows_are_entries(rows);
        }
        let mut i: usize = 0;
        while i < self.transactions.len()
            invariant
                self.wf(),
                rows == self.rows(),
                rows == ordered_map::rows_of(self@.entries),
                forall|j: int|
                    0 <= j < rows.len() ==> self@.entries.contains_key((#[trigger] rows[j]).0),
                i <= rows.len(),
                forall|j: int| 0 <= j < i ==> !conflicts(rows, *transaction, j),
            decreases rows.len() - i,
        {
            let entry: &MempoolEntry = self.transactions.value(i);
            if entry.transaction.transaction.from.same(&transaction.transaction.from)
                && entry.transaction.transaction.nonce.0 == transaction.transaction.nonce.0 {
                proof {
                    assert(conflicts(rows, *transaction, i as int));
                    let k = choose|k: int|
                        conflicts(rows, *transaction, k) && forall|j: int|
                            0 <= j < k ==> !conflicts(rows, *transaction, j);
                    assert(k == i);
                }
                if transaction.transaction.fee.0 <= entry.transaction.transaction.fee.0 {
                    return Err(MempoolError::ReplacementFeeTooLow);
                }
                return Ok(Some(self.transactions.key(i)));
            }
            i = i + 1;
        }
        Ok(None)
    }

    /// A sender's pending transactions in the order of their nonces.
    fn queue_of(&self, from: &Address, excluded: Option<TransactionHash>) -> (r: Vec<
        SignedTransaction,
    >)
        requires
            self.wf(),
        ensures
            r@ == sender_queue(self@.entries, *from, excluded),
    {
        let ghost rows = self.rows();
        proof {
            self.keeps_its_limits();
        }
        let mut pending: Vec<SignedTransaction> = Vec::new();
        let mut i: usize = 0;
        while i < self.transactions.len()
            invariant
                rows == self.rows(),
                i <= rows.len(),
                pending@ == pending_from(rows.take(i as int), *from, excluded),
            decreases rows.len() - i,
        {
            let entry: &MempoolEntry = self.transactions.value(i);
            let hash = self.transactions.key(i);
            let kept = match excluded {
                Some(other) => !other.same(&hash),
                None => true,
            };
            if kept && entry.transaction.transaction.from.same(from) {
                pending.push(entry.transaction);
            }
            proof {
                assert(rows.take(i + 1).drop_last() =~= rows.take(i as int));
            }
            i = i + 1;
        }
        proof {
            assert(rows.take(i as int) =~= rows);
        }
        sort::stable_sort::<SignedTransaction, ByNonce>(pending)
    }

    /// Tests whether the sender's account admits the transaction after all that
    /// is pending from the sender, but for `excluded`.
    fn validate_against_ledger_excluding(
        &self,
        ledger: &Ledger,
        transaction: &SignedTransaction,
        excluded: Option<TransactionHash>,
    ) -> (r: Result<(), MempoolError>)
        requires
            self.wf(),
            ledger.wf(),
        ensures
            r == ledger_verdict(self@.entries, *ledger, *transaction, excluded),
    {
        match transaction.validate_signed() {
            Err(error) => {
                return Err(MempoolError::InvalidTransaction(error));
            },
            Ok(()) => {},
        }
        let from = transaction.transaction.from;
        let sender = match ledger.account(&from) {
            Some(account) => account,
            None => {
                return Err(MempoolError::InvalidLedgerState(LedgerError::AccountNotFound));
            },
        };
        let mut queue = self.queue_of(&from, excluded);
        queue.push(*transaction);
        let ghost nonce = sender.nonce.0;
        let ghost funds = sender.available.0;
        let mut expected_nonce: u64 = sender.nonce.0;
        let mut spendable: u32 = sender.available.0;
        let mut i: usize = 0;
        while i < queue.len()
            invariant
                i <= queue@.len(),
                queue@ == sender_queue(self@.entries, from, excluded).push(*transaction),
                from == transaction.transaction.from,
                transaction.signed is Ok,
                ledger.account_spec(from) == Some(sender),
                nonce == sender.nonce.0,
                funds == sender.available.0,
                spend_all(queue@.take(i as int), nonce, funds) == Ok::<(u64, u32), StateError>(
                    (expected_nonce, spendable),
                ),
            decreases queue@.len() - i,
        {
            let pending: SignedTransaction = queue[i];
            proof {
                assert(queue@.take(i + 1).drop_last() =~= queue@.take(i as int));
                if spend_all(queue@.take(i + 1), nonce, funds) is Err {
                    spend_all_stops(queue@, nonce, funds, i + 1);
                }
            }
            if pending.transaction.nonce.0 != expected_nonce {
                return Err(
                    MempoolError::InvalidLedgerState(
                        LedgerError::InvalidState(StateError::InvalidNonce),
                    ),
                );
            }
            let total: u32 = match pending.transaction.amount.0.checked_add(
                pending.transaction.fee.0,
            ) {
                Some(total) => total,
                None => {
                    return Err(
                        MempoolError::InvalidLedgerState(
                            LedgerError::InvalidState(StateError::BalanceOverflow),
                        ),
                    );
                },
            };
            if spendable < total {
                return Err(
                    MempoolError::InvalidLedgerState(
                        LedgerError::InvalidState(StateError::InsufficientBalance),
                    ),
                );
            }
            spendable = spendable - total;
            expected_nonce = expected_nonce.saturating_add(1);
            i = i + 1;
        }
        proof {
            assert(queue@.take(i as int) =~= queue@);
        }
        Ok(())
    }

    /// Tests whether the sender's account admits the transaction after all that
    /// is pending from the sender.
    pub fn validate_against_ledger(&self, ledger: &Ledger, transaction: &SignedTransaction) -> (r:
        Result<(), MempoolError>)
        requires
            self.wf(),
            ledger.wf(),
        ensures
            r == ledger_verdict(self@.entries, *ledger, *transaction, None),
    {
        self.validate_against_ledger_excluding(ledger, transaction, None)
    }

    /// Submits a transaction at the time `now`. The ledger has to admit it. It
    /// takes the place of a pending one with the same sender and nonce if its
    /// fee is higher.
    pub fn insert_validated_at(
        &mut self,
        ledger: &Ledger,
        transaction: SignedTransaction,
        now: u64,
    ) -> (r: Result<TransactionHash, MempoolError>)
        requires
            old(self).wf(),
            ledger.wf(),
        ensures
            final(self).wf(),
            (final(self)@, r) == validated_insertion(
                old(self)@,
                old(self).limits(),
                old(self).chain(),
                *ledger,
                transaction,
                now,
            ),
            final(self).limits() == old(self).limits(),
            final(self).chain() == old(self).chain(),
    {
        self.prune_expired(now);
        match self.check_admissible(&transaction, now) {
            Err(error) => {
                return Err(error);
            },
            Ok(()) => {},
        }
        match self.replacement_candidate(&transaction) {
            Err(error) => Err(error),
            Ok(replaced) => match self.validate_against_ledger_excluding(
                ledger,
                &transaction,
                replaced,
            ) {
                Err(error) => Err(error),
                Ok(()) => self.insert_unchecked(transaction, now, replaced),
            },
        }
    }

    /// Submits a transaction now, without regard to the ledger.
    pub fn insert(&mut self, transaction: SignedTransaction) -> (r: Result<
        TransactionHash,
        MempoolError,
    >)
        requires
            old(self).wf(),
        ensures
            final(self).wf(),
            exists|now: u64|
                (final(self)@, r) == #[trigger] insertion(
                    old(self)@,
                    old(self).limits(),
                    old(self).chain(),
                    transaction,
                    now,
                ),
            final(self).limits() == old(self).limits(),
            final(self).chain() == old(self).chain(),
    {
        let now: u64 = current_unix_timestamp();
        self.insert_at(transaction, now)
    }

    /// Submits a transaction now. The ledger has to admit it.
    pub fn insert_validated(&mut self, ledger: &Ledger, transaction: SignedTransaction) -> (r:
        Result<TransactionHash, MempoolError>)
        requires
            old(self).wf(),
            ledger.wf(),
        ensures
            final(self).wf(),
            exists|now: u64|
                (final(self)@, r) == #[trigger] validated_insertion(
                    old(self)@,
                    old(self).limits(),
                    old(self).chain(),
                    *ledger,
                    transaction,
                    now,
                ),
            final(self).limits() == old(self).limits(),
            final(self).chain() == old(self).chain(),
    {
        let now: u64 = current_unix_timestamp();
        self.insert_validated_at(ledger, transaction, now)
    }

    /// Takes out what a block confirms. The byte count stays as it was until
    /// the next pruning.
    pub fn remove_confirmed(&mut self, block: &Block)
        requires
            old(self).wf(),
        ensures
            final(self).wf(),
            final(self)@ == (PoolState {
                entries: old(self)@.entries.remove_keys(block_hashes(*block)),
                total_bytes: old(self)@.total_bytes,
            }),
            final(self).limits() == old(self).limits(),
            final(self).chain() == old(self).chain(),
    {
        let count: usize = block.transaction_count();
        let ghost confirmed = block.data.transactions@;
        let ghost entries = self@.entries;
        let ghost bytes = self.total_bytes;
        let ghost config = self.config;
        let ghost params = self.params;
        let mut i: usize = 0;
        proof {
            assert(hashes_of(confirmed.take(0)) =~= Set::<Digest>::empty()) by {
                assert forall|h: Digest| !hashes_of(confirmed.take(0)).contains(h) by {}
            }
            assert(entries.remove_keys(hashes_of(confirmed.take(0))) =~= entries);
        }
        while i < count
            invariant
                confirmed == block.data.transactions@,
                count == confirmed.len(),
                i <= count,
                self.wf(),
                self.config == config,
                self.params == params,
                self.total_bytes == bytes,
                self@.entries == entries.remove_keys(hashes_of(confirmed.take(i as int))),
            decreases count - i,
        {
            let hash = block.transaction(i).hash();
            let ghost rows = self.rows();
            proof {
                let done = hashes_of(confirmed.take(i as int));
                let longer = confirmed.take(i + 1);
                let next = hashes_of(longer);
                assert forall|h: Digest| next.contains(h) <==> done.contains(h) || h == hash by {
                    if done.contains(h) {
                        let j = choose|j: int| has_hash(confirmed.take(i as int), j, h);
                        assert(has_hash(longer, j, h));
                    }
                    if h == hash {
                        assert(has_hash(longer, i as int, h));
                    }
                    if next.contains(h) && h != hash {
                        let j = choose|j: int| has_hash(longer, j, h);
                        assert(has_hash(confirmed.take(i as int), j, h));
                    }
                }
                assert(entries.remove_keys(done).remove(hash) =~= entries.remove_keys(next));
            }
            match self.transactions.find(&hash) {
                Some(at) => {
                    proof {
                        size_sum_remove(rows, at as int);
                        size_sum_nonnegative(rows.remove(at as int));
                    }
                    self.transactions.remove_row(at);
                    proof {
                        assert forall|j: int| 0 <= j < self.rows().len() implies (
                        #[trigger] self.rows()[j]).0 == self.rows()[j].1.transaction.hash by {
                            let k = if j < at { j } else { j + 1 };
                            assert(self.rows()[j] == rows[k]);
                        }
                    }
                },
                None => {
                    assert(self@.entries.remove(hash) =~= self@.entries);
                },
            }
            i = i + 1;
        }
        proof {
            assert(confirmed.take(i as int) =~= confirmed);
        }
    }

    /// The pending transaction under `hash`.
    pub fn get(&self, hash: &TransactionHash) -> (r: Option<SignedTransaction>)
        requires
            self.wf(),
        ensures
            r == if self@.entries.contains_key(*hash) {
                Some(self@.entries[*hash].transaction)
            } else {
                None
            },
    {
        match self.transactions.get(hash) {
            Some(entry) => Some(entry.transaction),
            None => None,
        }
    }

    /// The pending transaction at position `i` in the order of hashes.
    pub fn transaction_at(&self, i: usize) -> (r: SignedTransaction)
        requires
            i < self.rows().len(),
        ensures
            r == self.rows()[i as int].1.transaction,
    {
        self.transactions.value(i).transaction
    }

    /// The pending transactions in the order of their hashes.
    pub fn transactions(&self) -> (r: Vec<SignedTransaction>)
        requires
            self.wf(),
        ensures
            r@ == pending_transactions(self@.entries),
    {
        proof {
            self.keeps_its_limits();
        }
        let mut out: Vec<SignedTransaction> = Vec::new();
        let mut i: usize = 0;
        while i < self.transactions.len()
            invariant
                i <= self.rows().len(),
                out@.len() == i,
                forall|j: int| 0 <= j < i ==> #[trigger] out@[j] == self.rows()[j].1.transaction,
            decreases self.rows().len() - i,
        {
            out.push(self.transaction_at(i));
            i = i + 1;
        }
        assert(out@ =~= pending_transactions(self@.entries));
        out
    }

    /// Whether a transaction is pending.
    pub fn contains(&self, hash: &TransactionHash) -> (r: bool)
        requires
            self.wf(),
        ensures
            r == self@.entries.contains_key(*hash),
    {
        self.transactions.contains_key(hash)
    }

    /// The number of pending transactions.
    pub fn len(&self) -> (r: usize)
        requires
            self.wf(),
        ensures
            r == self@.entries.dom().len(),
            r == self.rows().len(),
    {
        proof {
            self.keeps_its_limits();
        }
        self.transactions.len()
    }

    /// The counted bytes of the pending transactions.
    pub fn total_bytes(&self) -> (r: usize)
        ensures
            r == self@.total_bytes,
    {
        self.total_bytes
    }

    /// Whether nothing is pending.
    pub fn is_empty(&self) -> (r: bool)
        requires
            self.wf(),
        ensures
            r == (self@.entries == Map::<Digest, MempoolEntry>::empty()),
            r == (self.rows().len() == 0),
    {
        self.transactions.is_empty()
    }

    /// Takes every transaction out.
    pub fn clear(&mut self)
        requires
            old(self).wf(),
        ensures
            final(self).wf(),
            final(self)@.entries == Map::<Digest, MempoolEntry>::empty(),
            final(self)@.total_bytes == 0,
            final(self).limits() == old(self).limits(),
            final(self).chain() == old(self).chain(),
    {
        self.transactions.clear();
        self.total_bytes = 0;
    }
}

} // verus!
