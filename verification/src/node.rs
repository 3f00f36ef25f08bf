//! The node: the chain that it follows, and what it has beside it.

use crate::cache::{Cached, CoreCache};
use crate::clock::current_unix_timestamp;
use crate::fork_index::{ForkIndex, Known};
use crate::ledger::{AccountMap, Ledger};
use crate::mempool::{self, Mempool, MempoolEntry, MempoolError};
use crate::ordered_map::OrderedMap;
use crate::orphans::{self, OrphanPool, Waiting, MISSING_PARENT_RETRY_SECS};
use crate::params::ChainParams;
use crate::storage::{self, Storage, StorageError};
use crate::types::{
    self, Account, Address, Amount, Block, BlockHash, BlockHeight, ConsensusError, Digest,
    ForkChoiceError, Height, LedgerError, Nonce, SignedTransaction, TransactionHash,
};
use std::sync::Arc;
use vstd::prelude::*;

verus! {

/// Why the node refuses a block or a transaction.
#[derive(Debug, PartialEq, Eq)]
pub enum NodeError {
    Consensus(ConsensusError),
    Genesis(u32),
    ForkChoice(ForkChoiceError),
    Ledger(LedgerError),
    Mempool(MempoolError),
    Storage(StorageError),
    MiningExhausted,
    MissingGenesisState,
    ReorgRequired,
    CheckpointMismatch,
}

/// What pending transactions bring to an address and take from it.
#[derive(Clone, Copy, Debug, PartialEq, Eq, Structural)]
pub struct PendingBalance {
    pub incoming: Amount,
    pub outgoing: Amount,
}

impl Default for PendingBalance {
    fn default() -> (r: Self)
        ensures
            r == (PendingBalance { incoming: Amount(0), outgoing: Amount(0) }),
    {
        PendingBalance { incoming: Amount(0), outgoing: Amount(0) }
    }
}

/// What an address has, may spend, and will have.
#[derive(Clone, Copy, Debug, PartialEq, Eq, Structural)]
pub struct BalanceSummary {
    pub confirmed: Amount,
    pub available: Amount,
    pub pending: PendingBalance,
}

impl Default for BalanceSummary {
    fn default() -> (r: Self)
        ensures
            r == (BalanceSummary {
                confirmed: Amount(0),
                available: Amount(0),
                pending: PendingBalance { incoming: Amount(0), outgoing: Amount(0) },
            }),
    {
        BalanceSummary {
            confirmed: Amount(0),
            available: Amount(0),
            pending: PendingBalance { incoming: Amount(0), outgoing: Amount(0) },
        }
    }
}

/// What an account may spend, what it may not spend yet, and its nonce.
#[derive(Clone, Copy, Debug, PartialEq, Eq, Structural)]
pub struct AccountView {
    pub balance: Amount,
    pub unspendable: Amount,
    pub nonce: Nonce,
}

/// The node. `difficulty` is the difficulty that its consensus rules start
/// from; zero switches the check of difficulties off.
#[derive(Debug)]
pub struct Node {
    pub ledger: Ledger,
    pub mempool: Mempool,
    pub storage: Storage,
    pub cache: CoreCache,
    pub fork_choice: ForkIndex,
    pub orphans: OrphanPool,
    pub genesis_accounts: Arc<AccountMap>,
    pub difficulty: u32,
    pub params: ChainParams,
}

/// The sum, or the largest amount where it does not fit.
pub open spec fn plus(a: u32, b: u32) -> u32 {
    if a + b > u32::MAX {
        u32::MAX
    } else {
        (a + b) as u32
    }
}

/// What a transaction adds to the pending balance of an address.
pub open spec fn pending_with(
    pending: PendingBalance,
    transaction: SignedTransaction,
    address: Address,
) -> PendingBalance {
    let payload = transaction.transaction;
    PendingBalance {
        incoming: if payload.to == address {
            Amount(plus(pending.incoming.0, payload.amount.0))
        } else {
            pending.incoming
        },
        outgoing: if payload.from == address {
            Amount(plus(pending.outgoing.0, plus(payload.amount.0, payload.fee.0)))
        } else {
            pending.outgoing
        },
    }
}

/// The pending balance of an address from some transactions.
pub open spec fn pending_sum(transactions: Seq<SignedTransaction>, address: Address) -> PendingBalance
    decreases transactions.len(),
{
    if transactions.len() == 0 {
        PendingBalance { incoming: Amount(0), outgoing: Amount(0) }
    } else {
        pending_with(
            pending_sum(transactions.drop_last(), address),
            transactions.last(),
            address,
        )
    }
}

/// The index of some blocks.
pub open spec fn index_of(blocks: Seq<(Height, Block)>, n: int) -> Map<Digest, Block>
    decreases n,
{
    if n <= 0 {
        Map::empty()
    } else {
        index_of(blocks, n - 1).insert(blocks[n - 1].1.data.hash, blocks[n - 1].1)
    }
}

/// The first of the ancestors that is known and lies at a height.
pub open spec fn ancestor_at(ancestors: Seq<Digest>, known: Map<Digest, Block>, height: u64) -> Option<
    Block,
>
    decreases ancestors.len(),
{
    if ancestors.len() == 0 {
        None
    } else {
        let first = ancestors[0];
        if known.contains_key(first) && known[first].data.height.0 == height {
            Some(known[first])
        } else {
            ancestor_at(ancestors.skip(1), known, height)
        }
    }
}

/// What the difficulty after a block depends on.
#[derive(Clone, Copy, Debug, PartialEq, Eq, Structural)]
pub struct Window {
    pub difficulty: u32,
    pub first_timestamp: u64,
    pub last_timestamp: u64,
    pub block_count: u64,
}

/// How the difficulty after a tip is found: it is known already, or the
/// consensus rules have to compute it from a window of blocks.
#[derive(Clone, Copy, Debug, PartialEq, Eq, Structural)]
pub enum NextDifficulty {
    Known(u32),
    Retarget(Window),
}

/// The first hash of the new branch that the old one has too.
pub open spec fn first_shared(old_branch: Seq<Digest>, new_branch: Seq<Digest>) -> Option<Digest>
    decreases new_branch.len(),
{
    if new_branch.len() == 0 {
        None
    } else if old_branch.contains(new_branch[0]) {
        Some(new_branch[0])
    } else {
        first_shared(old_branch, new_branch.skip(1))
    }
}

/// Whether a list holds a hash.
pub fn list_contains(list: &Vec<BlockHash>, hash: &BlockHash) -> (r: bool)
    ensures
        r == list@.contains(*hash),
{
    let mut i: usize = 0;
    while i < list.len()
        invariant
            i <= list@.len(),
            forall|j: int| 0 <= j < i ==> list@[j] != *hash,
        decreases list@.len() - i,
    {
        if list[i].same(hash) {
            assert(list@[i as int] == *hash);
            return true;
        }
        i = i + 1;
    }
    false
}

/// The last block that two branches share, both given from their tips down.
pub fn common_ancestor(
    has_old_tip: bool,
    old_branch: &Vec<BlockHash>,
    new_branch: &Vec<BlockHash>,
) -> (r: Option<BlockHash>)
    ensures
        r == if has_old_tip {
            first_shared(old_branch@, new_branch@)
        } else {
            None
        },
{
    if !has_old_tip {
        return None;
    }
    let mut i: usize = 0;
    proof {
        assert(new_branch@.skip(0) =~= new_branch@);
    }
    while i < new_branch.len()
        invariant
            has_old_tip,
            i <= new_branch@.len(),
            first_shared(old_branch@, new_branch@) == first_shared(
                old_branch@,
                new_branch@.skip(i as int),
            ),
        decreases new_branch@.len() - i,
    {
        let hash = new_branch[i];
        proof {
            assert(new_branch@.skip(i as int)[0] == hash);
            assert(new_branch@.skip(i as int).skip(1) =~= new_branch@.skip(i + 1));
        }
        if list_contains(old_branch, &hash) {
            return Some(hash);
        }
        i = i + 1;
    }
    None
}

/// What a common ancestor is: it stands on both branches, and nothing above it
/// on the new branch stands on the old one.
pub proof fn common_ancestor_is_the_last_shared(old_branch: Seq<Digest>, new_branch: Seq<Digest>)
    ensures
        match first_shared(old_branch, new_branch) {
            Some(hash) => exists|i: int|
                0 <= i < new_branch.len() && #[trigger] new_branch[i] == hash
                    && old_branch.contains(hash) && forall|j: int|
                    0 <= j < i ==> !old_branch.contains(#[trigger] new_branch[j]),
            None => forall|j: int|
                0 <= j < new_branch.len() ==> !old_branch.contains(#[trigger] new_branch[j]),
        },
    decreases new_branch.len(),
{
    if new_branch.len() > 0 {
        if old_branch.contains(new_branch[0]) {
            assert(new_branch[0] == new_branch[0]);
        } else {
            let rest = new_branch.skip(1);
            common_ancestor_is_the_last_shared(old_branch, rest);
            match first_shared(old_branch, rest) {
                Some(hash) => {
                    let i = choose|i: int|
                        0 <= i < rest.len() && #[trigger] rest[i] == hash && old_branch.contains(
                            hash,
                        ) && forall|j: int|
                            0 <= j < i ==> !old_branch.contains(#[trigger] rest[j]);
                    assert(new_branch[i + 1] == hash);
                    assert forall|j: int| 0 <= j < i + 1 implies !old_branch.contains(
                        #[trigger] new_branch[j],
                    ) by {
                        if j > 0 {
                            assert(rest[j - 1] == new_branch[j]);
                        }
                    }
                },
                None => {
                    assert forall|j: int| 0 <= j < new_branch.len() implies !old_branch.contains(
                        #[trigger] new_branch[j],
                    ) by {
                        if j > 0 {
                            assert(rest[j - 1] == new_branch[j]);
                        }
                    }
                },
            }
        }
    }
}

impl Node {
    /// All parts are well formed, and the pool belongs to the node's chain.
    pub open spec fn wf(&self) -> bool {
        &&& self.ledger.wf()
        &&& self.mempool.wf()
        &&& self.storage.wf()
        &&& self.cache.wf()
        &&& self.fork_choice.wf()
        &&& self.orphans.wf()
        &&& self.genesis_accounts.wf()
        &&& self.mempool.chain() == self.params
    }

    /// The height of the tip, or zero without one.
    pub open spec fn height_spec(&self) -> u64 {
        match self.ledger.tip_height_spec() {
            Some(height) => height.0,
            None => 0,
        }
    }

    /// A node that begins on a ledger: nothing is pending, no block waits, and the
    /// blocks of the ledger are what it knows.
    pub open spec fn begins_on(
        self,
        ledger: Ledger,
        storage: Storage,
        best_tip: Option<BlockHash>,
        difficulty: u32,
        params: ChainParams,
    ) -> bool {
        &&& self.ledger == ledger
        &&& self.storage == storage
        &&& self.cache@ == Cached::of_ledger(ledger)
        &&& self.fork_choice@.blocks == index_of(
            ledger.blocks.rows(),
            ledger.blocks.rows().len() as int,
        )
        &&& self.fork_choice@.best_tip == if ledger.blocks.rows().len() == 0 {
            None
        } else {
            best_tip
        }
        &&& self.mempool@.entries == Map::<Digest, MempoolEntry>::empty()
        &&& self.mempool@.total_bytes == 0
        &&& self.mempool.limits() == mempool::usual_limits()
        &&& self.mempool.chain() == params
        &&& self.orphans@.blocks == Map::<Digest, orphans::OrphanBlock>::empty()
        &&& self.orphans@.children == Map::<Digest, Seq<Digest>>::empty()
        &&& self.orphans@.requests == Seq::<Digest>::empty()
        &&& self.orphans@.retry_at == Map::<Digest, u64>::empty()
        &&& self.difficulty == difficulty
        &&& self.params == params
    }

    /// A node on a ledger. `best_tip` is the tip that the fork choice prefers
    /// among the ledger's blocks.
    pub fn with_genesis_accounts(
        ledger: Ledger,
        storage: Storage,
        genesis_accounts: Arc<AccountMap>,
        best_tip: Option<BlockHash>,
        difficulty: u32,
        params: ChainParams,
    ) -> (r: Self)
        requires
            ledger.wf(),
            storage.wf(),
            genesis_accounts.wf(),
        ensures
            r.wf(),
            r.begins_on(ledger, storage, best_tip, difficulty, params),
            r.genesis_accounts == genesis_accounts,
    {
        let cache = CoreCache::from_ledger(&ledger);
        let mut fork_choice = ForkIndex::new();
        let ghost blocks = ledger.blocks.rows();
        let mut i: usize = 0;
        while i < ledger.blocks.len()
            invariant
                blocks == ledger.blocks.rows(),
                i <= blocks.len(),
                fork_choice.wf(),
                fork_choice@.blocks == index_of(blocks, i as int),
                fork_choice@.best_tip == if i == 0 {
                    None
                } else {
                    best_tip
                },
            decreases blocks.len() - i,
        {
            fork_choice.insert(ledger.blocks.value(i), best_tip);
            i = i + 1;
        }
        Node {
            ledger,
            mempool: Mempool::new(params),
            storage,
            cache,
            fork_choice,
            orphans: OrphanPool::new(),
            genesis_accounts,
            difficulty,
            params,
        }
    }

    /// A node on a ledger. A ledger of one block is the beginning of the chain,
    /// so its accounts are those of the beginning.
    pub fn new(
        ledger: Ledger,
        storage: Storage,
        best_tip: Option<BlockHash>,
        difficulty: u32,
        params: ChainParams,
    ) -> (r: Self)
        requires
            ledger.wf(),
            storage.wf(),
        ensures
            r.wf(),
            r.begins_on(ledger, storage, best_tip, difficulty, params),
            ledger.tip_height_spec() == Some(Height(0)) ==> r.genesis_accounts == ledger.accounts,
            ledger.tip_height_spec() != Some(Height(0)) ==> r.genesis_accounts@ == Map::<
                Address,
                Account,
            >::empty(),
    {
        let genesis_accounts = initial_accounts(&ledger);
        Node::with_genesis_accounts(
            ledger,
            storage,
            genesis_accounts,
            best_tip,
            difficulty,
            params,
        )
    }

    /// The height of the tip.
    pub fn tip_height(&self) -> (r: Option<BlockHeight>)
        ensures
            r == self.ledger.tip_height_spec(),
    {
        self.ledger.tip_height()
    }

    /// The hash of the tip.
    pub fn tip_hash(&self) -> (r: Option<BlockHash>)
        ensures
            r == self.ledger.tip_hash_spec(),
    {
        self.ledger.tip_hash()
    }

    /// The height of the tip, or zero without one.
    pub fn height(&self) -> (r: u64)
        ensures
            r == self.height_spec(),
    {
        match self.ledger.tip_height() {
            Some(height) => height.0,
            None => 0,
        }
    }

    /// Whether blocks wait for parents or parents have to be asked for.
    pub fn has_pending_sync_work(&self) -> (r: bool)
        requires
            self.wf(),
        ensures
            r == (self.orphans@.blocks != Map::<Digest, orphans::OrphanBlock>::empty()
                || self.orphans@.requests.len() > 0),
    {
        !self.orphans.is_empty() || !self.orphans.has_no_requests()
    }

    /// Submits a transaction to the pool at the time `now`.
    pub fn submit_transaction_at(&mut self, transaction: SignedTransaction, now: u64) -> (r: Result<
        TransactionHash,
        NodeError,
    >)
        requires
            old(self).wf(),
        ensures
            final(self).wf(),
            final(self).mempool@ == mempool::validated_insertion(
                old(self).mempool@,
                old(self).mempool.limits(),
                old(self).mempool.chain(),
                old(self).ledger,
                transaction,
                now,
            ).0,
            r == (match mempool::validated_insertion(
                old(self).mempool@,
                old(self).mempool.limits(),
                old(self).mempool.chain(),
                old(self).ledger,
                transaction,
                now,
            ).1 {
                Ok(hash) => Ok::<Digest, NodeError>(hash),
                Err(error) => Err(NodeError::Mempool(error)),
            }),
            final(self).same_but_pool(*old(self)),
            final(self).mempool.limits() == old(self).mempool.limits(),
            final(self).mempool.chain() == old(self).mempool.chain(),
    {
        match self.mempool.insert_validated_at(&self.ledger, transaction, now) {
            Ok(hash) => Ok(hash),
            Err(error) => Err(NodeError::Mempool(error)),
        }
    }

    /// All but the pool is as in `other`.
    pub open spec fn same_but_pool(self, other: Node) -> bool {
        &&& self.ledger == other.ledger
        &&& self.storage == other.storage
        &&& self.cache == other.cache
        &&& self.fork_choice == other.fork_choice
        &&& self.orphans == other.orphans
        &&& self.genesis_accounts == other.genesis_accounts
        &&& self.difficulty == other.difficulty
        &&& self.params == other.params
    }

    /// All but the waiting blocks is as in `other`.
    pub open spec fn same_but_orphans(self, other: Node) -> bool {
        &&& self.ledger == other.ledger
        &&& self.mempool == other.mempool
        &&& self.storage == other.storage
        &&& self.cache == other.cache
        &&& self.fork_choice == other.fork_choice
        &&& self.genesis_accounts == other.genesis_accounts
        &&& self.difficulty == other.difficulty
        &&& self.params == other.params
    }

    /// Submits a transaction to the pool now.
    pub fn submit_transaction(&mut self, transaction: SignedTransaction) -> (r: Result<
        TransactionHash,
        NodeError,
    >)
        requires
            old(self).wf(),
        ensures
            final(self).wf(),
            exists|now: u64|
                final(self).mempool@ == (#[trigger] mempool::validated_insertion(
                    old(self).mempool@,
                    old(self).mempool.limits(),
                    old(self).mempool.chain(),
                    old(self).ledger,
                    transaction,
                    now,
                )).0 && r == (match mempool::validated_insertion(
                    old(self).mempool@,
                    old(self).mempool.limits(),
                    old(self).mempool.chain(),
                    old(self).ledger,
                    transaction,
                    now,
                ).1 {
                    Ok(hash) => Ok::<Digest, NodeError>(hash),
                    Err(error) => Err(NodeError::Mempool(error)),
                }),
            final(self).same_but_pool(*old(self)),
            final(self).mempool.limits() == old(self).mempool.limits(),
            final(self).mempool.chain() == old(self).mempool.chain(),
    {
        let now: u64 = current_unix_timestamp();
        self.submit_transaction_at(transaction, now)
    }

    /// Writes the ledger down.
    pub fn flush_to_storage(&mut self) -> (r: Result<(), NodeError>)
        requires
            old(self).wf(),
        ensures
            final(self).wf(),
            final(self).storage@ == storage::with_ledger(
                old(self).storage@,
                old(self).ledger,
            ).0,
            r == if storage::with_ledger(old(self).storage@, old(self).ledger).1 {
                Ok::<(), NodeError>(())
            } else {
                Err(
                    NodeError::Storage(StorageError::Integrity("transaction index exceeds u32")),
                )
            },
            storage::journaled(old(self).storage, final(self).storage),
            final(self).ledger == old(self).ledger,
            final(self).mempool == old(self).mempool,
            final(self).cache == old(self).cache,
            final(self).fork_choice == old(self).fork_choice,
            final(self).orphans == old(self).orphans,
            final(self).genesis_accounts == old(self).genesis_accounts,
            final(self).difficulty == old(self).difficulty,
            final(self).params == old(self).params,
    {
        match self.storage.save_ledger(&self.ledger) {
            Ok(()) => Ok(()),
            Err(error) => Err(NodeError::Storage(error)),
        }
    }

    /// What an address has.
    pub fn balance(&self, address: &Address) -> (r: Option<Amount>)
        requires
            self.wf(),
        ensures
            r == (match self.ledger.account_spec(*address) {
                Some(account) => Some(account.balance),
                None => None,
            }),
    {
        match self.ledger.account(address) {
            Some(account) => Some(account.balance),
            None => None,
        }
    }

    /// What an address has on the active chain.
    pub fn confirmed_balance(&self, address: &Address) -> (r: Option<Amount>)
        requires
            self.wf(),
        ensures
            r == (match self.ledger.account_spec(*address) {
                Some(account) => Some(account.balance),
                None => None,
            }),
    {
        self.balance(address)
    }

    /// What an address may spend. The depth makes no difference.
    pub fn available_balance_with_depth(&self, address: &Address, finality_depth: u64) -> (r: Option<
        Amount,
    >)
        requires
            self.wf(),
        ensures
            r == self.available_spec(*address),
    {
        match self.ledger.tip_height() {
            None => None,
            Some(_) => match self.ledger.account(address) {
                Some(account) => Some(account.available),
                None => None,
            },
        }
    }

    /// What an address may spend, once there is a tip.
    pub open spec fn available_spec(&self, address: Address) -> Option<Amount> {
        if self.ledger.tip_height_spec() is None {
            None
        } else {
            match self.ledger.account_spec(address) {
                Some(account) => Some(account.available),
                None => None,
            }
        }
    }

    /// What an address may spend.
    pub fn available_balance(&self, address: &Address) -> (r: Option<Amount>)
        requires
            self.wf(),
        ensures
            r == self.available_spec(*address),
    {
        self.available_balance_with_depth(address, self.params.confirmation_depth as u64)
    }

    /// What pending transactions bring to an address and take from it.
    pub fn pending_balance(&self, address: &Address) -> (r: PendingBalance)
        requires
            self.wf(),
        ensures
            r == pending_sum(mempool::pending_transactions(self.mempool@.entries), *address),
    {
        let transactions = self.mempool.transactions();
        let mut pending = PendingBalance { incoming: Amount(0), outgoing: Amount(0) };
        let mut i: usize = 0;
        while i < transactions.len()
            invariant
                i <= transactions@.len(),
                pending == pending_sum(transactions@.take(i as int), *address),
            decreases transactions@.len() - i,
        {
            let payload = transactions[i].transaction;
            proof {
                assert(transactions@.take(i + 1).drop_last() =~= transactions@.take(i as int));
            }
            if payload.to.same(address) {
                pending.incoming = Amount(
                    pending.incoming.0.saturating_add(payload.amount.0),
                );
            }
            if payload.from.same(address) {
                let total: u32 = payload.amount.0.saturating_add(payload.fee.0);
                pending.outgoing = Amount(pending.outgoing.0.saturating_add(total));
            }
            i = i + 1;
        }
        proof {
            assert(transactions@.take(i as int) =~= transactions@);
        }
        pending
    }

    /// What an address has, may spend, and will have.
    pub open spec fn summary_spec(&self, address: Address) -> Option<BalanceSummary> {
        match (self.ledger.account_spec(address), self.available_spec(address)) {
            (Some(account), Some(available)) => Some(
                BalanceSummary {
                    confirmed: account.balance,
                    available,
                    pending: pending_sum(
                        mempool::pending_transactions(self.mempool@.entries),
                        address,
                    ),
                },
            ),
            _ => None,
        }
    }

    /// What an address has, may spend, and will have.
    pub fn balance_summary(&self, address: &Address) -> (r: Option<BalanceSummary>)
        requires
            self.wf(),
        ensures
            r == self.summary_spec(*address),
    {
        match (self.confirmed_balance(address), self.available_balance(address)) {
            (Some(confirmed), Some(available)) => Some(
                BalanceSummary { confirmed, available, pending: self.pending_balance(address) },
            ),
            _ => None,
        }
    }

    /// What an account may spend, what it may not spend yet, and its nonce.
    pub open spec fn account_view_spec(&self, address: Address) -> Option<AccountView> {
        match self.ledger.account_spec(address) {
            None => None,
            Some(account) => if self.ledger.tip_height_spec() is None {
                None
            } else {
                Some(
                    AccountView {
                        balance: account.available,
                        unspendable: account.unspendable,
                        nonce: account.nonce,
                    },
                )
            },
        }
    }

    /// What an account may spend, what it may not spend yet, and its nonce.
    pub fn account_view(&self, address: &Address) -> (r: Option<AccountView>)
        requires
            self.wf(),
        ensures
            r == self.account_view_spec(*address),
    {
        match self.ledger.account(address) {
            None => None,
            Some(account) => match self.ledger.tip_height() {
                None => None,
                Some(_) => Some(
                    AccountView {
                        balance: account.available,
                        unspendable: account.unspendable,
                        nonce: account.nonce,
                    },
                ),
            },
        }
    }

    /// How the difficulty after the active tip is found.
    pub open spec fn next_difficulty_spec(&self) -> Result<NextDifficulty, NodeError> {
        match self.ledger.tip_height_spec() {
            None => Ok(NextDifficulty::Known(self.difficulty)),
            Some(height) => match storage::window_at(
                self.storage@,
                height,
                self.params.difficulty_adjustment_interval,
            ) {
                Err(error) => Err(NodeError::Storage(error)),
                Ok(None) => Ok(NextDifficulty::Known(self.difficulty)),
                Ok(Some((first_timestamp, last_timestamp, block_count, difficulty))) => Ok(
                    NextDifficulty::Retarget(
                        Window { difficulty, first_timestamp, last_timestamp, block_count },
                    ),
                ),
            },
        }
    }

    /// How the difficulty after the active tip is found.
    pub fn next_difficulty(&self) -> (r: Result<NextDifficulty, NodeError>)
        requires
            self.wf(),
        ensures
            r == self.next_difficulty_spec(),
    {
        match self.ledger.tip_height() {
            None => Ok(NextDifficulty::Known(self.difficulty)),
            Some(height) => match self.storage.difficulty_window(
                height,
                self.params.difficulty_adjustment_interval,
            ) {
                Err(error) => Err(NodeError::Storage(error)),
                Ok(None) => Ok(NextDifficulty::Known(self.difficulty)),
                Ok(Some((first_timestamp, last_timestamp, block_count, difficulty))) => Ok(
                    NextDifficulty::Retarget(
                        Window { difficulty, first_timestamp, last_timestamp, block_count },
                    ),
                ),
            },
        }
    }

    /// How the difficulty after a known block is found on the block's own
    /// branch. `ancestors` lists the block and those below it, from the top
    /// down.
    pub open spec fn branch_difficulty_spec(&self, tip: Digest, ancestors: Seq<Digest>) -> Result<
        NextDifficulty,
        NodeError,
    > {
        let interval = self.params.difficulty_adjustment_interval;
        let known = self.fork_choice@.blocks;
        if !known.contains_key(tip) {
            Err(NodeError::ForkChoice(ForkChoiceError::MissingParent))
        } else if known[tip].data.height.0 < interval {
            Ok(NextDifficulty::Known(self.difficulty))
        } else {
            match ancestor_at(ancestors, known, (known[tip].data.height.0 - interval) as u64) {
                None => Err(NodeError::ReorgRequired),
                Some(first) => Ok(
                    NextDifficulty::Retarget(
                        Window {
                            difficulty: known[tip].data.difficulty,
                            first_timestamp: first.data.timestamp,
                            last_timestamp: known[tip].data.timestamp,
                            block_count: interval,
                        },
                    ),
                ),
            }
        }
    }

    /// How the difficulty after a known block is found on the block's own
    /// branch. `ancestors` lists the block and those below it, from the top
    /// down.
    pub fn next_difficulty_after_branch_tip(&self, tip_hash: &BlockHash, ancestors: &Vec<BlockHash>) -> (r:
        Result<NextDifficulty, NodeError>)
        requires
            self.wf(),
        ensures
            r == self.branch_difficulty_spec(*tip_hash, ancestors@),
    {
        let interval: u64 = self.params.difficulty_adjustment_interval;
        let tip = match self.fork_choice.get(tip_hash) {
            None => {
                return Err(NodeError::ForkChoice(ForkChoiceError::MissingParent));
            },
            Some(tip) => tip,
        };
        if tip.height().0 < interval {
            return Ok(NextDifficulty::Known(self.difficulty));
        }
        let first_height: u64 = tip.height().0 - interval;
        let ghost known = self.fork_choice@.blocks;
        let mut i: usize = 0;
        proof {
            assert(ancestors@.skip(0) =~= ancestors@);
        }
        while i < ancestors.len()
            invariant
                self.wf(),
                known == self.fork_choice@.blocks,
                known.contains_key(*tip_hash),
                tip == known[*tip_hash],
                interval == self.params.difficulty_adjustment_interval,
                interval <= tip.data.height.0,
                first_height == tip.data.height.0 - interval,
                i <= ancestors@.len(),
                ancestor_at(ancestors@, known, first_height) == ancestor_at(
                    ancestors@.skip(i as int),
                    known,
                    first_height,
                ),
            decreases ancestors@.len() - i,
        {
            proof {
                assert(ancestors@.skip(i as int)[0] == ancestors@[i as int]);
                assert(ancestors@.skip(i as int).skip(1) =~= ancestors@.skip(i + 1));
            }
            if let Some(first) = self.fork_choice.get(&ancestors[i]) {
                if first.height().0 == first_height {
                    let block_count: u64 = tip.height().0 - first.height().0;
                    return Ok(
                        NextDifficulty::Retarget(
                            Window {
                                difficulty: tip.difficulty(),
                                first_timestamp: first.timestamp(),
                                last_timestamp: tip.timestamp(),
                                block_count,
                            },
                        ),
                    );
                }
            }
            i = i + 1;
        }
        Err(NodeError::ReorgRequired)
    }

    /// Takes out the blocks that have waited too long or lie too far above the
    /// tip.
    pub fn prune_expired_orphans(&mut self, now: u64)
        requires
            old(self).wf(),
        ensures
            final(self).wf(),
            final(self).orphans@ == orphans::orphans_pruned(
                old(self).orphans@,
                now,
                old(self).height_spec(),
            ),
            final(self).same_but_orphans(*old(self)),
    {
        let height: u64 = self.height();
        self.orphans.prune_expired_orphans(now, height);
    }

    /// What waits after a block whose parent is not known has come.
    pub open spec fn cached_spec(&self, block: Block, now: u64) -> Waiting {
        orphans::orphan_cached(
            self.orphans@,
            block,
            self.fork_choice@.blocks.contains_key(block.data.hash),
            self.fork_choice@.blocks.contains_key(block.data.previous_hash),
            now,
            self.height_spec(),
        )
    }

    /// Lets a block wait for its parent.
    pub fn cache_orphan_block(&mut self, block: Block, now: u64)
        requires
            old(self).wf(),
        ensures
            final(self).wf(),
            final(self).orphans@ == old(self).cached_spec(block, now),
            final(self).same_but_orphans(*old(self)),
    {
        let height: u64 = self.height();
        let known = self.fork_choice.contains(&block.hash());
        let parent_known = self.fork_choice.contains(&block.previous_hash());
        self.orphans.cache_orphan_block(block, known, parent_known, now, height);
    }

    /// Notes that a parent has to be asked for from a time on, unless it is
    /// known.
    pub fn queue_missing_parent_request_at(&mut self, hash: BlockHash, retry_at: u64)
        requires
            old(self).wf(),
        ensures
            final(self).wf(),
            final(self).orphans@ == if old(self).fork_choice@.blocks.contains_key(hash) {
                old(self).orphans@
            } else {
                orphans::requested(old(self).orphans@, hash, retry_at)
            },
            final(self).same_but_orphans(*old(self)),
    {
        if self.fork_choice.contains(&hash) {
            return;
        }
        self.orphans.request_at(hash, retry_at);
    }

    /// The parents to ask for of which the time has come.
    pub fn drain_missing_parent_requests_at(&mut self, now: u64) -> (r: Vec<BlockHash>)
        requires
            old(self).wf(),
        ensures
            final(self).wf(),
            final(self).orphans@ == orphans::drained(old(self).orphans@, now),
            r@ == orphans::ready(old(self).orphans@.requests, old(self).orphans@.retry_at, now),
            final(self).same_but_orphans(*old(self)),
    {
        self.orphans.drain_missing_parent_requests_at(now)
    }

    /// The parents to ask for now.
    pub fn drain_missing_parent_requests(&mut self) -> (r: Vec<BlockHash>)
        requires
            old(self).wf(),
        ensures
            final(self).wf(),
            exists|now: u64|
                final(self).orphans@ == #[trigger] orphans::drained(old(self).orphans@, now) && r@
                    == orphans::ready(old(self).orphans@.requests, old(self).orphans@.retry_at, now),
            final(self).same_but_orphans(*old(self)),
    {
        let now: u64 = current_unix_timestamp();
        self.drain_missing_parent_requests_at(now)
    }

    /// Notes at the time `now` that a parent has to be asked for again after a
    /// while.
    pub fn retry_missing_parent_request_at(&mut self, hash: BlockHash, now: u64)
        requires
            old(self).wf(),
        ensures
            final(self).wf(),
            final(self).orphans@ == if old(self).fork_choice@.blocks.contains_key(hash) {
                old(self).orphans@
            } else {
                orphans::requested(
                    old(self).orphans@,
                    hash,
                    orphans::plus(now, MISSING_PARENT_RETRY_SECS),
                )
            },
            final(self).same_but_orphans(*old(self)),
    {
        self.queue_missing_parent_request_at(hash, now.saturating_add(MISSING_PARENT_RETRY_SECS));
    }

    /// Notes that a parent has to be asked for again after a while.
    pub fn retry_missing_parent_request(&mut self, hash: BlockHash)
        requires
            old(self).wf(),
        ensures
            final(self).wf(),
            exists|now: u64|
                final(self).orphans@ == if old(self).fork_choice@.blocks.contains_key(hash) {
                    old(self).orphans@
                } else {
                    orphans::requested(
                        old(self).orphans@,
                        hash,
                        #[trigger] orphans::plus(now, MISSING_PARENT_RETRY_SECS),
                    )
                },
            final(self).same_but_orphans(*old(self)),
    {
        let now: u64 = current_unix_timestamp();
        self.retry_missing_parent_request_at(hash, now);
        assert(orphans::plus(now, MISSING_PARENT_RETRY_SECS) >= 0);
    }
}

/// The accounts of the beginning, as far as a ledger shows them.
pub fn initial_accounts(ledger: &Ledger) -> (r: Arc<AccountMap>)
    requires
        ledger.wf(),
    ensures
        r.wf(),
        ledger.tip_height_spec() == Some(Height(0)) ==> r == ledger.accounts,
        ledger.tip_height_spec() != Some(Height(0)) ==> r@ == Map::<Address, Account>::empty(),
{
    match ledger.tip_height() {
        Some(height) => {
            if height.0 == 0 {
                types::share(&ledger.accounts)
            } else {
                Arc::new(OrderedMap::new())
            }
        },
        None => Arc::new(OrderedMap::new()),
    }
}

} // verus!
