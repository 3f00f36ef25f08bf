//! How a block becomes part of the node's state.
//!
//! The checks of the consensus rules, the fork choice and the ledger are made
//! outside. An import tells which of them comes next, and takes its outcome:
//! each step maps what the import awaits and what came back to what is asked
//! next, until it is done.

use crate::cache::{Cached, CoreCache};
use crate::ledger::Ledger;
use crate::mempool::{self, Mempool, MempoolConfig, PoolState};
use crate::node::{self, NextDifficulty, Node, NodeError, Window};
use crate::ordered_map::OrderedMap;
use crate::params::ChainParams;
use crate::storage::{self, StorageError};
use crate::types::{
    Address, Block, BlockHash, ConsensusError, Digest, ForkChoiceError, Height,
    LedgerError, SignedTransaction,
};
use vstd::prelude::*;

verus! {

/// What came of the check of a block against the state below it: whether the
/// ledger of its branch could be built, the root of the state after it, and
/// whether the ledger takes it.
#[derive(Debug, PartialEq, Eq)]
pub struct StateCheck {
    pub branch: Result<(), NodeError>,
    pub root: Result<Digest, LedgerError>,
    pub applied: Result<(), LedgerError>,
}

/// The ledger of the preferred branch, with the hashes of the old and the new
/// branch from their tips down, and whether the blocks of the new branch above
/// the common ancestor could be listed.
#[derive(Debug)]
pub struct Rebuild {
    pub old_branch: Vec<BlockHash>,
    pub new_branch: Vec<BlockHash>,
    pub branch_found: bool,
    pub ledger: Result<Ledger, NodeError>,
}

/// What came back from outside.
#[derive(Debug)]
pub enum Event {
    Start,
    Consensus(Result<(), ConsensusError>),
    Ancestors(Vec<BlockHash>),
    Difficulty(Result<u32, ConsensusError>),
    Checkpoint(bool),
    State(StateCheck),
    Inserted { result: Result<(), ForkChoiceError>, best_tip: Option<BlockHash> },
    Applied(Result<Ledger, LedgerError>),
    Rebuilt(Rebuild),
}

/// What is asked of the outside.
#[derive(Debug)]
pub enum Action {
    /// Check the block as the first of the chain.
    ValidateGenesis,
    /// List a block and those below it, from the top down.
    ListAncestors(BlockHash),
    /// Compute the difficulty after a window of blocks.
    Retarget(Window),
    /// Check the block against its parent.
    ValidateNext(Block),
    /// Check the block against the checkpoints.
    CheckCheckpoint,
    /// Check the block against the state of the active tip, or of a branch with
    /// the given tip.
    CheckState(Option<BlockHash>),
    /// Let the fork choice take the block in.
    InsertBlock,
    /// Let a copy of the fork choice take the block in. The copy takes the place
    /// of the fork choice if the node notes the block.
    TryBlock,
    /// Apply the block to the ledger.
    ApplyBlock,
    /// Build the ledger of the preferred branch.
    RebuildLedger,
    /// Nothing: the import has ended.
    Done(Result<(), NodeError>),
}

/// What an import awaits.
#[derive(Clone, Copy, Debug, PartialEq, Eq, Structural)]
pub enum Stage {
    Starting,
    AwaitGenesis,
    AwaitAncestors,
    AwaitDifficulty,
    AwaitNext,
    AwaitCheckpoint,
    AwaitState,
    AwaitInsertion,
    AwaitLedger,
    AwaitRebuild,
    Finished,
}

/// What an import awaits after it has asked for something.
pub open spec fn awaiting(action: Action) -> Stage {
    match action {
        Action::ValidateGenesis => Stage::AwaitGenesis,
        Action::ListAncestors(_) => Stage::AwaitAncestors,
        Action::Retarget(_) => Stage::AwaitDifficulty,
        Action::ValidateNext(_) => Stage::AwaitNext,
        Action::CheckCheckpoint => Stage::AwaitCheckpoint,
        Action::CheckState(_) => Stage::AwaitState,
        Action::InsertBlock => Stage::AwaitInsertion,
        Action::TryBlock => Stage::AwaitInsertion,
        Action::ApplyBlock => Stage::AwaitLedger,
        Action::RebuildLedger => Stage::AwaitRebuild,
        Action::Done(_) => Stage::Finished,
    }
}

/// The event is what the import awaits.
pub open spec fn expects(stage: Stage, event: Event) -> bool {
    match stage {
        Stage::Starting => event is Start,
        Stage::AwaitGenesis => event is Consensus,
        Stage::AwaitAncestors => event is Ancestors,
        Stage::AwaitDifficulty => event is Difficulty,
        Stage::AwaitNext => event is Consensus,
        Stage::AwaitCheckpoint => event is Checkpoint,
        Stage::AwaitState => event is State,
        Stage::AwaitInsertion => event is Inserted,
        Stage::AwaitLedger => event is Applied,
        Stage::AwaitRebuild => event is Rebuilt,
        Stage::Finished => false,
    }
}

/// The block stands on the active tip, or begins a chain that has none.
pub open spec fn extends_tip(node: Node, block: Block) -> bool {
    match node.ledger.tip_hash_spec() {
        Some(tip) => block.data.previous_hash == tip,
        None => block.data.height.0 == 0,
    }
}

/// The accounts of the beginning are not known.
pub open spec fn no_genesis(node: Node) -> bool {
    node.genesis_accounts.rows().len() == 0
}

/// The parent of the block, where it is known.
pub open spec fn parent_of(node: Node, block: Block) -> Block {
    node.fork_choice@.blocks[block.data.previous_hash]
}

/// The block has the difficulty that it has to have.
pub open spec fn difficulty_decided(node: Node, block: Block, expected: u32) -> Action {
    if block.data.difficulty != expected {
        Action::Done(Err(NodeError::Consensus(ConsensusError::UnexpectedDifficulty)))
    } else {
        Action::ValidateNext(parent_of(node, block))
    }
}

/// The first step.
pub open spec fn begin(node: Node, block: Block) -> Action {
    if block.data.height.0 == 0 {
        Action::ValidateGenesis
    } else if !node.fork_choice@.blocks.contains_key(block.data.previous_hash) {
        Action::Done(Err(NodeError::ForkChoice(ForkChoiceError::MissingParent)))
    } else if node.difficulty == 0 {
        Action::ValidateNext(parent_of(node, block))
    } else if parent_of(node, block).data.height.0 < node.params.difficulty_adjustment_interval {
        difficulty_decided(node, block, node.difficulty)
    } else {
        Action::ListAncestors(block.data.previous_hash)
    }
}

/// The step after the ancestors are listed.
pub open spec fn ancestors_listed(node: Node, block: Block, ancestors: Seq<Digest>) -> Action {
    match node.branch_difficulty_spec(block.data.previous_hash, ancestors) {
        Err(error) => Action::Done(Err(error)),
        Ok(NextDifficulty::Known(expected)) => difficulty_decided(node, block, expected),
        Ok(NextDifficulty::Retarget(window)) => Action::Retarget(window),
    }
}

/// The step towards the check of the state. Without the accounts of the
/// beginning the state of a side branch cannot be built: such a block is kept
/// unchecked as long as the fork choice prefers another, and never followed.
pub open spec fn towards_state(node: Node, block: Block) -> Action {
    if extends_tip(node, block) {
        Action::CheckState(None)
    } else if no_genesis(node) {
        Action::TryBlock
    } else {
        Action::CheckState(Some(block.data.previous_hash))
    }
}

/// The root that the block claims is the one that the state has after it and,
/// but for the first block, is not zero.
pub open spec fn root_verdict(block: Block, root: Result<Digest, LedgerError>) -> Result<
    (),
    NodeError,
> {
    match root {
        Err(error) => Err(NodeError::Ledger(error)),
        Ok(expected) => if block.data.state_root != expected {
            Err(NodeError::Ledger(LedgerError::InvalidStateRoot))
        } else if !block.data.genesis && block.data.state_root.is_zero_spec() {
            Err(NodeError::Ledger(LedgerError::InvalidStateRoot))
        } else {
            Ok(())
        },
    }
}

/// What the check of the state means for the block.
pub open spec fn state_verdict(block: Block, check: StateCheck) -> Result<(), NodeError> {
    match check.branch {
        Err(error) => Err(error),
        Ok(_) => match root_verdict(block, check.root) {
            Err(error) => Err(error),
            Ok(_) => match check.applied {
                Err(error) => Err(NodeError::Ledger(error)),
                Ok(_) => Ok(()),
            },
        },
    }
}

/// The node notes a block that the fork choice takes in, unless the state below
/// it could not be checked and the fork choice would prefer it.
pub open spec fn noted(node: Node, block: Block, best_tip: Option<Digest>) -> bool {
    best_tip != Some(block.data.hash) || extends_tip(node, block) || !no_genesis(node)
}

/// The step after the fork choice has been asked to take the block in.
pub open spec fn insertion_decided(
    node: Node,
    block: Block,
    result: Result<(), ForkChoiceError>,
    best_tip: Option<Digest>,
) -> Action {
    match result {
        Err(error) => Action::Done(Err(NodeError::ForkChoice(error))),
        Ok(_) => if best_tip != Some(block.data.hash) {
            Action::Done(Ok(()))
        } else if extends_tip(node, block) {
            Action::ApplyBlock
        } else if no_genesis(node) {
            Action::Done(Err(NodeError::MissingGenesisState))
        } else {
            Action::RebuildLedger
        },
    }
}

/// What the writing of a ledger means for the import.
pub open spec fn ledger_written(rows: crate::tables::Rows, ledger: Ledger) -> Result<
    (),
    NodeError,
> {
    if storage::with_ledger(rows, ledger).1 {
        Ok(())
    } else {
        Err(NodeError::Storage(StorageError::Integrity("transaction index exceeds u32")))
    }
}

/// Why the preferred branch cannot be followed, if it cannot.
pub open spec fn rebuild_verdict(node: Node, rebuild: Rebuild) -> Result<(), NodeError> {
    if node.ledger.tip_hash_spec() is None || node::first_shared(
        rebuild.old_branch@,
        rebuild.new_branch@,
    ) is None {
        Err(NodeError::ReorgRequired)
    } else if !rebuild.branch_found {
        Err(NodeError::ReorgRequired)
    } else {
        match rebuild.ledger {
            Err(error) => Err(error),
            Ok(ledger) => ledger_written(node.storage@, ledger),
        }
    }
}

/// What is asked next.
pub open spec fn next_action(node: Node, block: Block, stage: Stage, event: Event) -> Action {
    match (stage, event) {
        (Stage::Starting, Event::Start) => begin(node, block),
        (Stage::AwaitGenesis, Event::Consensus(verdict)) => match verdict {
            Err(error) => Action::Done(Err(NodeError::Consensus(error))),
            Ok(_) => towards_state(node, block),
        },
        (Stage::AwaitAncestors, Event::Ancestors(ancestors)) => ancestors_listed(
            node,
            block,
            ancestors@,
        ),
        (Stage::AwaitDifficulty, Event::Difficulty(result)) => match result {
            Err(error) => Action::Done(Err(NodeError::Consensus(error))),
            Ok(expected) => difficulty_decided(node, block, expected),
        },
        (Stage::AwaitNext, Event::Consensus(verdict)) => match verdict {
            Err(error) => Action::Done(Err(NodeError::Consensus(error))),
            Ok(_) => Action::CheckCheckpoint,
        },
        (Stage::AwaitCheckpoint, Event::Checkpoint(holds)) => if holds {
            towards_state(node, block)
        } else {
            Action::Done(Err(NodeError::CheckpointMismatch))
        },
        (Stage::AwaitState, Event::State(check)) => match state_verdict(block, check) {
            Err(error) => Action::Done(Err(error)),
            Ok(_) => Action::InsertBlock,
        },
        (Stage::AwaitInsertion, Event::Inserted { result, best_tip }) => insertion_decided(
            node,
            block,
            result,
            best_tip,
        ),
        (Stage::AwaitLedger, Event::Applied(result)) => match result {
            Err(error) => Action::Done(Err(NodeError::Ledger(error))),
            Ok(ledger) => Action::Done(ledger_written(node.storage@, ledger)),
        },
        (Stage::AwaitRebuild, Event::Rebuilt(rebuild)) => Action::Done(
            rebuild_verdict(node, rebuild),
        ),
        _ => Action::Done(Ok(())),
    }
}

/// A cache with the accounts of an address, if the ledger has one.
pub open spec fn with_account_at(cached: Cached, ledger: Ledger, address: Address) -> Cached {
    match ledger.account_spec(address) {
        Some(account) => cached.with_account(account),
        None => cached,
    }
}

/// A cache with the senders and receivers of the first `n` transactions.
pub open spec fn with_parties(
    cached: Cached,
    ledger: Ledger,
    transactions: Seq<SignedTransaction>,
    n: int,
) -> Cached
    decreases n,
{
    if n <= 0 {
        cached
    } else {
        let payload = transactions[n - 1].transaction;
        with_account_at(
            with_account_at(with_parties(cached, ledger, transactions, n - 1), ledger, payload.from),
            ledger,
            payload.to,
        )
    }
}

/// A cache with a block and the accounts that it touches.
pub open spec fn cache_extended(cached: Cached, ledger: Ledger, block: Block) -> Cached {
    let transactions = block.data.transactions@;
    with_account_at(
        with_parties(
            cached.with_block(block),
            ledger,
            transactions,
            transactions.len() as int,
        ),
        ledger,
        block.data.miner_address,
    )
}

/// The pool after the first `n` of some transactions were submitted again.
#[verifier::opaque]
pub open spec fn resubmitted(
    pool: PoolState,
    config: MempoolConfig,
    params: ChainParams,
    ledger: Ledger,
    transactions: Seq<SignedTransaction>,
    n: int,
    now: u64,
) -> PoolState
    decreases n,
{
    if n <= 0 {
        pool
    } else {
        mempool::validated_insertion(
            resubmitted(pool, config, params, ledger, transactions, n - 1, now),
            config,
            params,
            ledger,
            transactions[n - 1],
            now,
        ).0
    }
}

/// The pool after the transactions of those of the first `n` blocks that the
/// new branch does not have were submitted again.
#[verifier::opaque]
pub open spec fn recovered(
    pool: PoolState,
    config: MempoolConfig,
    params: ChainParams,
    ledger: Ledger,
    blocks: Seq<(Height, Block)>,
    new_branch: Seq<Digest>,
    n: int,
    now: u64,
) -> PoolState
    decreases n,
{
    if n <= 0 {
        pool
    } else {
        let earlier = recovered(pool, config, params, ledger, blocks, new_branch, n - 1, now);
        let block = blocks[n - 1].1;
        if new_branch.contains(block.data.hash) {
            earlier
        } else {
            let transactions = block.data.transactions@;
            resubmitted(
                earlier,
                config,
                params,
                ledger,
                transactions,
                transactions.len() as int,
                now,
            )
        }
    }
}

/// What a step does to the node. Only the last three events do anything.
pub open spec fn stepped(before: Node, after: Node, block: Block, event: Event, now: u64) -> bool {
    &&& after.orphans == before.orphans
    &&& after.genesis_accounts == before.genesis_accounts
    &&& after.difficulty == before.difficulty
    &&& after.params == before.params
    &&& after.mempool.limits() == before.mempool.limits()
    &&& after.mempool.chain() == before.mempool.chain()
    &&& storage::journaled(before.storage, after.storage)
    &&& match event {
        Event::Inserted { result: Ok(_), best_tip } if noted(before, block, best_tip) => {
            &&& after.ledger == before.ledger
            &&& after.mempool == before.mempool
            &&& after.cache == before.cache
            &&& after.fork_choice@ == before.fork_choice@.with_block(block, best_tip)
            &&& after.storage@ == if best_tip != Some(block.data.hash) {
                crate::tables::Rows {
                    blocks_by_hash: before.storage@.blocks_by_hash.insert(
                        block.data.hash,
                        Ok(block),
                    ),
                    ..before.storage@
                }
            } else {
                before.storage@
            }
        },
        Event::Applied(Ok(ledger)) => {
            &&& after.ledger == ledger
            &&& after.fork_choice == before.fork_choice
            &&& after.mempool@ == (PoolState {
                entries: before.mempool@.entries.remove_keys(mempool::block_hashes(block)),
                total_bytes: before.mempool@.total_bytes,
            })
            &&& after.cache@ == cache_extended(before.cache@, ledger, block)
            &&& after.storage@ == storage::with_ledger(before.storage@, ledger).0
        },
        Event::Rebuilt(rebuild) => {
            &&& after.fork_choice == before.fork_choice
            &&& match rebuild.ledger {
                Ok(ledger) if before.ledger.tip_hash_spec() is Some && node::first_shared(
                    rebuild.old_branch@,
                    rebuild.new_branch@,
                ) is Some && rebuild.branch_found => {
                    &&& after.ledger == ledger
                    &&& after.cache@ == Cached::of_ledger(ledger)
                    &&& after.storage@ == storage::with_ledger(before.storage@, ledger).0
                    &&& after.mempool@ == if storage::with_ledger(before.storage@, ledger).1 {
                        let blocks = before.ledger.blocks.rows();
                        recovered(
                            before.mempool@,
                            before.mempool.limits(),
                            before.mempool.chain(),
                            ledger,
                            blocks,
                            rebuild.new_branch@,
                            blocks.len() as int,
                            now,
                        )
                    } else {
                        before.mempool@
                    }
                },
                _ => {
                    &&& after.ledger == before.ledger
                    &&& after.mempool == before.mempool
                    &&& after.cache == before.cache
                    &&& after.storage == before.storage
                },
            }
        },
        _ => {
            &&& after.ledger == before.ledger
            &&& after.mempool == before.mempool
            &&& after.cache == before.cache
            &&& after.fork_choice == before.fork_choice
            &&& after.storage == before.storage
        },
    }
}

/// Ledgers that come from outside are well formed.
pub open spec fn event_wf(event: Event) -> bool {
    match event {
        Event::Applied(Ok(ledger)) => ledger.wf(),
        Event::Rebuilt(rebuild) => rebuild.ledger matches Ok(ledger) ==> ledger.wf(),
        _ => true,
    }
}

/// The import of a block.
#[derive(Debug)]
pub struct BlockImport {
    pub block: Block,
    pub stage: Stage,
}

fn stage_of(action: &Action) -> (r: Stage)
    ensures
        r == awaiting(*action),
{
    match action {
        Action::ValidateGenesis => Stage::AwaitGenesis,
        Action::ListAncestors(_) => Stage::AwaitAncestors,
        Action::Retarget(_) => Stage::AwaitDifficulty,
        Action::ValidateNext(_) => Stage::AwaitNext,
        Action::CheckCheckpoint => Stage::AwaitCheckpoint,
        Action::CheckState(_) => Stage::AwaitState,
        Action::InsertBlock => Stage::AwaitInsertion,
        Action::TryBlock => Stage::AwaitInsertion,
        Action::ApplyBlock => Stage::AwaitLedger,
        Action::RebuildLedger => Stage::AwaitRebuild,
        Action::Done(_) => Stage::Finished,
    }
}

/// Checks the root that a block claims against the one that the state has after
/// it.
pub fn validate_canonical_state_root(block: &Block, root: Result<Digest, LedgerError>) -> (r: Result<
    (),
    NodeError,
>)
    ensures
        r == root_verdict(*block, root),
{
    match root {
        Err(error) => Err(NodeError::Ledger(error)),
        Ok(expected) => {
            if !block.state_root().same(&expected) {
                Err(NodeError::Ledger(LedgerError::InvalidStateRoot))
            } else if !block.is_genesis() && block.state_root().is_zero() {
                Err(NodeError::Ledger(LedgerError::InvalidStateRoot))
            } else {
                Ok(())
            }
        },
    }
}

/// Checks a block against the state below it.
pub fn validate_block_state(block: &Block, check: StateCheck) -> (r: Result<(), NodeError>)
    ensures
        r == state_verdict(*block, check),
{
    match check.branch {
        Err(error) => Err(error),
        Ok(()) => match validate_canonical_state_root(block, check.root) {
            Err(error) => Err(error),
            Ok(()) => match check.applied {
                Err(error) => Err(NodeError::Ledger(error)),
                Ok(()) => Ok(()),
            },
        },
    }
}

/// Submits the transactions of a block again.
fn resubmit(pool: &mut Mempool, ledger: &Ledger, block: &Block, now: u64)
    requires
        old(pool).wf(),
        ledger.wf(),
    ensures
        final(pool).wf(),
        final(pool).limits() == old(pool).limits(),
        final(pool).chain() == old(pool).chain(),
        final(pool)@ == resubmitted(
            old(pool)@,
            old(pool).limits(),
            old(pool).chain(),
            *ledger,
            block.data.transactions@,
            block.data.transactions@.len() as int,
            now,
        ),
{
    let ghost start = pool@;
    let ghost config = pool.limits();
    let ghost params = pool.chain();
    let ghost transactions = block.data.transactions@;
    let count: usize = block.transaction_count();
    let mut k: usize = 0;
    proof {
        reveal_with_fuel(resubmitted, 1);
    }
    while k < count
        invariant
            pool.wf(),
            ledger.wf(),
            transactions == block.data.transactions@,
            count == transactions.len(),
            k <= count,
            pool.limits() == config,
            pool.chain() == params,
            pool@ == resubmitted(start, config, params, *ledger, transactions, k as int, now),
        decreases count - k,
    {
        let _ = pool.insert_validated_at(ledger, block.transaction(k), now);
        k = k + 1;
        proof {
            reveal_with_fuel(resubmitted, 2);
        }
    }
}

/// Submits the transactions of the blocks that the new branch does not have
/// again.
fn recover_transactions(
    pool: &mut Mempool,
    ledger: &Ledger,
    blocks: &OrderedMap<Height, Block>,
    new_branch: &Vec<BlockHash>,
    now: u64,
)
    requires
        old(pool).wf(),
        ledger.wf(),
    ensures
        final(pool).wf(),
        final(pool).limits() == old(pool).limits(),
        final(pool).chain() == old(pool).chain(),
        final(pool)@ == recovered(
            old(pool)@,
            old(pool).limits(),
            old(pool).chain(),
            *ledger,
            blocks.rows(),
            new_branch@,
            blocks.rows().len() as int,
            now,
        ),
{
    let ghost start = pool@;
    let ghost config = pool.limits();
    let ghost params = pool.chain();
    let ghost rows = blocks.rows();
    let mut i: usize = 0;
    proof {
        reveal_with_fuel(recovered, 1);
    }
    while i < blocks.len()
        invariant
            pool.wf(),
            ledger.wf(),
            rows == blocks.rows(),
            i <= rows.len(),
            pool.limits() == config,
            pool.chain() == params,
            pool@ == recovered(
                start,
                config,
                params,
                *ledger,
                rows,
                new_branch@,
                i as int,
                now,
            ),
        decreases rows.len() - i,
    {
        let block: &Block = blocks.value(i);
        if !node::list_contains(new_branch, &block.hash()) {
            resubmit(pool, ledger, block, now);
        }
        i = i + 1;
        proof {
            reveal_with_fuel(recovered, 2);
        }
    }
}

impl BlockImport {
    /// An import that has not started.
    pub fn new(block: Block) -> (r: Self)
        ensures
            r.block == block,
            r.stage == Stage::Starting,
    {
        BlockImport { block, stage: Stage::Starting }
    }
}

impl Node {
    /// Whether a block stands on the active tip.
    fn extends_active_tip(&self, block: &Block) -> (r: bool)
        ensures
            r == extends_tip(*self, *block),
    {
        match self.ledger.tip_hash() {
            Some(tip_hash) => block.previous_hash().same(&tip_hash),
            None => block.height().0 == 0,
        }
    }

    fn after_difficulty(&self, block: &Block, expected: u32) -> (r: Action)
        requires
            self.wf(),
            self.fork_choice@.blocks.contains_key(block.data.previous_hash),
        ensures
            r == difficulty_decided(*self, *block, expected),
    {
        if block.difficulty() != expected {
            return Action::Done(Err(NodeError::Consensus(ConsensusError::UnexpectedDifficulty)));
        }
        match self.fork_choice.get(&block.previous_hash()) {
            Some(parent) => Action::ValidateNext(parent),
            None => Action::Done(Err(NodeError::ForkChoice(ForkChoiceError::MissingParent))),
        }
    }

    /// The first step of the check of a block against its parent.
    pub fn validate_block_for_known_parent(&self, block: &Block) -> (r: Action)
        requires
            self.wf(),
        ensures
            r == begin(*self, *block),
    {
        if block.height().0 == 0 {
            return Action::ValidateGenesis;
        }
        let parent = match self.fork_choice.get(&block.previous_hash()) {
            None => {
                return Action::Done(Err(NodeError::ForkChoice(ForkChoiceError::MissingParent)));
            },
            Some(parent) => parent,
        };
        if self.difficulty == 0 {
            Action::ValidateNext(parent)
        } else if parent.height().0 < self.params.difficulty_adjustment_interval {
            self.after_difficulty(block, self.difficulty)
        } else {
            Action::ListAncestors(block.previous_hash())
        }
    }

    /// The step towards the check of a block against the state below it.
    pub fn validate_block_state_for_known_parent(&self, block: &Block) -> (r: Action)
        ensures
            r == towards_state(*self, *block),
    {
        if self.extends_active_tip(block) {
            Action::CheckState(None)
        } else if self.genesis_accounts.len() == 0 {
            Action::TryBlock
        } else {
            Action::CheckState(Some(block.previous_hash()))
        }
    }

    fn after_ancestors(&self, block: &Block, ancestors: &Vec<BlockHash>) -> (r: Action)
        requires
            self.wf(),
        ensures
            r == ancestors_listed(*self, *block, ancestors@),
    {
        match self.next_difficulty_after_branch_tip(&block.previous_hash(), ancestors) {
            Err(error) => Action::Done(Err(error)),
            Ok(NextDifficulty::Known(expected)) => self.after_difficulty(block, expected),
            Ok(NextDifficulty::Retarget(window)) => Action::Retarget(window),
        }
    }

    /// Takes note of what the fork choice made of a block.
    fn after_insertion(
        &mut self,
        block: &Block,
        result: Result<(), ForkChoiceError>,
        best_tip: Option<BlockHash>,
    ) -> (r: Action)
        requires
            old(self).wf(),
        ensures
            final(self).wf(),
            r == insertion_decided(*old(self), *block, result, best_tip),
            stepped(
                *old(self),
                *final(self),
                *block,
                (Event::Inserted { result, best_tip }),
                0,
            ),
    {
        proof {
            storage::journaled_reflexive(self.storage);
        }
        match result {
            Err(error) => Action::Done(Err(NodeError::ForkChoice(error))),
            Ok(()) => {
                let is_best = match best_tip {
                    Some(hash) => hash.same(&block.hash()),
                    None => false,
                };
                let extends = self.extends_active_tip(block);
                if is_best && !extends && self.genesis_accounts.len() == 0 {
                    return Action::Done(Err(NodeError::MissingGenesisState));
                }
                self.fork_choice.insert(block, best_tip);
                if !is_best {
                    self.storage.save_side_block(block);
                    Action::Done(Ok(()))
                } else if extends {
                    Action::ApplyBlock
                } else {
                    Action::RebuildLedger
                }
            },
        }
    }

    /// Keeps the account at an address, if the ledger has one.
    fn cache_account(&mut self, address: &Address)
        requires
            old(self).wf(),
        ensures
            final(self).wf(),
            final(self).cache@ == with_account_at(old(self).cache@, old(self).ledger, *address),
            final(self).ledger == old(self).ledger,
            final(self).mempool == old(self).mempool,
            final(self).storage == old(self).storage,
            final(self).fork_choice == old(self).fork_choice,
            final(self).orphans == old(self).orphans,
            final(self).genesis_accounts == old(self).genesis_accounts,
            final(self).difficulty == old(self).difficulty,
            final(self).params == old(self).params,
    {
        if let Some(account) = self.ledger.account(address) {
            self.cache.insert_account(account);
        }
    }

    /// Follows a block that stands on the active tip to the ledger after it.
    fn after_application(&mut self, block: &Block, ledger: Ledger) -> (r: Result<(), NodeError>)
        requires
            old(self).wf(),
            ledger.wf(),
        ensures
            final(self).wf(),
            r == ledger_written(old(self).storage@, ledger),
            stepped(*old(self), *final(self), *block, Event::Applied(Ok(ledger)), 0),
    {
        let ghost start = *self;
        self.ledger = ledger;
        self.mempool.remove_confirmed(block);
        self.cache.insert_block(block.clone());
        let count: usize = block.transaction_count();
        let ghost transactions = block.data.transactions@;
        let ghost first = *self;
        let mut i: usize = 0;
        while i < count
            invariant
                self.wf(),
                count == transactions.len(),
                transactions == block.data.transactions@,
                i <= count,
                self.cache@ == with_parties(first.cache@, ledger, transactions, i as int),
                self.ledger == ledger,
                self.mempool == first.mempool,
                self.storage == first.storage,
                self.fork_choice == first.fork_choice,
                self.orphans == first.orphans,
                self.genesis_accounts == first.genesis_accounts,
                self.difficulty == first.difficulty,
                self.params == first.params,
            decreases count - i,
        {
            let payload = block.transaction(i).transaction;
            self.cache_account(&payload.from);
            self.cache_account(&payload.to);
            i = i + 1;
        }
        let miner = block.miner_address();
        self.cache_account(&miner);
        match self.storage.save_ledger(&self.ledger) {
            Ok(()) => Ok(()),
            Err(error) => Err(NodeError::Storage(error)),
        }
    }

    /// Follows the preferred branch.
    pub fn reorg_to_best_tip(&mut self, rebuild: Rebuild, now: u64) -> (r: Result<(), NodeError>)
        requires
            old(self).wf(),
            rebuild.ledger matches Ok(ledger) ==> ledger.wf(),
        ensures
            final(self).wf(),
            r == rebuild_verdict(*old(self), rebuild),
            forall|block: Block| #[trigger]
                stepped(*old(self), *final(self), block, Event::Rebuilt(rebuild), now),
    {
        proof {
            storage::journaled_reflexive(self.storage);
        }
        let has_old_tip = self.ledger.tip_hash().is_some();
        match node::common_ancestor(has_old_tip, &rebuild.old_branch, &rebuild.new_branch) {
            None => {
                return Err(NodeError::ReorgRequired);
            },
            Some(_) => {},
        }
        if !rebuild.branch_found {
            return Err(NodeError::ReorgRequired);
        }
        let new_ledger = match rebuild.ledger {
            Err(error) => {
                return Err(error);
            },
            Ok(ledger) => ledger,
        };
        let mut old_ledger = new_ledger;
        std::mem::swap(&mut old_ledger, &mut self.ledger);
        self.cache = CoreCache::from_ledger(&self.ledger);
        match self.storage.save_ledger(&self.ledger) {
            Ok(()) => {},
            Err(error) => {
                return Err(NodeError::Storage(error));
            },
        }
        recover_transactions(
            &mut self.mempool,
            &self.ledger,
            &old_ledger.blocks,
            &rebuild.new_branch,
            now,
        );
        Ok(())
    }

    /// One step of an import: takes what came back from outside, and tells what
    /// to do next.
    pub fn import_step(&mut self, import: &mut BlockImport, event: Event, now: u64) -> (r: Action)
        requires
            old(self).wf(),
            expects(old(import).stage, event),
            event_wf(event),
            old(import).stage == Stage::AwaitDifficulty ==> old(
                self,
            ).fork_choice@.blocks.contains_key(old(import).block.data.previous_hash),
        ensures
            final(self).wf(),
            r == next_action(*old(self), old(import).block, old(import).stage, event),
            final(import).block == old(import).block,
            final(import).stage == awaiting(r),
            stepped(*old(self), *final(self), old(import).block, event, now),
            r is Retarget ==> final(self).fork_choice@.blocks.contains_key(
                old(import).block.data.previous_hash,
            ),
    {
        proof {
            storage::journaled_reflexive(self.storage);
        }
        let block = import.block.clone();
        let stage = import.stage;
        let action = match event {
            Event::Start => self.validate_block_for_known_parent(&block),
            Event::Consensus(verdict) => match verdict {
                Err(error) => Action::Done(Err(NodeError::Consensus(error))),
                Ok(()) => match stage {
                    Stage::AwaitGenesis => self.validate_block_state_for_known_parent(&block),
                    _ => Action::CheckCheckpoint,
                },
            },
            Event::Ancestors(ancestors) => self.after_ancestors(&block, &ancestors),
            Event::Difficulty(result) => match result {
                Err(error) => Action::Done(Err(NodeError::Consensus(error))),
                Ok(expected) => self.after_difficulty(&block, expected),
            },
            Event::Checkpoint(holds) => {
                if holds {
                    self.validate_block_state_for_known_parent(&block)
                } else {
                    Action::Done(Err(NodeError::CheckpointMismatch))
                }
            },
            Event::State(check) => match validate_block_state(&block, check) {
                Err(error) => Action::Done(Err(error)),
                Ok(()) => Action::InsertBlock,
            },
            Event::Inserted { result, best_tip } => self.after_insertion(&block, result, best_tip),
            Event::Applied(result) => match result {
                Err(error) => Action::Done(Err(NodeError::Ledger(error))),
                Ok(ledger) => Action::Done(self.after_application(&block, ledger)),
            },
            Event::Rebuilt(rebuild) => Action::Done(self.reorg_to_best_tip(rebuild, now)),
        };
        import.stage = stage_of(&action);
        action
    }
}

} // verus!
