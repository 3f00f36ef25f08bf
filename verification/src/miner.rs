//! Blocks to be: what goes into a candidate, and the search for its nonce.

use crate::ledger::Ledger;
use crate::mempool::{self, Mempool};
use crate::node::{Node, NodeError};
use crate::selection;
use crate::types::{
    Address, Amount, BlockError, BlockHash, ConsensusError, Digest, Height, LedgerError, Nonce,
    SignedTransaction,
};
use vstd::prelude::*;

verus! {

/// How a block is looked for.
#[derive(Clone, Copy, Debug, PartialEq, Eq)]
pub struct MiningConfig {
    pub difficulty: u32,
    pub max_attempts: u64,
    pub transaction_limit: usize,
}

/// What a candidate pays its miner.
#[derive(Clone, Copy, Debug, PartialEq, Eq)]
pub struct CandidateCoinbase {
    pub to: Address,
    pub subsidy: Amount,
    pub fees: Amount,
}

/// A block that is not finished: the root of the state after it is added when
/// it is known, and its nonce is looked for.
#[derive(Clone, Debug, PartialEq, Eq)]
pub struct Candidate {
    pub height: Height,
    pub previous_hash: BlockHash,
    pub miner_address: Address,
    pub difficulty: u32,
    pub timestamp: u64,
    pub nonce: Nonce,
    pub coinbase: Option<CandidateCoinbase>,
    pub transactions: Vec<SignedTransaction>,
    pub state_root: Option<Digest>,
}

/// A candidate with the nonce that was found, and the number of attempts that
/// it took.
#[derive(Clone, Debug, PartialEq, Eq)]
pub struct MiningResult {
    pub block: Candidate,
    pub attempts: u64,
}

/// The fees of transactions, added up.
pub open spec fn fee_sum(transactions: Seq<SignedTransaction>) -> int
    decreases transactions.len(),
{
    if transactions.len() == 0 {
        0
    } else {
        fee_sum(transactions.drop_last()) + transactions.last().transaction.fee.0
    }
}

/// The amounts of transactions, added up.
pub open spec fn amount_sum(transactions: Seq<SignedTransaction>) -> int
    decreases transactions.len(),
{
    if transactions.len() == 0 {
        0
    } else {
        amount_sum(transactions.drop_last()) + transactions.last().transaction.amount.0
    }
}

proof fn sums_grow(transactions: Seq<SignedTransaction>, k: int)
    requires
        0 <= k <= transactions.len(),
    ensures
        0 <= fee_sum(transactions.take(k)) <= fee_sum(transactions),
        0 <= amount_sum(transactions.take(k)) <= amount_sum(transactions),
    decreases transactions.len(),
{
    if k == transactions.len() {
        assert(transactions.take(k) =~= transactions);
        if k > 0 {
            sums_grow(transactions.drop_last(), k - 1);
            assert(transactions.drop_last().take(k - 1) =~= transactions.drop_last());
        }
    } else {
        assert(transactions.drop_last().take(k) =~= transactions.take(k));
        sums_grow(transactions.drop_last(), k);
    }
}

/// The fees of transactions, added up, where the sum is an amount.
pub fn total_fees(transactions: &Vec<SignedTransaction>) -> (r: Option<Amount>)
    ensures
        match r {
            Some(fees) => fees.0 == fee_sum(transactions@),
            None => fee_sum(transactions@) > u32::MAX,
        },
{
    let mut sum: u32 = 0;
    let mut i: usize = 0;
    while i < transactions.len()
        invariant
            i <= transactions@.len(),
            sum == fee_sum(transactions@.take(i as int)),
        decreases transactions@.len() - i,
    {
        proof {
            assert(transactions@.take(i + 1).drop_last() =~= transactions@.take(i as int));
            sums_grow(transactions@, i + 1);
        }
        match sum.checked_add(transactions[i].transaction.fee.0) {
            Some(next) => {
                sum = next;
            },
            None => {
                return None;
            },
        }
        i = i + 1;
    }
    proof {
        assert(transactions@.take(i as int) =~= transactions@);
    }
    Some(Amount(sum))
}

/// The amounts of transactions, added up, where the sum is an amount.
pub fn total_amounts(transactions: &Vec<SignedTransaction>) -> (r: Option<Amount>)
    ensures
        match r {
            Some(amounts) => amounts.0 == amount_sum(transactions@),
            None => amount_sum(transactions@) > u32::MAX,
        },
{
    let mut sum: u32 = 0;
    let mut i: usize = 0;
    while i < transactions.len()
        invariant
            i <= transactions@.len(),
            sum == amount_sum(transactions@.take(i as int)),
        decreases transactions@.len() - i,
    {
        proof {
            assert(transactions@.take(i + 1).drop_last() =~= transactions@.take(i as int));
            sums_grow(transactions@, i + 1);
        }
        match sum.checked_add(transactions[i].transaction.amount.0) {
            Some(next) => {
                sum = next;
            },
            None => {
                return None;
            },
        }
        i = i + 1;
    }
    proof {
        assert(transactions@.take(i as int) =~= transactions@);
    }
    Some(Amount(sum))
}

/// The height of the block after the tip.
pub open spec fn candidate_height_spec(ledger: Ledger) -> u64 {
    match ledger.tip_height_spec() {
        Some(height) => if height.0 == u64::MAX {
            height.0
        } else {
            (height.0 + 1) as u64
        },
        None => 0,
    }
}

/// The hash that the block after the tip names as its parent's.
pub open spec fn names_tip(ledger: Ledger, hash: Digest) -> bool {
    match ledger.tip_hash_spec() {
        Some(tip) => hash == tip,
        None => hash.is_zero_spec(),
    }
}

/// The height of the block after the tip.
pub fn candidate_height(ledger: &Ledger) -> (r: Height)
    ensures
        r.0 == candidate_height_spec(*ledger),
{
    match ledger.tip_height() {
        Some(height) => Height(height.0.saturating_add(1)),
        None => Height(0),
    }
}

impl Mempool {
    /// A candidate for the block after the tip, with the pending transactions
    /// that fit. `subsidy` is what the ledger may still mint for it; the first
    /// block of a chain pays nothing and does not ask for it.
    pub fn create_candidate_block(
        &self,
        ledger: &Ledger,
        miner_address: Address,
        timestamp: u64,
        nonce: Nonce,
        transaction_limit: usize,
        subsidy: Result<Amount, LedgerError>,
    ) -> (r: Result<Candidate, LedgerError>)
        requires
            self.wf(),
            fee_sum(
                selection::selection(
                    selection::by_sender(self@.entries),
                    transaction_limit as nat,
                ),
            ) <= u32::MAX,
        ensures
            match r {
                Ok(block) => {
                    let transactions = selection::selection(
                        selection::by_sender(self@.entries),
                        transaction_limit as nat,
                    );
                    &&& block.height.0 == candidate_height_spec(*ledger)
                    &&& names_tip(*ledger, block.previous_hash)
                    &&& block.miner_address == miner_address
                    &&& block.difficulty == self.chain().difficulty_start
                    &&& block.timestamp == timestamp
                    &&& block.nonce == nonce
                    &&& block.transactions@ == transactions
                    &&& block.state_root is None
                    &&& if block.height.0 == 0 && block.previous_hash.is_zero_spec() {
                        block.coinbase is None
                    } else {
                        subsidy matches Ok(minted) && block.coinbase == Some(
                            CandidateCoinbase {
                                to: miner_address,
                                subsidy: minted,
                                fees: Amount(fee_sum(transactions) as u32),
                            },
                        )
                    }
                },
                Err(error) => subsidy == Err::<Amount, LedgerError>(error) && !(
                candidate_height_spec(*ledger) == 0 && forall|hash: Digest|
                    names_tip(*ledger, hash) ==> hash.is_zero_spec()),
            },
    {
        let height = candidate_height(ledger);
        let previous_hash = match ledger.tip_hash() {
            Some(hash) => hash,
            None => Digest::zero(),
        };
        let transactions = self.select_for_block(transaction_limit);
        let fees = match total_fees(&transactions) {
            Some(fees) => fees,
            None => Amount(0),
        };
        let coinbase = if height.0 == 0 && previous_hash.is_zero() {
            None
        } else {
            match subsidy {
                Err(error) => {
                    proof {
                        assert(names_tip(*ledger, previous_hash));
                    }
                    return Err(error);
                },
                Ok(minted) => Some(
                    CandidateCoinbase { to: miner_address, subsidy: minted, fees },
                ),
            }
        };
        Ok(
            Candidate {
                height,
                previous_hash,
                miner_address,
                difficulty: self.difficulty_start(),
                timestamp,
                nonce,
                coinbase,
                transactions,
                state_root: None,
            },
        )
    }
}

impl Candidate {
    /// The candidate with the root of the state after it and a difficulty.
    pub fn prepare(self, state_root: Result<Digest, LedgerError>, difficulty: u32) -> (r: Result<
        Candidate,
        ConsensusError,
    >)
        ensures
            match state_root {
                Ok(root) => r == Ok::<Candidate, ConsensusError>(
                    Candidate { state_root: Some(root), difficulty, ..self },
                ),
                Err(_) => r == Err::<Candidate, ConsensusError>(
                    ConsensusError::InvalidBlock(BlockError::InvalidStateRoot),
                ),
            },
    {
        match state_root {
            Ok(root) => Ok(Candidate { state_root: Some(root), difficulty, ..self }),
            Err(_) => Err(ConsensusError::InvalidBlock(BlockError::InvalidStateRoot)),
        }
    }
}

/// The step of a search.
#[derive(Clone, Copy, Debug, PartialEq, Eq, Structural)]
pub enum MiningStep {
    /// Test whether the candidate's work suffices with this nonce.
    Attempt(u64),
    /// The nonce was found after so many attempts.
    Found { nonce: u64, attempts: u64 },
    /// There is no attempt left.
    Exhausted,
}

/// The step with which a search goes on at a nonce.
pub open spec fn search_at(config: MiningConfig, nonce: u64) -> MiningStep {
    if nonce >= config.max_attempts {
        MiningStep::Exhausted
    } else if config.difficulty == 0 {
        MiningStep::Found { nonce, attempts: (nonce + 1) as u64 }
    } else {
        MiningStep::Attempt(nonce)
    }
}

/// Begins a search.
pub fn start_search(config: &MiningConfig) -> (r: MiningStep)
    ensures
        r == search_at(*config, 0),
{
    continue_search(config, 0)
}

fn continue_search(config: &MiningConfig, nonce: u64) -> (r: MiningStep)
    ensures
        r == search_at(*config, nonce),
{
    if nonce >= config.max_attempts {
        MiningStep::Exhausted
    } else if config.difficulty == 0 {
        MiningStep::Found { nonce, attempts: nonce.saturating_add(1) }
    } else {
        MiningStep::Attempt(nonce)
    }
}

/// Goes on after an attempt: `suffices` says whether the work did.
pub fn after_attempt(config: &MiningConfig, nonce: u64, suffices: bool) -> (r: MiningStep)
    requires
        nonce < config.max_attempts,
    ensures
        r == if suffices {
            MiningStep::Found { nonce, attempts: (nonce + 1) as u64 }
        } else {
            search_at(*config, (nonce + 1) as u64)
        },
{
    if suffices {
        MiningStep::Found { nonce, attempts: nonce.saturating_add(1) }
    } else {
        continue_search(config, nonce + 1)
    }
}

/// The end of a search that goes on at a nonce, if `suffices` says of each
/// nonce whether the work does.
pub open spec fn search_end(config: MiningConfig, suffices: spec_fn(u64) -> bool, nonce: u64) -> MiningStep
    decreases config.max_attempts - nonce,
{
    match search_at(config, nonce) {
        MiningStep::Attempt(n) => if suffices(nonce) {
            MiningStep::Found { nonce, attempts: (nonce + 1) as u64 }
        } else if nonce + 1 <= config.max_attempts {
            search_end(config, suffices, (nonce + 1) as u64)
        } else {
            MiningStep::Exhausted
        },
        other => other,
    }
}

/// A search ends with the first nonce whose work suffices, after one attempt
/// more than the nonce says, or exhausted if there is none among the attempts.
pub proof fn search_finds_the_first(
    config: MiningConfig,
    suffices: spec_fn(u64) -> bool,
    nonce: u64,
)
    requires
        config.difficulty != 0,
    ensures
        match search_end(config, suffices, nonce) {
            MiningStep::Found { nonce: found, attempts } => nonce <= found < config.max_attempts
                && attempts == found + 1 && suffices(found) && forall|n: u64|
                nonce <= n < found ==> !#[trigger] suffices(n),
            MiningStep::Exhausted => forall|n: u64|
                nonce <= n < config.max_attempts ==> !#[trigger] suffices(n),
            MiningStep::Attempt(_) => false,
        },
    decreases config.max_attempts - nonce,
{
    if nonce < config.max_attempts && !suffices(nonce) {
        search_finds_the_first(config, suffices, (nonce + 1) as u64);
    }
}

/// What a finished search gives: the candidate with its nonce, or the news that
/// the attempts are used up.
pub fn finish_search(candidate: Candidate, step: MiningStep) -> (r: Result<MiningResult, NodeError>)
    requires
        !(step is Attempt),
    ensures
        match step {
            MiningStep::Found { nonce, attempts } => r == Ok::<MiningResult, NodeError>(
                MiningResult { block: Candidate { nonce: Nonce(nonce), ..candidate }, attempts },
            ),
            _ => r == Err::<MiningResult, NodeError>(NodeError::MiningExhausted),
        },
{
    match step {
        MiningStep::Found { nonce, attempts } => Ok(
            MiningResult { block: Candidate { nonce: Nonce(nonce), ..candidate }, attempts },
        ),
        _ => Err(NodeError::MiningExhausted),
    }
}

/// Why no block came of an attempt to mine one.
#[derive(Clone, Copy, Debug, PartialEq, Eq, Structural)]
pub enum MiningSkip {
    EmptyMempool,
    ExhaustedAttempts,
    TipChanged,
}

/// Why a search that ended without a nonce did.
pub fn exhausted_reason(node: &Node) -> (r: MiningSkip)
    requires
        node.wf(),
    ensures
        r == if node.mempool@.entries.dom().len() == 0 {
            MiningSkip::EmptyMempool
        } else {
            MiningSkip::ExhaustedAttempts
        },
{
    if node.mempool.len() == 0 {
        MiningSkip::EmptyMempool
    } else {
        MiningSkip::ExhaustedAttempts
    }
}

/// Whether a candidate still stands on the active tip.
pub fn check_parent(node: &Node, parent: &BlockHash) -> (r: Result<(), MiningSkip>)
    ensures
        r == if node.ledger.tip_hash_spec() == Some(*parent) {
            Ok::<(), MiningSkip>(())
        } else {
            Err(MiningSkip::TipChanged)
        },
{
    match node.tip_hash() {
        Some(tip) => {
            if tip.same(parent) {
                Ok(())
            } else {
                Err(MiningSkip::TipChanged)
            }
        },
        None => Err(MiningSkip::TipChanged),
    }
}

} // verus!
