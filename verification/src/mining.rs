//! One turn of mining: the search for a nonce, and what becomes of the block
//! that it finds.

use crate::miner::{self, MiningConfig, MiningSkip, MiningStep};
use crate::node::Node;
use crate::text;
use crate::types::BlockHash;
use vstd::prelude::*;
use vstd::string::*;

verus! {

/// What is awaited.
#[derive(Clone, Copy, Debug, PartialEq, Eq, Structural)]
pub enum MiningStage {
    /// Whether the work suffices with a nonce.
    Searching,
    /// A look at the node, now that the search has ended.
    Settling,
    /// Whether the node takes the block.
    Applying,
    /// Whether the node's ledger could be written down.
    Flushing,
    Finished,
}

/// What came of a turn: a block, or the reason for having none.
#[derive(Clone, Copy, Debug, PartialEq, Eq, Structural)]
pub enum MiningOutcome {
    Mined { nonce: u64, attempts: u64 },
    Skipped(MiningSkip),
}

/// What is done next.
#[derive(Debug, PartialEq, Eq)]
pub enum MiningAction {
    /// Test the work with this nonce.
    Test(u64),
    /// Look at the node again.
    Settle,
    /// Hand the block with this nonce to the node.
    Apply { nonce: u64 },
    /// Write the node's ledger down.
    Flush,
    Done(Result<MiningOutcome, String>),
}

/// The same, as it is spoken of.
#[verifier::ext_equal]
pub enum MiningTask {
    Test(u64),
    Settle,
    Apply(u64),
    Flush,
    Done(Result<MiningOutcome, Seq<char>>),
}

impl View for MiningAction {
    type V = MiningTask;

    open spec fn view(&self) -> MiningTask {
        match self {
            MiningAction::Test(nonce) => MiningTask::Test(*nonce),
            MiningAction::Settle => MiningTask::Settle,
            MiningAction::Apply { nonce } => MiningTask::Apply(*nonce),
            MiningAction::Flush => MiningTask::Flush,
            MiningAction::Done(Ok(outcome)) => MiningTask::Done(Ok(*outcome)),
            MiningAction::Done(Err(error)) => MiningTask::Done(Err(error@)),
        }
    }
}

/// A turn of mining for a block on `parent`.
#[derive(Clone, Copy, Debug, PartialEq, Eq)]
pub struct MiningRun {
    pub config: MiningConfig,
    pub parent: BlockHash,
    pub step: MiningStep,
    pub stage: MiningStage,
}

/// What is done while the search stands at a step.
pub open spec fn searching(step: MiningStep) -> MiningTask {
    match step {
        MiningStep::Attempt(nonce) => MiningTask::Test(nonce),
        _ => MiningTask::Settle,
    }
}

/// What is done when the search has ended: a block is handed to the node only if
/// the node still stands on its parent.
pub open spec fn settled(run: MiningRun, node: Node) -> MiningTask {
    match run.step {
        MiningStep::Found { nonce, attempts } => if node.ledger.tip_hash_spec() == Some(
            run.parent,
        ) {
            MiningTask::Apply(nonce)
        } else {
            MiningTask::Done(Ok(MiningOutcome::Skipped(MiningSkip::TipChanged)))
        },
        _ => if node.mempool@.entries.dom().len() == 0 {
            MiningTask::Done(Ok(MiningOutcome::Skipped(MiningSkip::EmptyMempool)))
        } else {
            MiningTask::Done(Ok(MiningOutcome::Skipped(MiningSkip::ExhaustedAttempts)))
        },
    }
}

/// What is awaited after a task.
pub open spec fn stage_after(task: MiningTask) -> MiningStage {
    match task {
        MiningTask::Test(_) => MiningStage::Searching,
        MiningTask::Settle => MiningStage::Settling,
        MiningTask::Apply(_) => MiningStage::Applying,
        MiningTask::Flush => MiningStage::Flushing,
        MiningTask::Done(_) => MiningStage::Finished,
    }
}

/// What a block comes to that was applied and written down.
pub open spec fn mined(run: MiningRun) -> MiningOutcome {
    match run.step {
        MiningStep::Found { nonce, attempts } => MiningOutcome::Mined { nonce, attempts },
        _ => MiningOutcome::Skipped(MiningSkip::ExhaustedAttempts),
    }
}

impl MiningRun {
    /// A nonce is tested only among the attempts that there are, and a block is
    /// handed on only when its nonce was found.
    pub open spec fn wf(&self) -> bool {
        match self.stage {
            MiningStage::Searching => self.step matches MiningStep::Attempt(nonce) && nonce
                < self.config.max_attempts,
            MiningStage::Settling => !(self.step is Attempt),
            MiningStage::Applying => self.step is Found,
            MiningStage::Flushing => self.step is Found,
            MiningStage::Finished => true,
        }
    }

    /// Begins a turn.
    pub fn start(config: MiningConfig, parent: BlockHash) -> (r: (Self, MiningAction))
        ensures
            r.0.wf(),
            r.0.config == config,
            r.0.parent == parent,
            r.0.step == miner::search_at(config, 0),
            r.1@ == searching(r.0.step),
            r.0.stage == stage_after(r.1@),
    {
        let step = miner::start_search(&config);
        match step {
            MiningStep::Attempt(nonce) => (
                MiningRun { config, parent, step, stage: MiningStage::Searching },
                MiningAction::Test(nonce),
            ),
            _ => (
                MiningRun { config, parent, step, stage: MiningStage::Settling },
                MiningAction::Settle,
            ),
        }
    }

    /// Goes on after a test: `suffices` says whether the work did.
    pub fn tested(&mut self, suffices: bool) -> (r: MiningAction)
        requires
            old(self).wf(),
            old(self).stage == MiningStage::Searching,
        ensures
            final(self).wf(),
            final(self).config == old(self).config,
            final(self).parent == old(self).parent,
            old(self).step matches MiningStep::Attempt(nonce) && final(self).step == (
            if suffices {
                MiningStep::Found { nonce, attempts: (nonce + 1) as u64 }
            } else {
                miner::search_at(old(self).config, (nonce + 1) as u64)
            }),
            r@ == searching(final(self).step),
            final(self).stage == stage_after(r@),
    {
        match self.step {
            MiningStep::Attempt(nonce) => {
                self.step = miner::after_attempt(&self.config, nonce, suffices);
            },
            _ => {},
        }
        match self.step {
            MiningStep::Attempt(nonce) => MiningAction::Test(nonce),
            _ => {
                self.stage = MiningStage::Settling;
                MiningAction::Settle
            },
        }
    }

    /// Looks at the node again when the search has ended.
    pub fn settle(&mut self, node: &Node) -> (r: MiningAction)
        requires
            old(self).wf(),
            old(self).stage == MiningStage::Settling,
            node.wf(),
        ensures
            final(self).wf(),
            r@ == settled(*old(self), *node),
            *final(self) == (MiningRun { stage: stage_after(r@), ..*old(self) }),
    {
        match self.step {
            MiningStep::Found { nonce, attempts: _ } => match miner::check_parent(
                node,
                &self.parent,
            ) {
                Ok(()) => {
                    self.stage = MiningStage::Applying;
                    MiningAction::Apply { nonce }
                },
                Err(reason) => {
                    self.stage = MiningStage::Finished;
                    MiningAction::Done(Ok(MiningOutcome::Skipped(reason)))
                },
            },
            _ => {
                self.stage = MiningStage::Finished;
                MiningAction::Done(Ok(MiningOutcome::Skipped(miner::exhausted_reason(node))))
            },
        }
    }

    /// Goes on after the block was handed to the node.
    pub fn applied(&mut self, result: Result<(), String>) -> (r: MiningAction)
        requires
            old(self).wf(),
            old(self).stage == MiningStage::Applying,
        ensures
            final(self).wf(),
            r@ == (match result {
                Ok(_) => MiningTask::Flush,
                Err(error) => MiningTask::Done(Err("failed to apply mined block: "@ + error@)),
            }),
            *final(self) == (MiningRun { stage: stage_after(r@), ..*old(self) }),
    {
        match result {
            Ok(()) => {
                self.stage = MiningStage::Flushing;
                MiningAction::Flush
            },
            Err(error) => {
                self.stage = MiningStage::Finished;
                MiningAction::Done(
                    Err(text::join2("failed to apply mined block: ", error.as_str())),
                )
            },
        }
    }

    /// Ends the turn after the node's ledger was written down.
    pub fn flushed(&mut self, result: Result<(), String>) -> (r: MiningAction)
        requires
            old(self).wf(),
            old(self).stage == MiningStage::Flushing,
        ensures
            final(self).wf(),
            r@ == (match result {
                Ok(_) => MiningTask::Done(Ok(mined(*old(self)))),
                Err(error) => MiningTask::Done(Err("failed to flush mined block: "@ + error@)),
            }),
            *final(self) == (MiningRun { stage: stage_after(r@), ..*old(self) }),
    {
        self.stage = MiningStage::Finished;
        match result {
            Ok(()) => match self.step {
                MiningStep::Found { nonce, attempts } => MiningAction::Done(
                    Ok(MiningOutcome::Mined { nonce, attempts }),
                ),
                _ => MiningAction::Done(Ok(MiningOutcome::Skipped(MiningSkip::ExhaustedAttempts))),
            },
            Err(error) => MiningAction::Done(
                Err(text::join2("failed to flush mined block: ", error.as_str())),
            ),
        }
    }
}

/// A turn hands a block to the node only if its nonce was found and the node
/// stands on the block's parent, and it gives a block only with that nonce.
pub proof fn only_a_found_block_is_handed_on(run: MiningRun, node: Node, nonce: u64)
    requires
        run.wf(),
        run.stage == MiningStage::Settling,
        settled(run, node) == MiningTask::Apply(nonce),
    ensures
        node.ledger.tip_hash_spec() == Some(run.parent),
        run.step matches MiningStep::Found { nonce: found, attempts } && found == nonce && mined(
            run,
        ) == (MiningOutcome::Mined { nonce, attempts }),
{
}

} // verus!
