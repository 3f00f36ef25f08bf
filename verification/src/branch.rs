//! The ledger of a branch, built from its first block up to its tip.

use crate::node::{Node, NodeError};
use crate::types::{Block, BlockHash, Digest, LedgerError};
use vstd::prelude::*;

verus! {

/// What is awaited of the new ledger.
#[derive(Clone, Copy, Debug, PartialEq, Eq, Structural)]
pub enum BranchStage {
    AwaitFirst,
    AwaitList,
    AwaitBlock,
    Finished,
}

/// What came back from outside.
#[derive(Debug)]
pub enum BranchEvent {
    /// Whether a ledger with the accounts of the beginning took its first block.
    Begun(Result<(), LedgerError>),
    /// The blocks above the first one up to the tip, if they could be listed.
    Listed(Option<Vec<BlockHash>>),
    /// Whether the ledger took a block.
    Applied(Result<(), LedgerError>),
}

/// What is asked of the outside.
#[derive(Debug, PartialEq, Eq)]
pub enum BranchAction {
    Begin(Block),
    List { first: BlockHash, tip: BlockHash },
    Apply(BlockHash),
    Done(Result<(), NodeError>),
}

/// A ledger that is being built.
#[derive(Debug)]
pub struct BranchBuild {
    pub stage: BranchStage,
    pub first: BlockHash,
    pub tip: BlockHash,
    pub branch: Vec<BlockHash>,
    pub applied: usize,
}

/// The event is what the build awaits.
pub open spec fn awaited(stage: BranchStage, event: BranchEvent) -> bool {
    match stage {
        BranchStage::AwaitFirst => event is Begun,
        BranchStage::AwaitList => event is Listed,
        BranchStage::AwaitBlock => event is Applied,
        BranchStage::Finished => false,
    }
}

/// The first block of a branch whose hashes are listed from the tip down.
pub open spec fn first_of(tip: Digest, ancestors: Seq<Digest>) -> Digest {
    if ancestors.len() == 0 {
        tip
    } else {
        ancestors.last()
    }
}

/// How a build begins.
pub open spec fn begun(node: Node, tip: Digest, ancestors: Seq<Digest>) -> BranchAction {
    let first = first_of(tip, ancestors);
    if node.fork_choice@.blocks.contains_key(first) {
        BranchAction::Begin(node.fork_choice@.blocks[first])
    } else {
        BranchAction::Done(Err(NodeError::ReorgRequired))
    }
}

/// How a build goes on when so many blocks of the branch are applied.
pub open spec fn going_on(branch: Seq<Digest>, applied: int) -> BranchAction {
    if applied < branch.len() {
        BranchAction::Apply(branch[applied])
    } else {
        BranchAction::Done(Ok(()))
    }
}

/// How a build goes on after an event.
pub open spec fn after_event(build: BranchBuild, event: BranchEvent) -> BranchAction {
    match event {
        BranchEvent::Begun(Err(error)) => BranchAction::Done(Err(NodeError::Ledger(error))),
        BranchEvent::Begun(Ok(_)) => BranchAction::List { first: build.first, tip: build.tip },
        BranchEvent::Listed(None) => BranchAction::Done(Err(NodeError::ReorgRequired)),
        BranchEvent::Listed(Some(branch)) => going_on(branch@, 0),
        BranchEvent::Applied(Err(error)) => BranchAction::Done(Err(NodeError::Ledger(error))),
        BranchEvent::Applied(Ok(_)) => going_on(build.branch@, build.applied + 1),
    }
}

/// What is awaited after an action.
pub open spec fn stage_after(action: BranchAction) -> BranchStage {
    match action {
        BranchAction::Begin(_) => BranchStage::AwaitFirst,
        BranchAction::List { .. } => BranchStage::AwaitList,
        BranchAction::Apply(_) => BranchStage::AwaitBlock,
        BranchAction::Done(_) => BranchStage::Finished,
    }
}

impl Node {
    /// Begins the ledger of the branch that ends at `tip`. `ancestors` are the
    /// hashes of its blocks from the tip down.
    pub fn ledger_for_branch_tip(&self, tip: BlockHash, ancestors: &Vec<BlockHash>) -> (r: (
        BranchBuild,
        BranchAction,
    ))
        requires
            self.wf(),
        ensures
            r.1 == begun(*self, tip, ancestors@),
            r.0.wf(),
            r.0.stage == stage_after(r.1),
            r.0.first == first_of(tip, ancestors@),
            r.0.tip == tip,
            r.0.branch@ == Seq::<Digest>::empty(),
            r.0.applied == 0,
    {
        let first = if ancestors.len() == 0 {
            tip
        } else {
            ancestors[ancestors.len() - 1]
        };
        match self.fork_choice.get(&first) {
            Some(block) => (
                BranchBuild {
                    stage: BranchStage::AwaitFirst,
                    first,
                    tip,
                    branch: Vec::new(),
                    applied: 0,
                },
                BranchAction::Begin(block),
            ),
            None => (
                BranchBuild {
                    stage: BranchStage::Finished,
                    first,
                    tip,
                    branch: Vec::new(),
                    applied: 0,
                },
                BranchAction::Done(Err(NodeError::ReorgRequired)),
            ),
        }
    }
}

impl BranchBuild {
    /// A block is awaited only while the branch has one left.
    pub open spec fn wf(&self) -> bool {
        self.stage == BranchStage::AwaitBlock ==> self.applied < self.branch@.len()
    }

    fn go_on(&mut self) -> (r: BranchAction)
        requires
            old(self).applied <= old(self).branch@.len(),
        ensures
            r == going_on(old(self).branch@, old(self).applied as int),
            final(self).wf(),
            final(self).stage == stage_after(r),
            final(self).first == old(self).first,
            final(self).tip == old(self).tip,
            final(self).branch@ == old(self).branch@,
            final(self).applied == old(self).applied,
    {
        if self.applied < self.branch.len() {
            self.stage = BranchStage::AwaitBlock;
            BranchAction::Apply(self.branch[self.applied])
        } else {
            self.stage = BranchStage::Finished;
            BranchAction::Done(Ok(()))
        }
    }

    fn fail(&mut self, error: NodeError) -> (r: BranchAction)
        ensures
            r == BranchAction::Done(Err(error)),
            *final(self) == (BranchBuild { stage: BranchStage::Finished, ..*old(self) }),
    {
        self.stage = BranchStage::Finished;
        BranchAction::Done(Err(error))
    }

    /// Goes on after an event: the blocks of the branch are applied in order,
    /// and the first failure ends the build.
    pub fn step(&mut self, event: BranchEvent) -> (r: BranchAction)
        requires
            old(self).wf(),
            awaited(old(self).stage, event),
        ensures
            r == after_event(*old(self), event),
            final(self).wf(),
            final(self).stage == stage_after(r),
            final(self).first == old(self).first,
            final(self).tip == old(self).tip,
            match event {
                BranchEvent::Listed(Some(branch)) => final(self).branch@ == branch@
                    && final(self).applied == 0,
                BranchEvent::Applied(Ok(_)) => final(self).branch@ == old(self).branch@
                    && final(self).applied == old(self).applied + 1,
                _ => final(self).branch@ == old(self).branch@ && final(self).applied == old(
                    self,
                ).applied,
            },
    {
        match event {
            BranchEvent::Begun(Err(error)) => self.fail(NodeError::Ledger(error)),
            BranchEvent::Begun(Ok(())) => {
                self.stage = BranchStage::AwaitList;
                BranchAction::List { first: self.first, tip: self.tip }
            },
            BranchEvent::Listed(None) => self.fail(NodeError::ReorgRequired),
            BranchEvent::Listed(Some(branch)) => {
                self.branch = branch;
                self.applied = 0;
                self.go_on()
            },
            BranchEvent::Applied(Err(error)) => self.fail(NodeError::Ledger(error)),
            BranchEvent::Applied(Ok(())) => {
                assert(self.applied < self.branch.len());
                self.applied = self.applied + 1;
                self.go_on()
            },
        }
    }
}

/// How a build ends from a place in the branch on, if `verdict` says of each
/// block whether the ledger takes it.
pub open spec fn build_end(
    branch: Seq<Digest>,
    verdict: spec_fn(int) -> Result<(), LedgerError>,
    applied: int,
) -> Result<(), NodeError>
    decreases branch.len() - applied,
{
    match going_on(branch, applied) {
        BranchAction::Apply(_) => if applied < branch.len() {
            match verdict(applied) {
                Ok(_) => build_end(branch, verdict, applied + 1),
                Err(error) => Err(NodeError::Ledger(error)),
            }
        } else {
            Err(NodeError::ReorgRequired)
        },
        BranchAction::Done(result) => result,
        _ => Err(NodeError::ReorgRequired),
    }
}

/// A branch has a ledger exactly if every one of its blocks is taken in turn;
/// otherwise the first block that is not taken says why.
pub proof fn a_branch_stands_with_all_its_blocks(
    branch: Seq<Digest>,
    verdict: spec_fn(int) -> Result<(), LedgerError>,
    applied: int,
)
    requires
        0 <= applied <= branch.len(),
    ensures
        match build_end(branch, verdict, applied) {
            Ok(_) => forall|i: int| applied <= i < branch.len() ==> #[trigger] verdict(i) is Ok,
            Err(error) => exists|i: int|
                applied <= i < branch.len() && (#[trigger] verdict(i) matches Err(reason) && error
                    == NodeError::Ledger(reason)) && forall|j: int|
                    applied <= j < i ==> #[trigger] verdict(j) is Ok,
        },
    decreases branch.len() - applied,
{
    if applied < branch.len() && verdict(applied) is Ok {
        a_branch_stands_with_all_its_blocks(branch, verdict, applied + 1);
    }
}

} // verus!
