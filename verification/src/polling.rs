//! How another node is asked for its blocks: first for its version, then for its
//! tip, and then, if it is ahead, for one block after the other.

use crate::handler;
use crate::message::{NetworkMessage, Said, TipInfo, VersionInfo};
use crate::params::ChainParams;
use crate::peers::{self, PeerPoll, MAX_BLOCKS_PER_SYNC};
use crate::text;
use crate::types::Height;
use vstd::prelude::*;
use vstd::string::*;

verus! {

/// What is awaited of the other node.
#[derive(Clone, Copy, Debug, PartialEq, Eq, Structural)]
pub enum PollStage {
    AwaitVersion,
    AwaitTip,
    /// The block at `height`, the last one wanted being at `target`.
    AwaitBlock { height: u64, target: u64, remote_tip: Height },
    /// The outcome of taking that block in.
    AwaitTaken { height: u64, target: u64, remote_tip: Height },
    Finished,
}

/// What came of taking a block in.
#[derive(Debug, PartialEq, Eq)]
pub enum Taken {
    Stored,
    Refused(String),
    NotFlushed(String),
}

/// What came back.
#[derive(Debug, PartialEq, Eq)]
pub enum PollEvent {
    /// The other node's answer.
    Answered(NetworkMessage),
    /// The other node could not be asked.
    Unreachable(String),
    /// What came of taking a block in.
    Block(Taken),
}

/// What is done next.
#[derive(Debug, PartialEq, Eq)]
pub enum PollAction {
    Ask(NetworkMessage),
    TakeBlock { height: u64, bytes: Vec<u8> },
    Done(Result<PeerPoll, String>),
}

/// The same, as it is spoken of.
#[verifier::ext_equal]
pub enum PollStep {
    Ask(Said),
    TakeBlock(u64, Seq<u8>),
    Done(Result<PeerPoll, Seq<char>>),
}

impl View for PollAction {
    type V = PollStep;

    open spec fn view(&self) -> PollStep {
        match self {
            PollAction::Ask(message) => PollStep::Ask(message@),
            PollAction::TakeBlock { height, bytes } => PollStep::TakeBlock(*height, bytes@),
            PollAction::Done(Ok(poll)) => PollStep::Done(Ok(*poll)),
            PollAction::Done(Err(error)) => PollStep::Done(Err(error@)),
        }
    }
}

/// The question for the block at a height.
pub open spec fn ask_for(height: u64, target: u64, remote_tip: Height) -> (PollStep, PollStage) {
    (
        PollStep::Ask(Said::GetBlockByHeight(Height(height))),
        PollStage::AwaitBlock { height, target, remote_tip },
    )
}

/// The end of a poll that failed.
pub open spec fn failed(words: Seq<char>) -> (PollStep, PollStage) {
    (PollStep::Done(Err(words)), PollStage::Finished)
}

/// What follows from the other node's tip: the blocks above the own tip are
/// asked for, up to a limit.
pub open spec fn after_tip(remote_tip: Height, local_height: u64) -> (PollStep, PollStage) {
    if remote_tip.0 <= local_height {
        (PollStep::Done(Ok(PeerPoll::Idle { remote_tip })), PollStage::Finished)
    } else {
        ask_for(
            (local_height + 1) as u64,
            if remote_tip.0 <= local_height + MAX_BLOCKS_PER_SYNC {
                remote_tip.0
            } else {
                (local_height + MAX_BLOCKS_PER_SYNC) as u64
            },
            remote_tip,
        )
    }
}

/// What follows from what came back. `peer` is the other node in words, and
/// `local_height` the height of the own tip.
pub open spec fn polled(
    stage: PollStage,
    event: PollEvent,
    params: ChainParams,
    peer: Seq<char>,
    local_height: u64,
) -> (PollStep, PollStage) {
    match (stage, event) {
        (_, PollEvent::Unreachable(words)) => failed(words@),
        (PollStage::AwaitVersion, PollEvent::Answered(message)) => match message@ {
            Said::VerAck(remote) => if remote.protocol_version == params.protocol_version {
                (PollStep::Ask(Said::GetTip), PollStage::AwaitTip)
            } else {
                failed("peer returned incompatible version: "@ + "ProtocolVersionMismatch"@)
            },
            Said::Reject(_, said) => failed(
                "peer rejected handshake: "@ + "ProtocolVersionMismatch"@ + ": "@ + said,
            ),
            _ => failed("peer returned unexpected handshake response"@),
        },
        (PollStage::AwaitTip, PollEvent::Answered(message)) => match message@ {
            Said::Tip(tip) => after_tip(tip.height, local_height),
            _ => failed("peer returned unexpected tip response"@),
        },
        (PollStage::AwaitBlock { height, target, remote_tip }, PollEvent::Answered(message)) => {
            match message@ {
                Said::Block(bytes) => (
                    PollStep::TakeBlock(height, bytes),
                    PollStage::AwaitTaken { height, target, remote_tip },
                ),
                _ => failed(
                    "peer did not return block at height "@ + text::decimal(height as nat),
                ),
            }
        },
        (PollStage::AwaitTaken { height, target, remote_tip }, PollEvent::Block(taken)) => {
            match taken {
                Taken::Refused(words) => failed(
                    "failed to apply block "@ + text::decimal(height as nat) + " from "@ + peer
                        + ": "@ + words@,
                ),
                Taken::NotFlushed(words) => failed("failed to flush synced block: "@ + words@),
                Taken::Stored => if height < target {
                    ask_for((height + 1) as u64, target, remote_tip)
                } else {
                    (PollStep::Done(Ok(PeerPoll::Synced { remote_tip })), PollStage::Finished)
                },
            }
        },
        _ => (PollStep::Done(Err(Seq::empty())), PollStage::Finished),
    }
}

/// The event is what is awaited.
pub open spec fn awaited(stage: PollStage, event: PollEvent) -> bool {
    match stage {
        PollStage::AwaitVersion => event is Answered || event is Unreachable,
        PollStage::AwaitTip => event is Answered || event is Unreachable,
        PollStage::AwaitBlock { .. } => event is Answered || event is Unreachable,
        PollStage::AwaitTaken { .. } => event is Block,
        PollStage::Finished => false,
    }
}

/// A poll of another node.
#[derive(Debug)]
pub struct Poll {
    pub stage: PollStage,
}

impl Poll {
    /// Begins a poll with the own version.
    pub fn start(params: &ChainParams, tip: Option<TipInfo>) -> (r: (Self, PollAction))
        ensures
            r.0.stage == PollStage::AwaitVersion,
            r.1@ == PollStep::Ask(
                Said::Version(VersionInfo { protocol_version: params.protocol_version, tip }),
            ),
    {
        (
            Poll { stage: PollStage::AwaitVersion },
            PollAction::Ask(NetworkMessage::Version(VersionInfo::local(params, tip))),
        )
    }

    fn fail(&mut self, words: String) -> (r: PollAction)
        ensures
            (r@, final(self).stage) == failed(words@),
    {
        self.stage = PollStage::Finished;
        PollAction::Done(Err(words))
    }

    fn ask(&mut self, height: u64, target: u64, remote_tip: Height) -> (r: PollAction)
        ensures
            (r@, final(self).stage) == ask_for(height, target, remote_tip),
    {
        self.stage = PollStage::AwaitBlock { height, target, remote_tip };
        PollAction::Ask(NetworkMessage::GetBlockByHeight { height: Height(height) })
    }

    /// Takes what came back, and tells what to do next. `peer` is the other node
    /// in words, and `local_height` the height of the own tip.
    pub fn step(&mut self, event: PollEvent, params: &ChainParams, peer: &str, local_height: u64) -> (r:
        PollAction)
        requires
            awaited(old(self).stage, event),
        ensures
            (r@, final(self).stage) == polled(
                old(self).stage,
                event,
                *params,
                peer@,
                local_height,
            ),
    {
        match (self.stage, event) {
            (_, PollEvent::Unreachable(words)) => self.fail(words),
            (PollStage::AwaitVersion, PollEvent::Answered(message)) => {
                match handler::handshake_reply(message, params) {
                    Ok(()) => {
                        self.stage = PollStage::AwaitTip;
                        PollAction::Ask(NetworkMessage::GetTip)
                    },
                    Err(words) => self.fail(words),
                }
            },
            (PollStage::AwaitTip, PollEvent::Answered(message)) => {
                match handler::tip_reply(&message) {
                    Ok(remote_tip) => match peers::blocks_to_request(local_height, remote_tip) {
                        None => {
                            self.stage = PollStage::Finished;
                            PollAction::Done(Ok(PeerPoll::Idle { remote_tip }))
                        },
                        Some((first, target)) => self.ask(first, target, remote_tip),
                    },
                    Err(words) => self.fail(words),
                }
            },
            (
                PollStage::AwaitBlock { height, target, remote_tip },
                PollEvent::Answered(message),
            ) => {
                match handler::block_reply(message, Height(height)) {
                    Ok(bytes) => {
                        self.stage = PollStage::AwaitTaken { height, target, remote_tip };
                        PollAction::TakeBlock { height, bytes }
                    },
                    Err(words) => self.fail(words),
                }
            },
            (PollStage::AwaitTaken { height, target, remote_tip }, PollEvent::Block(taken)) => {
                match taken {
                    Taken::Refused(words) => {
                        let mut out = text::join4(
                            "failed to apply block ",
                            text::decimal_text(height).as_str(),
                            " from ",
                            peer,
                        );
                        out.append(": ");
                        out.append(words.as_str());
                        self.fail(out)
                    },
                    Taken::NotFlushed(words) => self.fail(
                        text::join2("failed to flush synced block: ", words.as_str()),
                    ),
                    Taken::Stored => {
                        if height < target {
                            self.ask(height + 1, target, remote_tip)
                        } else {
                            self.stage = PollStage::Finished;
                            PollAction::Done(Ok(PeerPoll::Synced { remote_tip }))
                        }
                    },
                }
            },
            _ => {
                self.stage = PollStage::Finished;
                let words = String::new();
                proof {
                    reveal_strlit("");
                    assert(words@ =~= Seq::empty());
                }
                PollAction::Done(Err(words))
            },
        }
    }
}

/// The blocks that are asked for lie above the own tip, at most so many at a
/// time, and none above the other node's tip; and they are asked for in turn.
pub proof fn blocks_are_asked_for_in_turn(
    stage: PollStage,
    event: PollEvent,
    params: ChainParams,
    peer: Seq<char>,
    local_height: u64,
)
    requires
        awaited(stage, event),
        stage matches PollStage::AwaitTaken { height, target, remote_tip } ==> height <= target
            <= remote_tip.0,
        stage matches PollStage::AwaitBlock { height, target, remote_tip } ==> height <= target
            <= remote_tip.0,
    ensures
        match polled(stage, event, params, peer, local_height).1 {
            PollStage::AwaitBlock { height, target, remote_tip } => {
                &&& height <= target <= remote_tip.0
                &&& match stage {
                    PollStage::AwaitTip => height == local_height + 1 && target <= local_height
                        + MAX_BLOCKS_PER_SYNC,
                    PollStage::AwaitTaken { height: before, target: t, remote_tip: tip } => height
                        == before + 1 && target == t && remote_tip == tip,
                    _ => false,
                }
            },
            PollStage::AwaitTaken { height, target, remote_tip } => height <= target
                <= remote_tip.0,
            _ => true,
        },
{
}

} // verus!
