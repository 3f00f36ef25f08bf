//! The round that a running node goes, one task after the other.

use crate::peers::{self, PeerTable};
use crate::run_config::RunConfig;
use crate::service::{self, MiningTurn, ServiceState, WaitReason};
use vstd::prelude::*;

verus! {

/// Where in its round the node is: what it has just done.
#[derive(Clone, Copy, Debug, PartialEq, Eq, Structural)]
pub enum Phase {
    Rested,
    Accepted,
    Synced,
    Refreshed,
    Noted,
    Mined,
    Told,
}

/// What the node does next.
#[derive(Clone, Copy, Debug, PartialEq, Eq, Structural)]
pub enum Task {
    /// Write everything down and stop.
    ShutDown,
    /// Take in the nodes that connect.
    AcceptPeers,
    /// Ask the nodes that are due for their blocks.
    SyncPeers,
    /// Tell the gateway of the node, and ask it for others.
    RefreshGateway,
    /// Note what the node is doing.
    NoteActivity,
    /// Say why the node does not mine.
    ReportWait(WaitReason),
    /// Try to mine a block.
    Mine,
    /// Tell the status of the node.
    TellStatus,
    /// Do nothing for a moment.
    Rest,
}

/// What the node sees when it decides.
#[derive(Clone, Copy, Debug, PartialEq, Eq, Structural)]
pub struct Seen {
    pub shutdown_file: bool,
    pub pending_sync: bool,
    pub local_height: u64,
    pub now: u64,
}

/// What the node does about mining.
pub open spec fn mining_turn(
    state: ServiceState,
    config: RunConfig,
    peers: PeerTable,
    seen: Seen,
) -> MiningTurn {
    if !config.mine || !service::passed(state.last_mine, seen.now, config.mine_interval) {
        MiningTurn::NotDue
    } else {
        match service::wait_reason(state, seen.pending_sync, peers, seen.local_height) {
            Some(reason) => MiningTurn::Wait(reason),
            None => MiningTurn::Mine,
        }
    }
}

/// What the node does once mining is dealt with.
pub open spec fn after_mining(state: ServiceState, seen: Seen) -> Task {
    if service::passed(state.last_status, seen.now, service::STATUS_INTERVAL) {
        Task::TellStatus
    } else {
        Task::Rest
    }
}

/// What the node does next.
pub open spec fn next_of(
    state: ServiceState,
    phase: Phase,
    config: RunConfig,
    peers: PeerTable,
    seen: Seen,
) -> Task {
    match phase {
        Phase::Rested => if seen.shutdown_file {
            Task::ShutDown
        } else {
            Task::AcceptPeers
        },
        Phase::Accepted => Task::SyncPeers,
        Phase::Synced => if service::passed(
            state.last_gateway_heartbeat,
            seen.now,
            config.gateway_heartbeat,
        ) {
            Task::RefreshGateway
        } else {
            Task::NoteActivity
        },
        Phase::Refreshed => Task::NoteActivity,
        Phase::Noted => match mining_turn(state, config, peers, seen) {
            MiningTurn::NotDue => after_mining(state, seen),
            MiningTurn::Wait(reason) => Task::ReportWait(reason),
            MiningTurn::Mine => Task::Mine,
        },
        Phase::Mined => after_mining(state, seen),
        Phase::Told => Task::Rest,
    }
}

/// Where in its round the node is after a task.
pub open spec fn phase_after(task: Task) -> Phase {
    match task {
        Task::ShutDown => Phase::Rested,
        Task::AcceptPeers => Phase::Accepted,
        Task::SyncPeers => Phase::Synced,
        Task::RefreshGateway => Phase::Refreshed,
        Task::NoteActivity => Phase::Noted,
        Task::ReportWait(_) => Phase::Mined,
        Task::Mine => Phase::Mined,
        Task::TellStatus => Phase::Told,
        Task::Rest => Phase::Rested,
    }
}

/// What the node keeps in mind after a task that ended at `now`.
pub open spec fn state_after(
    state: ServiceState,
    task: Task,
    config: RunConfig,
    now: u64,
) -> ServiceState {
    match task {
        Task::RefreshGateway => if config.gateway_url is Some {
            ServiceState { last_gateway_heartbeat: now, ..state }
        } else {
            state
        },
        Task::ReportWait(_) => ServiceState { last_mine: now, ..state },
        Task::Mine => ServiceState { last_mine: now, ..state },
        Task::TellStatus => ServiceState { last_status: now, ..state },
        _ => state,
    }
}

impl ServiceState {
    /// What the node does next.
    pub fn next_task(&self, phase: Phase, config: &RunConfig, peers: &PeerTable, seen: &Seen) -> (r:
        Task)
        requires
            self.before(seen.now),
            peers.wf(),
        ensures
            r == next_of(*self, phase, *config, *peers, *seen),
    {
        match phase {
            Phase::Rested => {
                if seen.shutdown_file {
                    return Task::ShutDown;
                }
                return Task::AcceptPeers;
            },
            Phase::Accepted => {
                return Task::SyncPeers;
            },
            Phase::Synced => {
                if self.gateway_due(config, seen.now) {
                    return Task::RefreshGateway;
                }
                return Task::NoteActivity;
            },
            Phase::Refreshed => {
                return Task::NoteActivity;
            },
            Phase::Told => {
                return Task::Rest;
            },
            Phase::Noted => {
                match self.mining_turn(
                    config,
                    seen.pending_sync,
                    peers,
                    seen.local_height,
                    seen.now,
                ) {
                    MiningTurn::NotDue => {},
                    MiningTurn::Wait(reason) => {
                        return Task::ReportWait(reason);
                    },
                    MiningTurn::Mine => {
                        return Task::Mine;
                    },
                }
            },
            Phase::Mined => {},
        }
        if service::has_passed(self.last_status, seen.now, service::STATUS_INTERVAL) {
            Task::TellStatus
        } else {
            Task::Rest
        }
    }

    /// Takes note of a task that ended at `now`, and tells where in its round
    /// the node is.
    pub fn finish_task(&mut self, task: Task, config: &RunConfig, now: u64) -> (r: Phase)
        ensures
            *final(self) == state_after(*old(self), task, *config, now),
            r == phase_after(task),
    {
        match task {
            Task::ShutDown => Phase::Rested,
            Task::AcceptPeers => Phase::Accepted,
            Task::SyncPeers => Phase::Synced,
            Task::RefreshGateway => {
                if config.gateway_url.is_some() {
                    self.last_gateway_heartbeat = now;
                }
                Phase::Refreshed
            },
            Task::NoteActivity => Phase::Noted,
            Task::ReportWait(_) => {
                self.last_mine = now;
                Phase::Mined
            },
            Task::Mine => {
                self.last_mine = now;
                Phase::Mined
            },
            Task::TellStatus => {
                self.last_status = now;
                Phase::Told
            },
            Task::Rest => Phase::Rested,
        }
    }
}

/// A block is mined only by a node that is told to mine, when its time has come,
/// with no block missing, behind no other node, and, where it was told of others
/// or of a gateway, after at least one other node has answered.
pub proof fn mines_only_in_step_with_others(
    state: ServiceState,
    phase: Phase,
    config: RunConfig,
    peers: PeerTable,
    seen: Seen,
)
    requires
        next_of(state, phase, config, peers, seen) == Task::Mine,
    ensures
        config.mine,
        service::passed(state.last_mine, seen.now, config.mine_interval),
        !seen.pending_sync,
        state.requires_peer_sync_before_mining ==> state.peer_answered,
        state.requires_peer_sync_before_mining && peers@.dom().len() > 0
            ==> peers::some_tip_known(peers.rows()),
        !peers::some_tip_above(peers.rows(), seen.local_height),
{
}

/// A node that rests and finds the shutdown file stops, and stops at no other
/// time.
pub proof fn stops_at_the_shutdown_file(
    state: ServiceState,
    phase: Phase,
    config: RunConfig,
    peers: PeerTable,
    seen: Seen,
)
    ensures
        next_of(state, phase, config, peers, seen) == Task::ShutDown <==> phase == Phase::Rested
            && seen.shutdown_file,
{
}

/// What is left of a round.
pub open spec fn tasks_left(phase: Phase) -> nat {
    match phase {
        Phase::Rested => 7,
        Phase::Accepted => 6,
        Phase::Synced => 5,
        Phase::Refreshed => 4,
        Phase::Noted => 3,
        Phase::Mined => 2,
        Phase::Told => 1,
    }
}

/// Every round comes to its end: each task that is not a rest leaves less of it.
pub proof fn rounds_end(
    state: ServiceState,
    phase: Phase,
    config: RunConfig,
    peers: PeerTable,
    seen: Seen,
)
    ensures
        ({
            let task = next_of(state, phase, config, peers, seen);
            task != Task::Rest && task != Task::ShutDown ==> tasks_left(phase_after(task))
                < tasks_left(phase)
        }),
{
}

} // verus!
