//! What holds of a running node and the nodes it knows.

use crate::mining::{self, MiningRun, MiningTask};
use crate::miner::MiningStep;
use crate::node::Node;
use crate::params::ChainParams;
use crate::message::Said;
use crate::ordered_map;
use crate::peers::{
    self, PeerPoll, PeerState, PeerTable, SocketAddress, MAX_BLOCKS_PER_SYNC, PEER_RETRY_BASE,
    PEER_RETRY_MAX,
};
use crate::polling::{self, PollEvent, PollStage, PollStep, Taken};
use crate::run_config::{self, RunConfig};
use crate::run_loop::{self, Phase, Seen, Task};
use crate::service::{
    self, NodeActivity, ServiceState, Surroundings, WaitReason, MAX_GATEWAY_PEERS,
};
use vstd::prelude::*;

verus! {

/// The pause after a failure starts at its base, doubles with each failure, and
/// never exceeds its greatest.
pub proof fn pauses_double_up_to_the_greatest(failures: u32)
    requires
        failures < u32::MAX,
    ensures
        peers::retry_delay(0) == PEER_RETRY_BASE,
        peers::retry_delay(1) == PEER_RETRY_BASE,
        failures >= 1 && 2 * peers::retry_delay(failures) <= PEER_RETRY_MAX ==> peers::retry_delay(
            (failures + 1) as u32,
        ) == 2 * peers::retry_delay(failures),
        failures >= 1 && 2 * peers::retry_delay(failures) > PEER_RETRY_MAX ==> peers::retry_delay(
            (failures + 1) as u32,
        ) == PEER_RETRY_MAX,
        PEER_RETRY_BASE <= peers::retry_delay(failures) <= PEER_RETRY_MAX,
        peers::one_more(failures) == failures + 1,
{
}

/// A node is asked exactly if its time has come, each once, in the order of the
/// table.
pub proof fn those_are_asked_whose_time_has_come(table: PeerTable, now: u64, a: SocketAddress)
    requires
        table.wf(),
    ensures
        peers::due(table.rows(), now).contains(a) <==> table@.contains_key(a)
            && table@[a].next_attempt <= now,
        peers::due(table.rows(), now).no_duplicates(),
{
    table.is_in_order();
    let rows = table.rows();
    ordered_map::rows_are_entries(rows);
    due_is_a_choice(rows, now);
    let out = peers::due(rows, now);
    if out.contains(a) {
        let k = choose|k: int| 0 <= k < out.len() && out[k] == a;
        assert(chosen(rows, now, out[k]));
        let i = choose|i: int|
            0 <= i < rows.len() && (#[trigger] rows[i]).0 == a && rows[i].1.next_attempt <= now;
        assert(table@[rows[i].0] == rows[i].1);
    }
    if table@.contains_key(a) && table@[a].next_attempt <= now {
        assert(ordered_map::has_key(rows, a));
        let i = choose|i: int| ordered_map::key_at(rows, a, i);
        assert(table@[rows[i].0] == rows[i].1);
        assert(chosen(rows, now, a));
    }
}

spec fn chosen(rows: Seq<(SocketAddress, PeerState)>, now: u64, a: SocketAddress) -> bool {
    exists|i: int|
        0 <= i < rows.len() && (#[trigger] rows[i]).0 == a && rows[i].1.next_attempt <= now
}

proof fn due_is_a_choice(rows: Seq<(SocketAddress, PeerState)>, now: u64)
    requires
        ordered_map::ascending(rows),
    ensures
        forall|k: int|
            0 <= k < peers::due(rows, now).len() ==> chosen(
                rows,
                now,
                #[trigger] peers::due(rows, now)[k],
            ),
        forall|a: SocketAddress| #[trigger]
            chosen(rows, now, a) ==> peers::due(rows, now).contains(a),
        peers::due(rows, now).no_duplicates(),
    decreases rows.len(),
{
    if rows.len() > 0 {
        let short = rows.drop_last();
        assert(ordered_map::ascending(short)) by {
            ordered_map::rows_without_last(rows);
        }
        due_is_a_choice(short, now);
        let earlier = peers::due(short, now);
        let out = peers::due(rows, now);
        let last = rows[rows.len() - 1];
        assert(last == rows.last());
        assert forall|k: int| 0 <= k < out.len() implies chosen(
            rows,
            now,
            #[trigger] out[k],
        ) by {
            if k < earlier.len() {
                assert(out[k] == earlier[k]);
                assert(chosen(short, now, earlier[k]));
                let i = choose|i: int|
                    0 <= i < short.len() && (#[trigger] short[i]).0 == earlier[k]
                        && short[i].1.next_attempt <= now;
                assert(rows[i] == short[i]);
            }
        }
        assert forall|a: SocketAddress| #[trigger] chosen(rows, now, a) implies out.contains(
            a,
        ) by {
            let i = choose|i: int|
                0 <= i < rows.len() && (#[trigger] rows[i]).0 == a && rows[i].1.next_attempt
                    <= now;
            if i < short.len() {
                assert(short[i] == rows[i]);
                assert(chosen(short, now, a));
                let k = choose|k: int| 0 <= k < earlier.len() && earlier[k] == a;
                assert(out[k] == a);
            } else {
                assert(out[earlier.len() as int] == a);
            }
        }
        assert forall|i: int, j: int| 0 <= i < out.len() && 0 <= j < out.len() && i
            != j implies out[i] != out[j] by {
            let lo = if i < j { i } else { j };
            let hi = if i < j { j } else { i };
            assert(out[lo] == earlier[lo]);
            if hi < earlier.len() {
                assert(out[hi] == earlier[hi]);
            } else {
                assert(chosen(short, now, earlier[lo]));
                let r = choose|r: int|
                    0 <= r < short.len() && (#[trigger] short[r]).0 == earlier[lo]
                        && short[r].1.next_attempt <= now;
                assert(rows[r] == short[r]);
                assert(rows[r].0 != last.0);
            }
        }
    }
}

/// Another node has told of a tip above the height.
pub open spec fn is_behind(table: PeerTable, height: u64) -> bool {
    exists|a: SocketAddress| #[trigger]
        table@.contains_key(a) && table@[a].last_tip is Some && table@[a].last_tip->Some_0.0
            > height
}

/// Another node has told of a tip.
pub open spec fn has_heard(table: PeerTable) -> bool {
    exists|a: SocketAddress| #[trigger]
        table@.contains_key(a) && table@[a].last_tip is Some
}

proof fn tips_are_those_of_the_table(table: PeerTable, height: u64)
    requires
        table.wf(),
    ensures
        peers::some_tip_above(table.rows(), height) <==> is_behind(table, height),
        peers::some_tip_known(table.rows()) <==> has_heard(table),
{
    table.is_in_order();
    let rows = table.rows();
    ordered_map::rows_are_entries(rows);
    if peers::some_tip_above(rows, height) {
        let i = choose|i: int|
            0 <= i < rows.len() && ((#[trigger] rows[i]).1.last_tip matches Some(tip) && tip.0
                > height);
        assert(table@.contains_key(rows[i].0));
    }
    if peers::some_tip_known(rows) {
        let i = choose|i: int| 0 <= i < rows.len() && (#[trigger] rows[i]).1.last_tip is Some;
        assert(table@.contains_key(rows[i].0));
    }
    if is_behind(table, height) {
        let a = choose|a: SocketAddress| #[trigger]
            table@.contains_key(a) && table@[a].last_tip is Some && table@[a].last_tip->Some_0.0
                > height;
        assert(ordered_map::has_key(rows, a));
        let i = choose|i: int| ordered_map::key_at(rows, a, i);
        assert(table@[rows[i].0] == rows[i].1);
    }
    if has_heard(table) {
        let a = choose|a: SocketAddress| #[trigger]
            table@.contains_key(a) && table@[a].last_tip is Some;
        assert(ordered_map::has_key(rows, a));
        let i = choose|i: int| ordered_map::key_at(rows, a, i);
        assert(table@[rows[i].0] == rows[i].1);
    }
}

/// The node mines in its turn exactly if it is told to, its interval has passed
/// since it last did, no block is missing, no other node has told of a higher
/// tip, and, where it has to hear from others first, one has answered and, if it
/// knows any, one has told of a tip.
pub proof fn mines_exactly_when_it_may(
    state: ServiceState,
    config: RunConfig,
    table: PeerTable,
    seen: Seen,
)
    requires
        table.wf(),
    ensures
        run_loop::next_of(state, Phase::Noted, config, table, seen) == Task::Mine <==> {
            &&& config.mine
            &&& seen.now - state.last_mine >= config.mine_interval * 1000
            &&& !seen.pending_sync
            &&& !is_behind(table, seen.local_height)
            &&& state.requires_peer_sync_before_mining ==> state.peer_answered && (
            table@.dom().len() == 0 || has_heard(table))
        },
{
    tips_are_those_of_the_table(table, seen.local_height);
}

/// The reason for waiting is a missing block before a missing answer, and that
/// before a higher tip of another node.
pub proof fn the_reason_for_waiting_holds(
    state: ServiceState,
    pending_sync: bool,
    table: PeerTable,
    height: u64,
)
    requires
        table.wf(),
    ensures
        ({
            let unheard = state.requires_peer_sync_before_mining && (!state.peer_answered || (
            table@.dom().len() > 0 && !has_heard(table)));
            let reason = service::wait_reason(state, pending_sync, table, height);
            &&& reason == Some(WaitReason::SyncPending) <==> pending_sync
            &&& reason == Some(WaitReason::HandshakePending) <==> !pending_sync && unheard
            &&& reason == Some(WaitReason::PeerAhead) <==> !pending_sync && !unheard && is_behind(
                table,
                height,
            )
            &&& reason is None <==> !pending_sync && !unheard && !is_behind(table, height)
        }),
{
    tips_are_those_of_the_table(table, height);
}

/// The tasks of a round come in their order, each when its time has come.
pub proof fn a_round_takes_its_turns(
    state: ServiceState,
    config: RunConfig,
    table: PeerTable,
    seen: Seen,
)
    ensures
        !seen.shutdown_file ==> run_loop::next_of(state, Phase::Rested, config, table, seen)
            == Task::AcceptPeers,
        run_loop::next_of(state, Phase::Accepted, config, table, seen) == Task::SyncPeers,
        run_loop::next_of(state, Phase::Synced, config, table, seen) == Task::RefreshGateway
            <==> seen.now - state.last_gateway_heartbeat >= config.gateway_heartbeat * 1000,
        run_loop::next_of(state, Phase::Refreshed, config, table, seen) == Task::NoteActivity,
        run_loop::next_of(state, Phase::Mined, config, table, seen) == Task::TellStatus
            <==> seen.now - state.last_status >= service::STATUS_INTERVAL * 1000,
        run_loop::next_of(state, Phase::Told, config, table, seen) == Task::Rest,
        run_loop::state_after(state, Task::Mine, config, seen.now) == (ServiceState {
            last_mine: seen.now,
            ..state
        }),
        run_loop::state_after(state, Task::TellStatus, config, seen.now) == (ServiceState {
            last_status: seen.now,
            ..state
        }),
        run_loop::state_after(state, Task::SyncPeers, config, seen.now) == state,
        run_loop::state_after(state, Task::AcceptPeers, config, seen.now) == state,
        run_loop::phase_after(Task::AcceptPeers) == Phase::Accepted,
        run_loop::phase_after(Task::SyncPeers) == Phase::Synced,
        run_loop::phase_after(Task::RefreshGateway) == Phase::Refreshed,
        run_loop::phase_after(Task::NoteActivity) == Phase::Noted,
        run_loop::phase_after(Task::Mine) == Phase::Mined,
        run_loop::phase_after(Task::TellStatus) == Phase::Told,
        run_loop::phase_after(Task::Rest) == Phase::Rested,
{
}

/// What the node says it does is what it does: it waits for others only where it
/// knows none but has a gateway to ask, it mines only where it is told to, has
/// something to mine and nothing to catch up with, and it serves others alone
/// where there is nothing else.
pub proof fn the_activity_is_the_one_that_goes_on(s: Surroundings)
    ensures
        ({
            let a = service::activity_in(s);
            let alone = s.peer_count == 0 && s.has_gateway;
            let behind = s.pending_sync || s.handshake_pending || s.peer_ahead;
            &&& a == NodeActivity::WaitingForPeers <==> alone
            &&& a == NodeActivity::Mining <==> !alone && !behind && s.mining && s.mempool_len > 0
            &&& a == NodeActivity::WaitingForTransactions <==> !alone && !behind && s.mining
                && s.mempool_len == 0
            &&& a == NodeActivity::ServingPeers <==> !alone && !behind && !s.mining
                && s.peer_count == 0
            &&& a == NodeActivity::Syncing <==> !alone && (behind || (!s.mining && s.peer_count
                > 0))
        }),
{
}

/// A node starts with the nodes that it was told of, each under its name,
/// without failures and without a tip, to be asked at once; and with no others.
pub proof fn a_node_starts_with_those_it_was_told_of(
    config: RunConfig,
    names: Seq<String>,
    now: u64,
    n: int,
    a: SocketAddress,
)
    requires
        0 <= n <= config.peers@.len(),
        names.len() == config.peers@.len(),
    ensures
        ({
            let start = service::named_peers(config, names, now, n);
            &&& start.contains_key(a) <==> config.peers@.take(n).contains(a)
            &&& start.contains_key(a) ==> {
                &&& start[a].addr == a
                &&& start[a].failures == 0
                &&& start[a].next_attempt == now
                &&& start[a].last_tip is None
                &&& exists|k: int|
                    0 <= k < n && #[trigger] config.peers@[k] == a && names[k] == start[a].name
            }
        }),
    decreases n,
{
    let part = config.peers@.take(n);
    if n > 0 {
        a_node_starts_with_those_it_was_told_of(config, names, now, n - 1, a);
        let less = config.peers@.take(n - 1);
        if part.contains(a) && config.peers@[n - 1] != a {
            let k = choose|k: int| 0 <= k < part.len() && part[k] == a;
            assert(less[k] == a);
        }
        if less.contains(a) {
            let k = choose|k: int| 0 <= k < less.len() && less[k] == a;
            assert(part[k] == a);
        }
        assert(part[n - 1] == config.peers@[n - 1]);
        let start = service::named_peers(config, names, now, n);
        if start.contains_key(a) {
            if config.peers@[n - 1] == a {
                assert(names[n - 1] == start[a].name);
            } else {
                let k = choose|k: int|
                    0 <= k < n - 1 && #[trigger] config.peers@[k] == a && names[k]
                        == start[a].name;
                assert(config.peers@[k] == a);
            }
        }
    }
}

/// A gateway is asked for as many nodes as there is room for, and for no more
/// than it gives at once; and told the first of the node's public addresses, or
/// the first that it listens on.
pub proof fn a_gateway_is_asked_for_what_there_is_room_for(config: RunConfig, peer_count: usize)
    ensures
        0 <= service::wanted(config, peer_count) <= MAX_GATEWAY_PEERS,
        peer_count >= config.max_peers <==> service::wanted(config, peer_count) == 0,
        peer_count < config.max_peers ==> peer_count + service::wanted(config, peer_count)
            <= config.max_peers,
        peer_count < config.max_peers ==> peer_count + service::wanted(config, peer_count)
            == config.max_peers || service::wanted(config, peer_count) == MAX_GATEWAY_PEERS,
        config.public_addrs@.len() > 0 ==> service::own_address(config) == Some(
            config.public_addrs@[0],
        ),
        config.public_addrs@.len() == 0 && config.listen_addrs@.len() > 0 ==> service::own_address(
            config,
        ) == Some(config.listen_addrs@[0]),
        config.public_addrs@.len() == 0 && config.listen_addrs@.len() == 0 ==> service::own_address(
            config,
        ) is None,
{
}

/// What was sent and what failed add up over the parts of a round, and each
/// attempt counts as one of the two.
pub proof fn attempts_add_up(a: Seq<bool>, b: Seq<bool>, reached: bool)
    ensures
        service::reported(a + b).0 == service::reported(a).0 + service::reported(b).0,
        service::reported(a + b).1 == service::reported(a).1 + service::reported(b).1,
        service::reported(seq![reached]) == if reached {
            (1int, 0int)
        } else {
            (0int, 1int)
        },
        service::reported(a).0 + service::reported(a).1 == a.len(),
    decreases a.len() + b.len(),
{
    reveal_with_fuel(service::reported, 2);
    assert(seq![reached].drop_last() =~= Seq::<bool>::empty());
    if b.len() > 0 {
        attempts_add_up(a, b.drop_last(), reached);
        assert((a + b).drop_last() =~= a + b.drop_last());
    } else {
        assert(a + b =~= a);
        if a.len() > 0 {
            attempts_add_up(a.drop_last(), b, reached);
        }
    }
}

/// The tip that another node told of is the one it is remembered with, however
/// the poll ended.
pub proof fn the_tip_told_is_the_tip_kept(poll: PeerPoll)
    ensures
        match poll {
            PeerPoll::Idle { remote_tip } => service::tip_told(poll) == remote_tip,
            PeerPoll::Synced { remote_tip } => service::tip_told(poll) == remote_tip,
        },
{
}

/// A poll goes on only between nodes that speak the same version. It ends at
/// once where the other node is not ahead; else it asks for the block above the
/// own tip, and for the next one after each that was stored, up to its target. It
/// ends well only there, and with the other node's tip; whatever else comes back
/// ends it as a failure.
pub proof fn a_poll_goes_on_as_long_as_all_is_well(
    stage: PollStage,
    event: PollEvent,
    params: ChainParams,
    peer: Seq<char>,
    local_height: u64,
)
    requires
        polling::awaited(stage, event),
        local_height + MAX_BLOCKS_PER_SYNC <= u64::MAX,
    ensures
        ({
            let (step, next) = polling::polled(stage, event, params, peer, local_height);
            &&& event is Unreachable ==> (step matches PollStep::Done(Err(_)))
            &&& (stage == PollStage::AwaitVersion) ==> match event {
                PollEvent::Answered(message) => match message@ {
                    Said::VerAck(theirs) => if theirs.protocol_version
                        == params.protocol_version {
                        step == PollStep::Ask(Said::GetTip) && next == PollStage::AwaitTip
                    } else {
                        step matches PollStep::Done(Err(_))
                    },
                    _ => step matches PollStep::Done(Err(_)),
                },
                _ => true,
            }
            &&& (stage == PollStage::AwaitTip) ==> match event {
                PollEvent::Answered(message) => match message@ {
                    Said::Tip(tip) => if tip.height.0 <= local_height {
                        step == PollStep::Done(Ok(PeerPoll::Idle { remote_tip: tip.height }))
                    } else {
                        &&& step matches PollStep::Ask(Said::GetBlockByHeight(h)) && h.0
                            == local_height + 1
                        &&& next matches PollStage::AwaitBlock { height, target, remote_tip }
                            && height == local_height + 1 && remote_tip == tip.height && (target
                            == tip.height.0 || target == local_height + MAX_BLOCKS_PER_SYNC)
                            && target <= tip.height.0 && target <= local_height
                            + MAX_BLOCKS_PER_SYNC
                    },
                    _ => step matches PollStep::Done(Err(_)),
                },
                _ => true,
            }
            &&& stage matches PollStage::AwaitBlock { height, target, remote_tip } ==> match event {
                PollEvent::Answered(message) => match message@ {
                    Said::Block(bytes) => step == PollStep::TakeBlock(height, bytes) && next == (
                    PollStage::AwaitTaken { height, target, remote_tip }),
                    _ => step matches PollStep::Done(Err(_)),
                },
                _ => true,
            }
            &&& stage matches PollStage::AwaitTaken { height, target, remote_tip } ==> match event {
                PollEvent::Block(Taken::Stored) => if height < target {
                    step matches PollStep::Ask(Said::GetBlockByHeight(h)) && h.0 == height + 1
                } else {
                    step == PollStep::Done(Ok(PeerPoll::Synced { remote_tip }))
                },
                _ => step matches PollStep::Done(Err(_)),
            }
        }),
{
}

/// A nonce that was found is handed on exactly if the tip is still the parent
/// that the block was built on; else the turn is given up.
pub proof fn a_found_block_needs_its_parent(run: MiningRun, node: Node)
    ensures
        run.step matches MiningStep::Found { nonce, attempts } ==> if node.ledger.tip()
            is Some && node.ledger.tip()->Some_0.data.hash == run.parent {
            mining::settled(run, node) == MiningTask::Apply(nonce)
        } else {
            mining::settled(run, node) matches MiningTask::Done(Ok(_))
        },
        !(run.step is Found) ==> (mining::settled(run, node) matches MiningTask::Done(Ok(_))),
{
}

/// What is to happen at the start of a node is due at once, if the clock has run
/// that long.
pub proof fn what_is_put_back_is_due(now: u64, secs: u64)
    ensures
        secs * 1000 <= now ==> service::passed(service::ago(now, secs), now, secs)
            && service::ago(now, secs) + secs * 1000 == now,
        service::ago(now, secs) <= now,
        service::passed(now, now, 0),
        secs > 0 ==> !service::passed(now, now, secs),
{
}

/// Of a list of nodes so many are kept as there may be, from its beginning.
pub proof fn the_first_nodes_are_kept(list: Seq<SocketAddress>, n: int)
    requires
        n >= 0,
    ensures
        ({
            let kept = run_config::first_of(list, n);
            &&& kept.len() <= n
            &&& kept.len() == n || kept == list
            &&& forall|i: int| 0 <= i < kept.len() ==> #[trigger] kept[i] == list[i]
        }),
{
}

/// An address reaches only the own machine exactly if it begins with 127 in the
/// older form, or is one in the newer.
pub proof fn the_own_machine_has_its_addresses(addr: SocketAddress)
    ensures
        !addr.v6 ==> (run_config::loopback(addr) <==> addr.octets@[0] == 127),
        addr.v6 && run_config::loopback(addr) ==> addr.octets@[15] == 1 && addr.octets@[0] == 0
            && addr.octets@[14] == 0,
        addr.v6 && addr.octets@[15] == 1 && (forall|i: int|
            0 <= i < 15 ==> #[trigger] addr.octets@[i] == 0) ==> run_config::loopback(addr),
{
}

} // verus!
