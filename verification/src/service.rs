//! What a running node decides: when to mine, what to tell of itself, whom to
//! ask, and what to make of the answers. Times are readings of a clock that
//! counts milliseconds and does not run backwards.

use crate::parse;
use crate::peers::{self, PeerPoll, PeerState, PeerTable, SocketAddress};
use crate::run_config::{copy_bytes, RunConfig};
use crate::text;
use crate::types::Address;
use vstd::prelude::*;
use vstd::string::*;

verus! {

/// How often the activity is noted anew, in seconds.
pub const ACTIVITY_LOG_INTERVAL: u64 = 15;

/// How often the status is told, in seconds.
pub const STATUS_INTERVAL: u64 = 30;

/// How many nodes a gateway is asked for at most.
pub const MAX_GATEWAY_PEERS: usize = 32;

/// What the node is doing.
#[derive(Clone, Copy, Debug, PartialEq, Eq, Structural)]
pub enum NodeActivity {
    Starting,
    WaitingForPeers,
    WaitingForTransactions,
    Mining,
    Syncing,
    ServingPeers,
}

/// Why the node does not mine.
#[derive(Clone, Copy, Debug, PartialEq, Eq, Structural)]
pub enum WaitReason {
    SyncPending,
    HandshakePending,
    PeerAhead,
}

impl WaitReason {
    /// The reason in words.
    pub fn name(&self) -> (r: &'static str)
        ensures
            r@ == (match *self {
                WaitReason::SyncPending => "sync_pending"@,
                WaitReason::HandshakePending => "handshake_pending"@,
                WaitReason::PeerAhead => "peer_ahead"@,
            }),
    {
        match self {
            WaitReason::SyncPending => "sync_pending",
            WaitReason::HandshakePending => "handshake_pending",
            WaitReason::PeerAhead => "peer_ahead",
        }
    }
}

/// What to do about mining.
#[derive(Clone, Copy, Debug, PartialEq, Eq, Structural)]
pub enum MiningTurn {
    NotDue,
    Wait(WaitReason),
    Mine,
}

/// So many seconds have passed.
pub open spec fn passed(last: u64, now: u64, secs: u64) -> bool {
    now - last >= secs * 1000
}

/// Whether so many seconds have passed.
pub fn has_passed(last: u64, now: u64, secs: u64) -> (r: bool)
    requires
        last <= now,
    ensures
        r == passed(last, now, secs),
{
    let whole: u64 = (now - last) / 1000;
    whole >= secs
}

/// The reading so many seconds ago, or the reading itself where the clock did
/// not run that long.
pub open spec fn ago(now: u64, secs: u64) -> u64 {
    if secs * 1000 <= now {
        (now - secs * 1000) as u64
    } else {
        now
    }
}

fn reading_ago(now: u64, secs: u64) -> (r: u64)
    ensures
        r == ago(now, secs),
{
    if secs <= now / 1000 {
        now - secs * 1000
    } else {
        now
    }
}

/// What a running node keeps in mind: whether it has to be in step with others
/// before it mines, whether another node has ever answered it, and when it last
/// did what it does from time to time.
#[derive(Clone, Copy, Debug, PartialEq, Eq, Structural)]
pub struct ServiceState {
    pub requires_peer_sync_before_mining: bool,
    pub peer_answered: bool,
    pub last_mine: u64,
    pub last_status: u64,
    pub last_gateway_heartbeat: u64,
    pub last_activity_log: u64,
    pub last_activity: NodeActivity,
}

/// What the node sees of its surroundings.
#[derive(Clone, Copy, Debug, PartialEq, Eq, Structural)]
pub struct Surroundings {
    pub peer_count: usize,
    pub has_gateway: bool,
    pub pending_sync: bool,
    pub handshake_pending: bool,
    pub peer_ahead: bool,
    pub mining: bool,
    pub mempool_len: usize,
}

/// What the node is doing in given surroundings.
pub open spec fn activity_in(s: Surroundings) -> NodeActivity {
    if s.peer_count == 0 && s.has_gateway {
        NodeActivity::WaitingForPeers
    } else if s.pending_sync || s.handshake_pending || s.peer_ahead {
        NodeActivity::Syncing
    } else if s.mining && s.mempool_len == 0 {
        NodeActivity::WaitingForTransactions
    } else if s.mining {
        NodeActivity::Mining
    } else if s.peer_count > 0 {
        NodeActivity::Syncing
    } else {
        NodeActivity::ServingPeers
    }
}

/// What the node is doing in given surroundings.
pub fn current_activity(s: &Surroundings) -> (r: NodeActivity)
    ensures
        r == activity_in(*s),
{
    if s.peer_count == 0 && s.has_gateway {
        NodeActivity::WaitingForPeers
    } else if s.pending_sync || s.handshake_pending || s.peer_ahead {
        NodeActivity::Syncing
    } else if s.mining && s.mempool_len == 0 {
        NodeActivity::WaitingForTransactions
    } else if s.mining {
        NodeActivity::Mining
    } else if s.peer_count > 0 {
        NodeActivity::Syncing
    } else {
        NodeActivity::ServingPeers
    }
}

/// The node needs the answer of another before it mines: it mines, it was told
/// of others, and none has ever answered or none of those that it now knows has.
pub open spec fn handshake_needed(state: ServiceState, peers: PeerTable) -> bool {
    state.requires_peer_sync_before_mining && (!state.peer_answered || peers@.dom().len() > 0
        && !peers::some_tip_known(peers.rows()))
}

/// Why the node waits before it mines, if it does.
pub open spec fn wait_reason(
    state: ServiceState,
    pending_sync: bool,
    peers: PeerTable,
    local_height: u64,
) -> Option<WaitReason> {
    if pending_sync {
        Some(WaitReason::SyncPending)
    } else if handshake_needed(state, peers) {
        Some(WaitReason::HandshakePending)
    } else if peers::some_tip_above(peers.rows(), local_height) {
        Some(WaitReason::PeerAhead)
    } else {
        None
    }
}

impl ServiceState {
    /// A node that starts to run.
    pub fn new(config: &RunConfig, now: u64) -> (r: Self)
        ensures
            r == (ServiceState {
                requires_peer_sync_before_mining: config.mine && (config.peers@.len() > 0
                    || config.gateway_url is Some),
                peer_answered: false,
                last_mine: now,
                last_status: now,
                last_gateway_heartbeat: ago(now, config.gateway_heartbeat),
                last_activity_log: ago(now, ACTIVITY_LOG_INTERVAL),
                last_activity: NodeActivity::Starting,
            }),
    {
        ServiceState {
            requires_peer_sync_before_mining: config.mine && (config.peers.len() > 0
                || config.gateway_url.is_some()),
            peer_answered: false,
            last_mine: now,
            last_status: now,
            last_gateway_heartbeat: reading_ago(now, config.gateway_heartbeat),
            last_activity_log: reading_ago(now, ACTIVITY_LOG_INTERVAL),
            last_activity: NodeActivity::Starting,
        }
    }

    /// No reading that is kept lies ahead of the clock.
    pub open spec fn before(self, now: u64) -> bool {
        &&& self.last_mine <= now
        &&& self.last_status <= now
        &&& self.last_gateway_heartbeat <= now
        &&& self.last_activity_log <= now
    }

    /// Whether the gateway has to hear from the node.
    pub fn gateway_due(&self, config: &RunConfig, now: u64) -> (r: bool)
        requires
            self.before(now),
        ensures
            r == passed(self.last_gateway_heartbeat, now, config.gateway_heartbeat),
    {
        has_passed(self.last_gateway_heartbeat, now, config.gateway_heartbeat)
    }

    /// Whether the node needs the answer of another before it mines.
    pub fn needs_peer_handshake_before_mining(&self, peers: &PeerTable) -> (r: bool)
        requires
            peers.wf(),
        ensures
            r == handshake_needed(*self, *peers),
    {
        self.requires_peer_sync_before_mining && (!self.peer_answered || peers.len() > 0
            && !peers.any_tip_known())
    }

    /// Why the node waits before it mines, if it does.
    pub fn mining_wait_reason(&self, pending_sync: bool, peers: &PeerTable, local_height: u64) -> (r:
        Option<WaitReason>)
        requires
            peers.wf(),
        ensures
            r == wait_reason(*self, pending_sync, *peers, local_height),
    {
        if pending_sync {
            Some(WaitReason::SyncPending)
        } else if self.needs_peer_handshake_before_mining(peers) {
            Some(WaitReason::HandshakePending)
        } else if peers.any_tip_above(local_height) {
            Some(WaitReason::PeerAhead)
        } else {
            None
        }
    }

    /// What to do about mining now.
    pub fn mining_turn(
        &self,
        config: &RunConfig,
        pending_sync: bool,
        peers: &PeerTable,
        local_height: u64,
        now: u64,
    ) -> (r: MiningTurn)
        requires
            peers.wf(),
            self.before(now),
        ensures
            r == if !config.mine || !passed(self.last_mine, now, config.mine_interval) {
                MiningTurn::NotDue
            } else {
                match wait_reason(*self, pending_sync, *peers, local_height) {
                    Some(reason) => MiningTurn::Wait(reason),
                    None => MiningTurn::Mine,
                }
            },
    {
        if config.mine && has_passed(self.last_mine, now, config.mine_interval) {
            match self.mining_wait_reason(pending_sync, peers, local_height) {
                Some(reason) => MiningTurn::Wait(reason),
                None => MiningTurn::Mine,
            }
        } else {
            MiningTurn::NotDue
        }
    }

    /// Notes what the node is doing, unless it is the same and was noted not
    /// long ago.
    pub fn set_activity(&mut self, activity: NodeActivity, now: u64)
        requires
            old(self).before(now),
        ensures
            *final(self) == if activity == old(self).last_activity && !passed(
                old(self).last_activity_log,
                now,
                ACTIVITY_LOG_INTERVAL,
            ) {
                *old(self)
            } else {
                ServiceState { last_activity: activity, last_activity_log: now, ..*old(self) }
            },
    {
        if activity == self.last_activity && !has_passed(
            self.last_activity_log,
            now,
            ACTIVITY_LOG_INTERVAL,
        ) {
            return ;
        }
        self.last_activity = activity;
        self.last_activity_log = now;
    }

    /// Notes what the node is doing in given surroundings.
    pub fn log_activity(&mut self, surroundings: &Surroundings, now: u64)
        requires
            old(self).before(now),
        ensures
            *final(self) == if activity_in(*surroundings) == old(self).last_activity && !passed(
                old(self).last_activity_log,
                now,
                ACTIVITY_LOG_INTERVAL,
            ) {
                *old(self)
            } else {
                ServiceState {
                    last_activity: activity_in(*surroundings),
                    last_activity_log: now,
                    ..*old(self)
                }
            },
    {
        self.set_activity(current_activity(surroundings), now);
    }
}

/// The nodes that a configuration names, none of which has been tried. `names`
/// are their addresses in words.
pub open spec fn named_peers(config: RunConfig, names: Seq<String>, now: u64, n: int) -> Map<
    SocketAddress,
    PeerState,
>
    decreases n,
{
    if n <= 0 {
        Map::empty()
    } else {
        named_peers(config, names, now, n - 1).insert(
            config.peers@[n - 1],
            PeerState {
                addr: config.peers@[n - 1],
                name: names[n - 1],
                failures: 0,
                next_attempt: now,
                last_tip: None,
            },
        )
    }
}

/// The table of the nodes that a configuration names.
pub fn initial_peers(config: &RunConfig, names: &Vec<String>, now: u64) -> (r: PeerTable)
    requires
        names@.len() == config.peers@.len(),
    ensures
        r.wf(),
        r@ == named_peers(*config, names@, now, config.peers@.len() as int),
{
    let mut table = PeerTable::new();
    let mut i: usize = 0;
    while i < config.peers.len()
        invariant
            i <= config.peers@.len(),
            names@.len() == config.peers@.len(),
            table.wf(),
            table@ == named_peers(*config, names@, now, i as int),
        decreases config.peers@.len() - i,
    {
        table.insert(PeerState::new(config.peers[i], names[i].clone(), now));
        i = i + 1;
    }
    table
}

/// What has to hold before the node runs: no shutdown file, and a difficulty to
/// mine at. A node that mines needs the secret key of its miner, which is the
/// result.
pub fn preflight(
    config: &RunConfig,
    shutdown_file_exists: bool,
    difficulty: &Result<u32, String>,
) -> (r: Result<Option<Vec<u8>>, String>)
    ensures
        if shutdown_file_exists {
            r matches Err(words) && words@ == "shutdown file `"@ + config.shutdown_file@
                + "` exists; remove it before starting the node"@
        } else {
            match *difficulty {
                Err(error) => r matches Err(words) && words@
                    == "failed to calculate next difficulty: "@ + error@,
                Ok(_) => if !config.mine {
                    r == Ok::<Option<Vec<u8>>, String>(None)
                } else {
                    match config.miner_secret_key {
                        None => r matches Err(words) && words@
                            == "mining requires --wallet or --miner-secret-key so the miner identity is explicit"@,
                        Some(key) => r matches Ok(Some(k)) && k@ == key@,
                    }
                },
            }
        },
{
    if shutdown_file_exists {
        return Err(
            text::join3(
                "shutdown file `",
                config.shutdown_file.as_str(),
                "` exists; remove it before starting the node",
            ),
        );
    }
    match difficulty {
        Err(error) => {
            return Err(
                text::join2("failed to calculate next difficulty: ", error.as_str()),
            );
        },
        Ok(_) => {},
    }
    if !config.mine {
        return Ok(None);
    }
    match &config.miner_secret_key {
        None => Err(
            text::owned(
                "mining requires --wallet or --miner-secret-key so the miner identity is explicit",
            ),
        ),
        Some(key) => Ok(Some(copy_bytes(key))),
    }
}

/// Fails where the address that the miner's secret key gives is not the
/// miner's.
pub fn check_miner(config: &RunConfig, derived: &Address) -> (r: Result<(), String>)
    ensures
        if *derived == config.miner_address {
            r == Ok::<(), String>(())
        } else {
            r matches Err(words) && words@ == "miner secret key does not match miner address "@
                + text::hex_text(config.miner_address.0@)
        },
{
    if derived.same(&config.miner_address) {
        Ok(())
    } else {
        Err(
            text::join2(
                "miner secret key does not match miner address ",
                parse::address_to_string(&config.miner_address).as_str(),
            ),
        )
    }
}

/// The tip that a poll told of.
pub open spec fn tip_told(poll: PeerPoll) -> crate::types::Height {
    match poll {
        PeerPoll::Idle { remote_tip } => remote_tip,
        PeerPoll::Synced { remote_tip } => remote_tip,
    }
}

/// What follows from polling a node: ask it for others, or report its failure,
/// in the end by dropping it.
#[derive(Debug, PartialEq, Eq)]
pub enum PollEffect {
    AskForPeers,
    Failed(String),
    Dropped(String),
}

impl ServiceState {
    /// Notes what polling a node brought, and says what follows.
    pub fn after_poll(
        &mut self,
        peers: &mut PeerTable,
        addr: &SocketAddress,
        name: &str,
        outcome: Result<PeerPoll, String>,
        now: u64,
    ) -> (r: PollEffect)
        requires
            old(peers).wf(),
            now + peers::PEER_RETRY_MAX <= u64::MAX,
        ensures
            final(peers).wf(),
            *final(self) == (ServiceState {
                peer_answered: old(self).peer_answered || outcome is Ok,
                ..*old(self)
            }),
            match outcome {
                Ok(poll) => r == PollEffect::AskForPeers && final(peers)@ == if old(
                    peers,
                )@.contains_key(*addr) {
                    old(peers)@.insert(
                        *addr,
                        PeerState {
                            failures: 0,
                            last_tip: Some(tip_told(poll)),
                            next_attempt: (now + peers::DEFAULT_SYNC_INTERVAL) as u64,
                            ..old(peers)@[*addr]
                        },
                    )
                } else {
                    old(peers)@
                },
                Err(error) => if !old(peers)@.contains_key(*addr) {
                    (r matches PollEffect::Failed(words) && words@ == "peer "@ + name@
                        + " sync failed: "@ + error@) && final(peers)@ == old(peers)@
                } else if peers::one_more(old(peers)@[*addr].failures) >= peers::MAX_PEER_FAILURES {
                    (r matches PollEffect::Dropped(words) && words@ == "peer "@ + name@
                        + " sync failed 3 times; dropped: "@ + error@) && final(peers)@ == old(
                        peers,
                    )@.remove(*addr)
                } else {
                    (r matches PollEffect::Failed(words) && words@ == "peer "@ + name@
                        + " sync failed: "@ + error@) && final(peers)@ == old(peers)@.insert(
                        *addr,
                        PeerState {
                            failures: peers::one_more(old(peers)@[*addr].failures),
                            next_attempt: (now + peers::retry_delay(
                                peers::one_more(old(peers)@[*addr].failures),
                            )) as u64,
                            ..old(peers)@[*addr]
                        },
                    )
                },
            },
    {
        match outcome {
            Ok(PeerPoll::Idle { remote_tip }) => {
                self.peer_answered = true;
                peers.mark_ok(addr, remote_tip, now);
                PollEffect::AskForPeers
            },
            Ok(PeerPoll::Synced { remote_tip }) => {
                self.peer_answered = true;
                peers.mark_ok(addr, remote_tip, now);
                PollEffect::AskForPeers
            },
            Err(error) => {
                if peers.mark_failed(addr, now, true) {
                    PollEffect::Dropped(
                        text::join4("peer ", name, " sync failed 3 times; dropped: ", error.as_str()),
                    )
                } else {
                    PollEffect::Failed(
                        text::join4("peer ", name, " sync failed: ", error.as_str()),
                    )
                }
            },
        }
    }

    /// Notes what polling a node brought before the node runs. A failure gives the
    /// words to report, and drops no node.
    pub fn after_preflight_poll(
        &mut self,
        peers: &mut PeerTable,
        addr: &SocketAddress,
        name: &str,
        outcome: Result<PeerPoll, String>,
        now: u64,
    ) -> (r: Option<String>)
        requires
            old(peers).wf(),
            now + peers::PEER_RETRY_MAX <= u64::MAX,
        ensures
            final(peers).wf(),
            *final(self) == (ServiceState {
                peer_answered: old(self).peer_answered || outcome is Ok,
                ..*old(self)
            }),
            match outcome {
                Ok(poll) => r is None && final(peers)@ == if old(peers)@.contains_key(*addr) {
                    old(peers)@.insert(
                        *addr,
                        PeerState {
                            failures: 0,
                            last_tip: Some(tip_told(poll)),
                            next_attempt: (now + peers::DEFAULT_SYNC_INTERVAL) as u64,
                            ..old(peers)@[*addr]
                        },
                    )
                } else {
                    old(peers)@
                },
                Err(error) => (r matches Some(words) && words@ == "preflight peer "@ + name@
                    + " failed: "@ + error@) && final(peers)@ == if old(peers)@.contains_key(*addr) {
                    old(peers)@.insert(
                        *addr,
                        PeerState {
                            failures: peers::one_more(old(peers)@[*addr].failures),
                            next_attempt: (now + peers::retry_delay(
                                peers::one_more(old(peers)@[*addr].failures),
                            )) as u64,
                            ..old(peers)@[*addr]
                        },
                    )
                } else {
                    old(peers)@
                },
            },
    {
        match outcome {
            Ok(PeerPoll::Idle { remote_tip }) => {
                self.peer_answered = true;
                peers.mark_ok(addr, remote_tip, now);
                None
            },
            Ok(PeerPoll::Synced { remote_tip }) => {
                self.peer_answered = true;
                peers.mark_ok(addr, remote_tip, now);
                None
            },
            Err(error) => {
                let _ = peers.mark_failed(addr, now, false);
                Some(text::join4("preflight peer ", name, " failed: ", error.as_str()))
            },
        }
    }
}

/// What the node tells its gateway and asks of it.
#[derive(Debug, PartialEq, Eq)]
pub struct GatewayPlan {
    pub gateway_url: String,
    /// Say that without a public address only questions are asked.
    pub warns: bool,
    /// The public addresses to tell of.
    pub announce: Vec<SocketAddress>,
    /// How many nodes to ask for, and which address to leave out.
    pub ask: Option<(usize, Option<SocketAddress>)>,
}

/// The address that the node goes by: its first public one, or the first that it
/// listens on.
pub open spec fn own_address(config: RunConfig) -> Option<SocketAddress> {
    if config.public_addrs@.len() > 0 {
        Some(config.public_addrs@[0])
    } else if config.listen_addrs@.len() > 0 {
        Some(config.listen_addrs@[0])
    } else {
        None
    }
}

/// How many nodes a gateway is asked for: those there is room for, up to a limit.
pub open spec fn wanted(config: RunConfig, peer_count: usize) -> int {
    if config.max_peers <= peer_count {
        0
    } else if config.max_peers - peer_count < MAX_GATEWAY_PEERS {
        config.max_peers - peer_count
    } else {
        MAX_GATEWAY_PEERS as int
    }
}

/// What the node tells its gateway and asks of it, if it has one. `register`
/// is set for the first time.
pub fn gateway_plan(config: &RunConfig, register: bool, peer_count: usize) -> (r: Option<
    GatewayPlan,
>)
    ensures
        match config.gateway_url {
            None => r is None,
            Some(url) => r matches Some(plan) && plan.gateway_url@ == url@ && plan.warns == (
            register && config.public_addrs@.len() == 0) && plan.announce@ == config.public_addrs@
                && plan.ask == if wanted(*config, peer_count) > 0 {
                Some((wanted(*config, peer_count) as usize, own_address(*config)))
            } else {
                None
            },
        },
{
    match &config.gateway_url {
        None => None,
        Some(url) => {
            let mut announce: Vec<SocketAddress> = Vec::new();
            let mut i: usize = 0;
            while i < config.public_addrs.len()
                invariant
                    i <= config.public_addrs@.len(),
                    announce@ == config.public_addrs@.take(i as int),
                decreases config.public_addrs@.len() - i,
            {
                announce.push(config.public_addrs[i]);
                i = i + 1;
                assert(announce@ =~= config.public_addrs@.take(i as int));
            }
            assert(announce@ =~= config.public_addrs@);
            let own: Option<SocketAddress> = if config.public_addrs.len() > 0 {
                Some(config.public_addrs[0])
            } else if config.listen_addrs.len() > 0 {
                Some(config.listen_addrs[0])
            } else {
                None
            };
            let available: usize = config.max_peers.saturating_sub(peer_count);
            let ask: Option<(usize, Option<SocketAddress>)> = if available == 0 {
                None
            } else if available < MAX_GATEWAY_PEERS {
                Some((available, own))
            } else {
                Some((MAX_GATEWAY_PEERS, own))
            };
            Some(
                GatewayPlan {
                    gateway_url: url.clone(),
                    warns: register && config.public_addrs.len() == 0,
                    announce,
                    ask,
                },
            )
        },
    }
}

/// How a message reached the known nodes.
#[derive(Clone, Copy, Debug, PartialEq, Eq, Structural)]
pub struct BroadcastReport {
    pub attempted: usize,
    pub sent: usize,
    pub failed: usize,
}

impl Default for BroadcastReport {
    fn default() -> (r: Self)
        ensures
            r == (BroadcastReport { attempted: 0, sent: 0, failed: 0 }),
    {
        BroadcastReport { attempted: 0, sent: 0, failed: 0 }
    }
}

impl BroadcastReport {
    /// The report before the first node.
    pub fn start(attempted: usize) -> (r: Self)
        ensures
            r == (BroadcastReport { attempted, sent: 0, failed: 0 }),
    {
        BroadcastReport { attempted, sent: 0, failed: 0 }
    }

    /// Counts what came of one node.
    pub fn count(&mut self, reached: bool)
        requires
            old(self).sent + old(self).failed < old(self).attempted,
        ensures
            *final(self) == if reached {
                BroadcastReport { sent: (old(self).sent + 1) as usize, ..*old(self) }
            } else {
                BroadcastReport { failed: (old(self).failed + 1) as usize, ..*old(self) }
            },
    {
        if reached {
            self.sent = self.sent + 1;
        } else {
            self.failed = self.failed + 1;
        }
    }
}

/// The report after the nodes' outcomes.
pub open spec fn reported(outcomes: Seq<bool>) -> (int, int)
    decreases outcomes.len(),
{
    if outcomes.len() == 0 {
        (0, 0)
    } else {
        let (sent, failed) = reported(outcomes.drop_last());
        if outcomes.last() {
            (sent + 1, failed)
        } else {
            (sent, failed + 1)
        }
    }
}

/// The report on the outcomes of all nodes.
pub fn report_on(outcomes: &Vec<bool>) -> (r: BroadcastReport)
    ensures
        r.attempted == outcomes@.len(),
        (r.sent as int, r.failed as int) == reported(outcomes@),
        r.sent + r.failed == r.attempted,
{
    let mut report = BroadcastReport::start(outcomes.len());
    let mut i: usize = 0;
    assert(outcomes@.take(0) =~= Seq::empty());
    while i < outcomes.len()
        invariant
            i <= outcomes@.len(),
            report.attempted == outcomes@.len(),
            (report.sent as int, report.failed as int) == reported(outcomes@.take(i as int)),
            report.sent + report.failed == i,
        decreases outcomes@.len() - i,
    {
        proof {
            assert(outcomes@.take(i + 1).drop_last() =~= outcomes@.take(i as int));
        }
        report.count(outcomes[i]);
        i = i + 1;
    }
    assert(outcomes@.take(i as int) =~= outcomes@);
    report
}

} // verus!
