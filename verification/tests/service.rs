use paqus_node::message::{NetworkMessage, RejectReason, TipInfo, VersionInfo};
use paqus_node::params::ChainParams;
use paqus_node::peers::{
    blocks_to_request, dedupe_peers, NamedAddress, PeerPoll, PeerState, PeerTable, SocketAddress,
};
use paqus_node::polling::{Poll, PollAction, PollEvent, Taken};
use paqus_node::run_config::RunConfig;
use paqus_node::run_loop::{Phase, Seen, Task};
use paqus_node::service::{
    check_miner, current_activity, gateway_plan, has_passed,
    initial_peers, preflight, report_on, BroadcastReport, NodeActivity, PollEffect, ServiceState,
    Surroundings, WaitReason,
};
use paqus_node::types::{Address, Digest, Height};

fn params() -> ChainParams {
    ChainParams {
        protocol_version: 1,
        network_magic: [1, 2, 3, 4],
        block_time: 60,
        difficulty_start: 1,
        difficulty_adjustment_interval: 10,
        confirmation_depth: 1,
        max_block_txs: 100,
        secret_key_size: 4,
    }
}

fn addr(last: u8) -> SocketAddress {
    let mut octets = [0u8; 16];
    octets[0] = 10;
    octets[3] = last;
    SocketAddress { v6: false, octets, port: 5555, flow: 0, scope: 0 }
}

fn name(last: u8) -> String {
    format!("10.0.0.{last}:5555")
}

fn table(list: &[u8], now: u64) -> PeerTable {
    let mut table = PeerTable::new();
    for last in list {
        table.insert(PeerState::new(addr(*last), name(*last), now));
    }
    table
}

#[test]
fn failures_double_the_wait_up_to_a_minute() {
    let mut peer = PeerState::new(addr(1), name(1), 0);
    let mut waits = vec![];
    for _ in 0..8 {
        peer.mark_failed(1_000);
        waits.push((peer.next_attempt - 1_000) / 1_000);
    }
    assert_eq!(waits, vec![2, 4, 8, 16, 32, 60, 60, 60]);
    assert_eq!(peer.failures, 8);
    peer.mark_ok(Some(Height(9)), 50_000);
    assert_eq!(peer.failures, 0);
    assert_eq!(peer.next_attempt, 55_000);
    assert_eq!(peer.last_tip, Some(Height(9)));
}

#[test]
fn asks_for_so_many_blocks_at_a_time() {
    assert_eq!(blocks_to_request(5, Height(5)), None);
    assert_eq!(blocks_to_request(5, Height(7)), Some((6, 7)));
    assert_eq!(blocks_to_request(5, Height(500)), Some((6, 69)));
    assert_eq!(blocks_to_request(u64::MAX - 1, Height(u64::MAX)), Some((u64::MAX, u64::MAX)));
}

#[test]
fn nodes_that_are_due_are_tried() {
    let mut peers = table(&[3, 1, 2], 100);
    assert_eq!(peers.len(), 3);
    assert_eq!(peers.addresses(), vec![addr(1), addr(2), addr(3)]);
    peers.mark_ok(&addr(2), Height(4), 100);
    assert_eq!(peers.due_peers(100), vec![addr(1), addr(3)]);
    assert_eq!(peers.due_peers(5_100), vec![addr(1), addr(2), addr(3)]);
    assert!(peers.any_tip_known());
    assert!(peers.any_tip_above(3));
    assert!(!peers.any_tip_above(4));
}

#[test]
fn named_addresses_are_added_while_there_is_room() {
    let mut peers = table(&[1], 0);
    let named = |last: u8| NamedAddress { name: name(last), addr: Some(addr(last)) };
    let list = vec![
        NamedAddress { name: "nowhere".to_string(), addr: None },
        named(1),
        named(2),
        named(3),
        named(4),
        named(5),
    ];
    assert!(peers.add_peer_infos(list, &vec![addr(2)], &vec![addr(3)], 2, 7));
    assert_eq!(peers.addresses(), vec![addr(1), addr(4)]);
    assert!(!peers.add_peer_infos(vec![named(6)], &vec![], &vec![], 2, 7));
    let mut roomy = table(&[1], 0);
    let list = vec![named(5), named(2), named(4), named(5)];
    assert!(roomy.add_peer_infos(list, &vec![addr(2)], &vec![], 8, 7));
    assert_eq!(roomy.addresses(), vec![addr(1), addr(4), addr(5)]);
    assert!(!roomy.any_tip_known());
    let infos: Vec<String> = peers
        .peer_infos(&vec![name(9), name(1), "0".to_string()])
        .into_iter()
        .map(|info| info.address)
        .collect();
    assert_eq!(infos, vec!["0".to_string(), name(1), name(4), name(9)]);
    let mut list = vec![addr(2), addr(1), addr(2)];
    dedupe_peers(&mut list);
    assert_eq!(list, vec![addr(2), addr(1)]);
}

#[test]
fn a_node_is_dropped_after_three_failures() {
    let mut peers = table(&[1, 2], 0);
    let mut state = ServiceState::new(&mining_config(), 0);
    let mut fail = |peers: &mut PeerTable| {
        state.after_poll(peers, &addr(1), "10.0.0.1:5555", Err("gone".to_string()), 10)
    };
    assert_eq!(
        fail(&mut peers),
        PollEffect::Failed("peer 10.0.0.1:5555 sync failed: gone".to_string())
    );
    assert_eq!(
        fail(&mut peers),
        PollEffect::Failed("peer 10.0.0.1:5555 sync failed: gone".to_string())
    );
    assert_eq!(
        fail(&mut peers),
        PollEffect::Dropped("peer 10.0.0.1:5555 sync failed 3 times; dropped: gone".to_string())
    );
    assert_eq!(peers.addresses(), vec![addr(2)]);
    assert!(!state.peer_answered);
    assert_eq!(
        state.after_poll(
            &mut peers,
            &addr(2),
            &name(2),
            Ok(PeerPoll::Synced { remote_tip: Height(8) }),
            10
        ),
        PollEffect::AskForPeers
    );
    assert!(peers.any_tip_above(7));
    assert!(state.peer_answered);
    for _ in 0..5 {
        assert_eq!(
            state.after_preflight_poll(&mut peers, &addr(2), "x", Err("no".to_string()), 10),
            Some("preflight peer x failed: no".to_string())
        );
    }
    assert_eq!(peers.len(), 1);
    assert_eq!(
        state.after_preflight_poll(
            &mut peers,
            &addr(2),
            "x",
            Ok(PeerPoll::Idle { remote_tip: Height(2) }),
            10
        ),
        None
    );
}

fn mining_config() -> RunConfig {
    let mut config = RunConfig::new(&params());
    config.mine = true;
    config.mine_interval = 5;
    config.peers = vec![addr(1)];
    config
}

fn seen(now: u64) -> Seen {
    Seen { shutdown_file: false, pending_sync: false, local_height: 10, now }
}

#[test]
fn goes_its_round() {
    let config = mining_config();
    let mut peers = initial_peers(&config, &vec![name(1)], 0);
    let mut state = ServiceState::new(&config, 100_000);
    let answer = Ok(PeerPoll::Idle { remote_tip: Height(10) });
    state.after_preflight_poll(&mut peers, &addr(1), &name(1), answer, 0);
    let mut phase = Phase::Rested;
    let mut tasks = vec![];
    for now in [100_000, 106_000, 131_000] {
        loop {
            let task = state.next_task(phase, &config, &peers, &seen(now));
            phase = state.finish_task(task, &config, now);
            tasks.push(task);
            if task == Task::Rest {
                break;
            }
        }
    }
    let round = |middle: &[Task]| {
        let mut round = vec![
            Task::AcceptPeers,
            Task::SyncPeers,
            Task::RefreshGateway,
            Task::NoteActivity,
        ];
        round.extend_from_slice(middle);
        round.push(Task::Rest);
        round
    };
    let mut expected = round(&[]);
    expected.extend(round(&[Task::Mine]));
    expected.extend(round(&[Task::Mine, Task::TellStatus]));
    assert_eq!(tasks, expected);
    let mut last = seen(140_000);
    last.shutdown_file = true;
    assert_eq!(state.next_task(Phase::Rested, &config, &peers, &last), Task::ShutDown);
    assert_eq!(state.next_task(Phase::Accepted, &config, &peers, &last), Task::SyncPeers);
}

#[test]
fn a_gateway_is_refreshed_when_its_time_has_come() {
    let mut config = mining_config();
    config.gateway_url = Some("gate".to_string());
    let peers = table(&[], 0);
    let mut state = ServiceState::new(&config, 100_000);
    assert_eq!(state.last_gateway_heartbeat, 40_000);
    assert_eq!(
        state.next_task(Phase::Synced, &config, &peers, &seen(100_000)),
        Task::RefreshGateway
    );
    state.finish_task(Task::RefreshGateway, &config, 100_000);
    assert_eq!(
        state.next_task(Phase::Synced, &config, &peers, &seen(159_999)),
        Task::NoteActivity
    );
    assert_eq!(
        state.next_task(Phase::Synced, &config, &peers, &seen(160_000)),
        Task::RefreshGateway
    );
}

#[test]
fn waits_for_others_before_it_mines() {
    let config = mining_config();
    let mut peers = initial_peers(&config, &vec![name(1)], 0);
    let mut state = ServiceState::new(&config, 0);
    assert!(state.requires_peer_sync_before_mining);
    let task = |state: &ServiceState, peers: &PeerTable, seen: &Seen| {
        state.next_task(Phase::Noted, &config, peers, seen)
    };
    let mut view = seen(5_000);
    view.pending_sync = true;
    assert_eq!(task(&state, &peers, &view), Task::ReportWait(WaitReason::SyncPending));
    view.pending_sync = false;
    assert_eq!(task(&state, &peers, &view), Task::ReportWait(WaitReason::HandshakePending));
    let nobody = PeerTable::new();
    assert_eq!(task(&state, &nobody, &view), Task::ReportWait(WaitReason::HandshakePending));
    let answer = Ok(PeerPoll::Synced { remote_tip: Height(11) });
    state.after_poll(&mut peers, &addr(1), &name(1), answer, 0);
    assert_eq!(task(&state, &nobody, &view), Task::Mine);
    assert_eq!(task(&state, &peers, &view), Task::ReportWait(WaitReason::PeerAhead));
    view.local_height = 11;
    assert_eq!(task(&state, &peers, &view), Task::Mine);
    view.now = 4_999;
    assert_eq!(task(&state, &peers, &view), Task::Rest);
    assert_eq!(WaitReason::SyncPending.name(), "sync_pending");
    assert_eq!(WaitReason::HandshakePending.name(), "handshake_pending");
    assert_eq!(WaitReason::PeerAhead.name(), "peer_ahead");
    assert!(has_passed(1_000, 3_000, 2));
    assert!(!has_passed(1_000, 2_999, 2));
}

#[test]
fn notes_what_it_is_doing() {
    let calm = Surroundings {
        peer_count: 0,
        has_gateway: false,
        pending_sync: false,
        handshake_pending: false,
        peer_ahead: false,
        mining: false,
        mempool_len: 0,
    };
    assert_eq!(current_activity(&calm), NodeActivity::ServingPeers);
    let waiting = Surroundings { has_gateway: true, ..calm };
    assert_eq!(current_activity(&waiting), NodeActivity::WaitingForPeers);
    let connected = Surroundings { peer_count: 1, ..calm };
    assert_eq!(current_activity(&connected), NodeActivity::Syncing);
    let idle = Surroundings { mining: true, ..calm };
    assert_eq!(current_activity(&idle), NodeActivity::WaitingForTransactions);
    let busy = Surroundings { mempool_len: 1, ..idle };
    assert_eq!(current_activity(&busy), NodeActivity::Mining);
    let behind = Surroundings { peer_ahead: true, ..busy };
    assert_eq!(current_activity(&behind), NodeActivity::Syncing);

    let mut state = ServiceState::new(&mining_config(), 20_000);
    assert_eq!(state.last_activity_log, 5_000);
    state.log_activity(&busy, 20_000);
    assert_eq!(state.last_activity, NodeActivity::Mining);
    state.set_activity(NodeActivity::Mining, 25_000);
    assert_eq!(state.last_activity_log, 20_000);
    state.set_activity(NodeActivity::Mining, 35_000);
    assert_eq!(state.last_activity_log, 35_000);
    state.set_activity(NodeActivity::ServingPeers, 36_000);
    assert_eq!(state.last_activity_log, 36_000);
}

#[test]
fn checks_before_it_runs() {
    let mut config = mining_config();
    assert_eq!(
        preflight(&config, true, &Ok(1)),
        Err("shutdown file `./data/paqus/STOP` exists; remove it before starting the node".to_string())
    );
    assert_eq!(
        preflight(&config, false, &Err("hole".to_string())),
        Err("failed to calculate next difficulty: hole".to_string())
    );
    assert_eq!(
        preflight(&config, false, &Ok(1)),
        Err("mining requires --wallet or --miner-secret-key so the miner identity is explicit".to_string())
    );
    config.miner_secret_key = Some(vec![1, 2]);
    assert_eq!(preflight(&config, false, &Ok(1)), Ok(Some(vec![1, 2])));
    config.mine = false;
    assert_eq!(preflight(&config, false, &Ok(1)), Ok(None));
    assert_eq!(check_miner(&config, &Address([9; 20])), Ok(()));
    assert_eq!(
        check_miner(&config, &Address([8; 20])),
        Err(format!("miner secret key does not match miner address {}", "09".repeat(20)))
    );
}

#[test]
fn plans_what_to_ask_a_gateway() {
    let mut config = mining_config();
    assert_eq!(gateway_plan(&config, true, 0), None);
    config.gateway_url = Some("gate".to_string());
    config.max_peers = 40;
    let plan = gateway_plan(&config, true, 0).unwrap();
    assert!(plan.warns);
    assert_eq!(plan.ask, Some((32, Some(config.listen_addrs[0]))));
    config.public_addrs = vec![addr(7)];
    let plan = gateway_plan(&config, true, 35).unwrap();
    assert!(!plan.warns);
    assert_eq!(plan.announce, vec![addr(7)]);
    assert_eq!(plan.ask, Some((5, Some(addr(7)))));
    assert_eq!(gateway_plan(&config, false, 40).unwrap().ask, None);
}

#[test]
fn reports_on_a_broadcast() {
    assert_eq!(
        report_on(&vec![true, false, true]),
        BroadcastReport { attempted: 3, sent: 2, failed: 1 }
    );
    assert_eq!(report_on(&vec![]), BroadcastReport::default());
}

#[test]
fn polls_another_node() {
    let tip = TipInfo { height: Height(1), hash: Digest([1; 64]) };
    let (mut poll, first) = Poll::start(&params(), Some(tip));
    let version = VersionInfo { protocol_version: 1, tip: Some(tip) };
    assert_eq!(first, PollAction::Ask(NetworkMessage::Version(version)));
    let mut step = |event: PollEvent| poll.step(event, &params(), "10.0.0.1:5555", 1);
    assert_eq!(
        step(PollEvent::Answered(NetworkMessage::VerAck(version))),
        PollAction::Ask(NetworkMessage::GetTip)
    );
    let remote = TipInfo { height: Height(3), hash: Digest([3; 64]) };
    assert_eq!(
        step(PollEvent::Answered(NetworkMessage::Tip(remote))),
        PollAction::Ask(NetworkMessage::GetBlockByHeight { height: Height(2) })
    );
    assert_eq!(
        step(PollEvent::Answered(NetworkMessage::Block(vec![2]))),
        PollAction::TakeBlock { height: 2, bytes: vec![2] }
    );
    assert_eq!(
        step(PollEvent::Block(Taken::Stored)),
        PollAction::Ask(NetworkMessage::GetBlockByHeight { height: Height(3) })
    );
    assert_eq!(
        step(PollEvent::Answered(NetworkMessage::Block(vec![3]))),
        PollAction::TakeBlock { height: 3, bytes: vec![3] }
    );
    assert_eq!(
        step(PollEvent::Block(Taken::Stored)),
        PollAction::Done(Ok(PeerPoll::Synced { remote_tip: Height(3) }))
    );
}

fn failed(words: &str) -> PollAction {
    PollAction::Done(Err(words.to_string()))
}

#[test]
fn a_poll_ends_with_its_first_failure() {
    let good = VersionInfo { protocol_version: 1, tip: None };
    let tip = TipInfo { height: Height(9), hash: Digest([3; 64]) };
    let start = || Poll::start(&params(), None).0;
    let step = |poll: &mut Poll, event: PollEvent| poll.step(event, &params(), "p", 1);
    assert_eq!(
        step(&mut start(), PollEvent::Unreachable("connect failed: no".to_string())),
        failed("connect failed: no")
    );
    assert_eq!(
        step(
            &mut start(),
            PollEvent::Answered(NetworkMessage::Reject {
                reason: RejectReason::ProtocolVersionMismatch,
                message: "old".to_string()
            })
        ),
        failed("peer rejected handshake: ProtocolVersionMismatch: old")
    );
    let mut poll = start();
    step(&mut poll, PollEvent::Answered(NetworkMessage::VerAck(good)));
    assert_eq!(
        step(&mut poll, PollEvent::Answered(NetworkMessage::GetTip)),
        failed("peer returned unexpected tip response")
    );
    let mut poll = start();
    step(&mut poll, PollEvent::Answered(NetworkMessage::VerAck(good)));
    assert_eq!(
        step(
            &mut poll,
            PollEvent::Answered(NetworkMessage::Tip(TipInfo { height: Height(1), hash: tip.hash }))
        ),
        PollAction::Done(Ok(PeerPoll::Idle { remote_tip: Height(1) }))
    );
    let mut poll = start();
    step(&mut poll, PollEvent::Answered(NetworkMessage::VerAck(good)));
    step(&mut poll, PollEvent::Answered(NetworkMessage::Tip(tip)));
    assert_eq!(
        step(&mut poll, PollEvent::Answered(NetworkMessage::GetTip)),
        failed("peer did not return block at height 2")
    );
    let mut poll = start();
    step(&mut poll, PollEvent::Answered(NetworkMessage::VerAck(good)));
    step(&mut poll, PollEvent::Answered(NetworkMessage::Tip(tip)));
    step(&mut poll, PollEvent::Answered(NetworkMessage::Block(vec![])));
    assert_eq!(
        step(&mut poll, PollEvent::Block(Taken::Refused("bad".to_string()))),
        failed("failed to apply block 2 from p: bad")
    );
    let mut poll = start();
    step(&mut poll, PollEvent::Answered(NetworkMessage::VerAck(good)));
    step(&mut poll, PollEvent::Answered(NetworkMessage::Tip(tip)));
    step(&mut poll, PollEvent::Answered(NetworkMessage::Block(vec![])));
    assert_eq!(
        step(&mut poll, PollEvent::Block(Taken::NotFlushed("full".to_string()))),
        failed("failed to flush synced block: full")
    );
}
