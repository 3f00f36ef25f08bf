use paqus_node::answers::{
    rpc_accounts, rpc_address, rpc_balance, rpc_block_by_hash, rpc_block_by_height,
    rpc_latest_blocks, rpc_mempool, rpc_peers, rpc_status, rpc_submit_tx, rpc_tx, Reply,
    SubmitFailure,
};
use paqus_node::chain_storage::{
    loaded, save_account, save_block, save_transaction, Put, Table, TxLocation,
};
use paqus_node::ledger::{AccountMap, Ledger};
use paqus_node::mempool::MempoolError;
use paqus_node::node::{Node, NodeError};
use paqus_node::ordered_map::OrderedMap;
use paqus_node::params::{ChainParams, BASE_FEE};
use paqus_node::peers::{PeerState, PeerTable, SocketAddress};
use paqus_node::rpc::{
    balance_json, block_response, block_response_at, find_transaction, is_showable, tx_response,
};
use paqus_node::storage::Storage;
use paqus_node::types::{
    Account, Address, Amount, Block, BlockData, Coinbase, Digest, GenesisAllocation, Height,
    Nonce, SignedTransaction, Transaction,
};
use std::collections::HashMap;
use std::sync::Arc;

fn params() -> ChainParams {
    ChainParams {
        protocol_version: 3,
        network_magic: [1, 2, 3, 4],
        block_time: 60,
        difficulty_start: 1,
        difficulty_adjustment_interval: 10,
        confirmation_depth: 1,
        max_block_txs: 100,
        secret_key_size: 32,
    }
}

fn address(byte: u8) -> Address {
    Address([byte; 20])
}

fn digest(byte: u8) -> Digest {
    Digest([byte; 64])
}

fn signed(hash: u8, from: u8, to: u8, amount: u32, nonce: u64) -> SignedTransaction {
    SignedTransaction {
        transaction: Transaction {
            from: address(from),
            to: address(to),
            amount: Amount(amount),
            fee: Amount(BASE_FEE),
            nonce: Nonce(nonce),
            timestamp: 1_700_000_000,
        },
        hash: digest(hash),
        size: 7_300,
        signed: Ok(()),
    }
}

fn block(height: u64, timestamp: u64, transactions: Vec<SignedTransaction>) -> Block {
    Block::new(BlockData {
        height: Height(height),
        previous_hash: digest(100 + height as u8 - if height == 0 { 0 } else { 1 }),
        merkle_root: digest(1),
        state_root: digest(2),
        miner_address: address(9),
        difficulty: 4,
        timestamp,
        nonce: Nonce(77),
        hash: digest(100 + height as u8),
        size: 500,
        genesis: height == 0,
        coinbase: if height == 0 {
            None
        } else {
            Some(Coinbase {
                to: address(9),
                subsidy: Amount(50),
                fees: Amount(2),
                total: Amount(52),
            })
        },
        genesis_allocations: if height == 0 {
            vec![GenesisAllocation { to: address(1), amount: Amount(100) }]
        } else {
            vec![]
        },
        transactions,
    })
}

fn node_of(blocks: Vec<Block>) -> Node {
    let mut accounts: AccountMap = OrderedMap::new();
    let mut first = Account::new(address(1), Amount(100));
    first.available = Amount(90);
    first.unspendable = Amount(10);
    first.nonce = Nonce(1);
    accounts.insert(address(1), first);
    accounts.insert(address(2), Account::new(address(2), Amount(10)));
    let mut chain: OrderedMap<Height, Block> = OrderedMap::new();
    for block in blocks {
        chain.insert(block.height(), block);
    }
    let ledger = Ledger { accounts: Arc::new(accounts), blocks: chain, state_root: digest(2) };
    let mut storage = Storage::temporary().unwrap();
    storage.save_ledger(&ledger).unwrap();
    Node::new(ledger, storage, None, 0, params())
}

fn node() -> Node {
    node_of(vec![
        block(0, 1_700_000_000, vec![]),
        block(1, 1_700_000_045, vec![signed(51, 1, 2, 10, 0)]),
    ])
}

fn digits(byte: u8, count: usize) -> String {
    format!("{byte:02x}").repeat(count)
}

#[test]
fn shows_a_block() {
    let node = node();
    let block = node.storage.load_block_by_height(Height(1)).unwrap().unwrap();
    assert!(is_showable(&node, &block));
    let shown = block_response_at(&node, &block, None, Some(1_700_000_100));
    assert_eq!(shown.height, 1);
    assert_eq!(shown.hash, digits(101, 64));
    assert_eq!(shown.short_hash, "65656565..65656565");
    assert_eq!(shown.previous_hash, digits(100, 64));
    assert_eq!(shown.merkle_root, digits(1, 64));
    assert_eq!(shown.state_root, digits(2, 64));
    assert_eq!(shown.miner_address, digits(9, 20));
    assert_eq!(shown.difficulty, 4);
    assert_eq!(shown.age_secs, 55);
    assert_eq!(shown.confirmations, 1);
    assert_eq!(shown.block_time_secs, Some(45));
    assert_eq!(shown.target_block_time_secs, 60);
    assert_eq!(shown.block_time_delta_secs, Some(-15));
    assert_eq!(shown.value_moved, 10);
    assert_eq!(shown.nonce, 77);
    assert_eq!(shown.tx_count, 1);
    assert_eq!(shown.size, 500);
    assert_eq!(shown.coinbase.as_ref().unwrap().total, 52);
    assert!(shown.genesis_allocations.is_empty());
    assert_eq!(shown.transactions.len(), 1);
    assert_eq!(shown.transactions[0].status, "confirmed");
    assert_eq!(shown.transactions[0].block_height, Some(1));

    let first = node.storage.load_block_by_height(Height(0)).unwrap().unwrap();
    let shown = block_response_at(&node, &first, Some("old"), None);
    assert_eq!(shown.age_secs, 0);
    assert_eq!(shown.confirmations, 2);
    assert_eq!(shown.block_time_secs, None);
    assert_eq!(shown.block_time_delta_secs, None);
    assert_eq!(shown.genesis_allocations[0].amount, 100);
    assert!(block_response(&node, &first, None).age_secs > 0);
}

#[test]
fn a_block_that_moves_too_much_is_not_shown() {
    let node = node();
    let heavy = block(
        2,
        1_700_000_050,
        vec![signed(52, 1, 2, u32::MAX, 1), signed(53, 1, 2, 1, 2)],
    );
    assert!(!is_showable(&node, &heavy));
}

#[test]
fn shows_a_transaction() {
    let shown = tx_response(&signed(51, 1, 2, 10, 7), None, Some(digest(3)), "pending");
    assert_eq!(shown.hash, digits(51, 64));
    assert_eq!(shown.from, digits(1, 20));
    assert_eq!(shown.to, digits(2, 20));
    assert_eq!((shown.amount, shown.fee, shown.nonce), (10, 2, 7));
    assert_eq!(shown.block_height, None);
    assert_eq!(shown.block_hash, Some(digits(3, 64)));
    assert_eq!(shown.status, "pending");
}

fn pending_node() -> Node {
    let mut node = node();
    let mut waiting = signed(60, 1, 2, 5, 1);
    waiting.transaction.timestamp = 1_700_000_100;
    node.submit_transaction_at(waiting, 1_700_000_100).unwrap();
    node
}

#[test]
fn finds_transactions() {
    let node = pending_node();
    let pending = find_transaction(&node, &digest(60)).unwrap().unwrap();
    assert_eq!(pending.status, "pending");
    let confirmed = find_transaction(&node, &digest(51)).unwrap().unwrap();
    assert_eq!(confirmed.status, "confirmed");
    assert_eq!(confirmed.block_hash, Some(digits(101, 64)));
    assert_eq!(find_transaction(&node, &digest(99)), Ok(None));
    assert!(matches!(rpc_tx(&node, &digits(60, 64)), Reply::Given(_)));
    assert_eq!(rpc_tx(&node, &digits(99, 64)), Reply::NotFound("transaction_not_found"));
    assert_eq!(rpc_tx(&node, "0"), Reply::BadRequest("invalid hash hex".to_string()));
}

#[test]
fn lists_the_transactions_of_an_address_from_the_latest_on() {
    let node = pending_node();
    match rpc_address(&node, &digits(2, 20)) {
        Reply::Given(response) => {
            assert_eq!(response.address, digits(2, 20));
            assert_eq!(response.balance, balance_json(&node, &address(2)));
            let hashes: Vec<String> =
                response.transactions.iter().map(|t| t.hash.clone()).collect();
            assert_eq!(hashes, vec![digits(60, 64), digits(51, 64)]);
        }
        other => panic!("unexpected reply {other:?}"),
    }
    assert_eq!(
        rpc_address(&node, "00"),
        Reply::BadRequest("address has invalid length".to_string())
    );
    match rpc_address(&node, &digits(200, 20)) {
        Reply::Given(response) => assert!(response.transactions.is_empty()),
        other => panic!("unexpected reply {other:?}"),
    }
}

#[test]
fn tells_balances() {
    let node = pending_node();
    assert_eq!(
        rpc_balance(&node, &digits(1, 20)),
        Reply::Given(format!(
            "{{\"address\":\"{}\",\"height\":1,\"exists\":true,\"confirmed\":100,\"available\":90,\"pending_incoming\":0,\"pending_outgoing\":7,\"nonce\":1,\"unspendable\":10}}",
            digits(1, 20)
        ))
    );
    assert_eq!(
        rpc_balance(&node, &digits(200, 20)),
        Reply::Given(format!(
            "{{\"address\":\"{}\",\"height\":1,\"exists\":false,\"confirmed\":0,\"available\":0,\"pending_incoming\":0,\"pending_outgoing\":0,\"nonce\":null,\"unspendable\":0}}",
            digits(200, 20)
        ))
    );
    assert_eq!(rpc_balance(&node, "zz"), Reply::BadRequest("invalid address hex".to_string()));
}

#[test]
fn gives_blocks() {
    let node = node();
    assert!(matches!(rpc_block_by_height(&node, 1), Reply::Given(_)));
    assert_eq!(rpc_block_by_height(&node, 7), Reply::NotFound("block_not_found"));
    assert!(matches!(rpc_block_by_hash(&node, &digits(101, 64)), Reply::Given(_)));
    assert_eq!(
        rpc_block_by_hash(&node, &digits(77, 64)),
        Reply::NotFound("block_not_found")
    );
    assert_eq!(rpc_block_by_hash(&node, "x"), Reply::BadRequest("invalid hash hex".to_string()));

    let blocks: Vec<Block> = (0..13).map(|height| block(height, 1_700_000_000, vec![])).collect();
    let long = node_of(blocks);
    match rpc_latest_blocks(&long) {
        Reply::Given(blocks) => {
            let heights: Vec<u64> = blocks.iter().map(|block| block.height().0).collect();
            assert_eq!(heights, vec![12, 11, 10, 9, 8, 7, 6, 5, 4, 3]);
        }
        other => panic!("unexpected reply {other:?}"),
    }
    let mut broken = node;
    broken.storage.tables.blocks_by_height.insert(Height(0), Err("Invalid bool".to_string()));
    assert!(matches!(rpc_latest_blocks(&broken), Reply::Failed(_)));
    match rpc_block_by_height(&broken, 0) {
        Reply::Failed(words) => {
            assert_eq!(words, "failed to load block: storage serialization error: Invalid bool")
        }
        other => panic!("unexpected reply {other:?}"),
    }
}

#[test]
fn shows_accounts_pool_and_peers() {
    let node = pending_node();
    let accounts = rpc_accounts(&node);
    assert_eq!(accounts.len(), 2);
    assert_eq!(accounts[0].address, digits(1, 20));
    assert_eq!(accounts[0].pending_outgoing, 7);
    assert_eq!(accounts[1].pending_incoming, 5);
    let pool = rpc_mempool(&node);
    assert_eq!(pool.len(), 1);
    assert_eq!(pool[0].status, "pending");

    let mut peers = PeerTable::new();
    let addr = SocketAddress { v6: false, octets: [1; 16], port: 5, flow: 0, scope: 0 };
    peers.insert(PeerState::new(addr, "1.1.1.1:5".to_string(), 0));
    peers.mark_ok(&addr, Height(8), 0);
    let shown = rpc_peers(&peers);
    assert_eq!(shown[0].addr, "1.1.1.1:5");
    assert_eq!(shown[0].last_tip, Some(8));
    let status = rpc_status(&node, &peers, true);
    assert_eq!(status.height, 1);
    assert_eq!(status.protocol_version, 3);
    assert_eq!(status.tip_hash, digits(101, 64));
    assert_eq!(status.peers, 1);
    assert!(status.mining);
}

#[test]
fn takes_transactions_that_are_handed_in() {
    let mut node = node();
    let mut t = signed(60, 1, 2, 5, 1);
    t.transaction.timestamp = 1_700_000_100;
    assert_eq!(rpc_submit_tx(&mut node, t, 1_700_000_100), Ok(digits(60, 64)));
    let again = rpc_submit_tx(&mut node, t, 1_700_000_100).unwrap_err();
    assert_eq!(
        again,
        SubmitFailure::Refused(NodeError::Mempool(MempoolError::ReplacementFeeTooLow))
    );
    assert!(again.is_bad_request());
    assert_eq!(
        again.message(""),
        "failed to submit transaction: mempool error: replacement fee is too low"
    );
}

fn written(puts: Vec<Put>) -> HashMap<(u8, Vec<u8>), Vec<u8>> {
    let mut rows = HashMap::new();
    for put in puts {
        let table = match put.table {
            Table::BlocksByHeight => 0,
            Table::BlocksByHash => 1,
            Table::Txs => 2,
            Table::TxIndex => 3,
            Table::Accounts => 4,
            Table::Meta => 5,
        };
        rows.insert((table, put.key), put.value);
    }
    rows
}

#[test]
fn a_saved_block_is_stored_in_its_rows() {
    let block = block(1, 1_700_000_045, vec![signed(51, 1, 2, 10, 0)]);
    let rows = written(save_block(&block, vec![7, 7], &vec![vec![5]]));
    let height = 1_u64.to_be_bytes().to_vec();
    assert_eq!(rows[&(0, height.clone())], vec![7, 7]);
    assert_eq!(rows[&(1, vec![101; 64])], vec![7, 7]);
    assert_eq!(rows[&(5, b"tip_height".to_vec())], height);
    assert_eq!(rows[&(5, b"tip_hash".to_vec())], vec![101; 64]);
    assert_eq!(rows[&(2, vec![51; 64])], vec![5]);
    let location = TxLocation { height: Height(1), block_hash: digest(101) };
    let expected = borsh::to_vec(&(1_u64, [101u8; 64])).unwrap();
    assert_eq!(rows[&(3, vec![51; 64])], expected);
    assert_eq!(location.to_bytes(), expected);
    assert_eq!(TxLocation::from_bytes(&expected), Some(location));
    assert_eq!(TxLocation::from_bytes(&expected[1..]), None);
    assert_eq!(rows.len(), 6);
}

#[test]
fn a_transaction_without_a_block_has_no_place() {
    let t = signed(51, 1, 2, 10, 0);
    let rows = written(save_transaction(&t, vec![5], Some(Height(1)), None));
    assert_eq!(rows.len(), 1);
    let account = Account::new(address(3), Amount(4));
    let put = save_account(&account, vec![6]);
    assert_eq!(put, Put { table: Table::Accounts, key: vec![3; 20], value: vec![6] });
    assert_eq!(loaded::<u8>(None, "invalid block bytes: "), Ok(None));
    assert_eq!(loaded(Some(Ok(3)), "invalid block bytes: "), Ok(Some(3)));
    assert_eq!(
        loaded::<u8>(Some(Err("short".to_string())), "invalid block bytes: "),
        Err("invalid block bytes: short".to_string())
    );
}
