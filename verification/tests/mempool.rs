use paqus_node::clock::current_unix_timestamp;
use paqus_node::ledger::Ledger;
use paqus_node::mempool::{Mempool, MempoolConfig, MempoolError};
use paqus_node::miner::{
    after_attempt, exhausted_reason, finish_search, start_search, total_amounts, total_fees,
    Candidate, MiningConfig, MiningResult, MiningSkip, MiningStep,
};
use paqus_node::node::{Node, NodeError};
use paqus_node::ordered_map::OrderedMap;
use paqus_node::params::{
    ChainParams, BASE_FEE, DEFAULT_MARKET_FEE, DEFAULT_MIN_RELAY_FEE, LOW_FEE_EXPIRY_SECS,
    MAX_MEMPOOL_BYTES, MAX_MEMPOOL_TXS, MAX_RELAY_TRANSACTION_AGE_SECS, MEMPOOL_EXPIRY_SECS,
};
use paqus_node::storage::Storage;
use paqus_node::types::{
    Account, Address, Amount, Block, BlockData, Digest, Height, LedgerError, Nonce,
    SignedTransaction, StateError, Transaction, TransactionError,
};
use std::sync::Arc;

const SLOW_FEE: u32 = 1;
const FAST_FEE: u32 = 3;
const AGGRESSIVE_FEE: u32 = 5;

fn params() -> ChainParams {
    ChainParams {
        protocol_version: 1,
        network_magic: [1, 2, 3, 4],
        block_time: 60,
        difficulty_start: 1,
        difficulty_adjustment_interval: 10,
        confirmation_depth: 1,
        max_block_txs: 100,
        secret_key_size: 32,
    }
}

fn address(byte: u8) -> Address {
    Address([byte; 20])
}

fn transaction_hash(t: &Transaction) -> Digest {
    let mut bytes = [0u8; 64];
    bytes[0] = t.from.0[0];
    bytes[1] = t.to.0[0];
    bytes[2..6].copy_from_slice(&t.amount.0.to_be_bytes());
    bytes[6..10].copy_from_slice(&t.fee.0.to_be_bytes());
    bytes[10..18].copy_from_slice(&t.nonce.0.to_be_bytes());
    bytes[18..26].copy_from_slice(&t.timestamp.to_be_bytes());
    Digest(bytes)
}

fn signed(t: Transaction) -> SignedTransaction {
    SignedTransaction { hash: transaction_hash(&t), transaction: t, size: 7_300, signed: Ok(()) }
}

fn signed_transaction(nonce: u64) -> SignedTransaction {
    signed_transaction_at(nonce, current_unix_timestamp())
}

fn signed_transaction_at(nonce: u64, timestamp: u64) -> SignedTransaction {
    signed(Transaction {
        from: address(100 + nonce as u8),
        to: address(2),
        amount: Amount(10),
        fee: Amount(BASE_FEE),
        nonce: Nonce(nonce),
        timestamp,
    })
}

fn signed_transaction_from(from: Address, to: Address, amount: u32, nonce: u64) -> SignedTransaction {
    signed_transaction_from_with_fee(from, to, amount, BASE_FEE, nonce)
}

fn signed_transaction_from_with_fee(
    from: Address,
    to: Address,
    amount: u32,
    fee: u32,
    nonce: u64,
) -> SignedTransaction {
    signed(Transaction {
        from,
        to,
        amount: Amount(amount),
        fee: Amount(fee),
        nonce: Nonce(nonce),
        timestamp: current_unix_timestamp(),
    })
}

fn ledger_with(accounts: Vec<Account>) -> Ledger {
    let mut map: OrderedMap<Address, Account> = OrderedMap::new();
    for account in accounts {
        map.insert(account.address, account);
    }
    Ledger { accounts: Arc::new(map), blocks: OrderedMap::new(), state_root: Digest([0; 64]) }
}

fn ledger_with_accounts(from: Address, to: Address, balance: u32) -> Ledger {
    ledger_with(vec![Account::new(from, Amount(balance)), Account::new(to, Amount(0))])
}

fn block(height: u64, previous_hash: Digest, transactions: Vec<SignedTransaction>) -> Block {
    Block::new(BlockData {
        height: Height(height),
        previous_hash,
        merkle_root: Digest([0; 64]),
        state_root: Digest([0; 64]),
        miner_address: address(9),
        difficulty: 1,
        timestamp: 1_700_000_000,
        nonce: Nonce(0),
        hash: Digest([height as u8 + 50; 64]),
        size: 500,
        genesis: height == 0,
        coinbase: None,
        genesis_allocations: vec![],
        transactions,
    })
}

#[test]
fn inserts_valid_signed_transaction() {
    let mut mempool = Mempool::new(params());
    let transaction = signed_transaction(0);
    let hash = transaction.hash();

    assert_eq!(mempool.insert(transaction), Ok(hash));
    assert!(mempool.contains(&hash));
    assert_eq!(mempool.len(), 1);
}

#[test]
fn uses_default_transaction_limit() {
    let mempool = Mempool::new(params());

    assert_eq!(
        mempool.config(),
        MempoolConfig {
            max_transactions: MAX_MEMPOOL_TXS,
            max_bytes: MAX_MEMPOOL_BYTES,
            transaction_ttl_secs: MEMPOOL_EXPIRY_SECS,
            low_fee_ttl_secs: LOW_FEE_EXPIRY_SECS,
            min_relay_fee: DEFAULT_MIN_RELAY_FEE,
            market_fee: DEFAULT_MARKET_FEE,
        }
    );
}

#[test]
fn rejects_transaction_below_configured_min_relay_fee() {
    let mut mempool = Mempool::with_config(
        MempoolConfig { min_relay_fee: BASE_FEE + 1, ..MempoolConfig::default() },
        params(),
    );
    let transaction = signed_transaction(0);

    assert_eq!(mempool.insert(transaction), Err(MempoolError::FeeTooLow));
}

#[test]
fn rejects_zero_fee_even_when_configured_min_relay_fee_is_zero() {
    let transaction = signed_transaction_from_with_fee(address(1), address(2), 10, 0, 0);
    let mut mempool = Mempool::with_config(
        MempoolConfig { min_relay_fee: 0, ..MempoolConfig::default() },
        params(),
    );

    assert_eq!(mempool.insert(transaction), Err(MempoolError::FeeTooLow));
}

#[test]
fn rejects_transaction_when_mempool_is_full() {
    let mut mempool = Mempool::with_config(
        MempoolConfig {
            max_transactions: 1,
            max_bytes: MAX_MEMPOOL_BYTES,
            transaction_ttl_secs: MEMPOOL_EXPIRY_SECS,
            ..MempoolConfig::default()
        },
        params(),
    );
    let first = signed_transaction(0);
    let second = signed_transaction(1);

    assert_eq!(mempool.insert(first.clone()), Ok(first.hash()));
    assert_eq!(mempool.insert(first), Err(MempoolError::DuplicateTransaction));
    assert_eq!(mempool.insert(second), Err(MempoolError::MempoolFull));
}

#[test]
fn rejects_transaction_when_mempool_byte_limit_is_full() {
    let transaction = signed_transaction(0);
    let mut mempool = Mempool::with_config(
        MempoolConfig {
            max_transactions: 10,
            max_bytes: transaction.serialized_size().saturating_sub(1),
            transaction_ttl_secs: MEMPOOL_EXPIRY_SECS,
            ..MempoolConfig::default()
        },
        params(),
    );

    assert_eq!(mempool.insert(transaction), Err(MempoolError::MempoolFull));
}

#[test]
fn replaces_same_sender_nonce_when_fee_is_higher() {
    let from = address(1);
    let to = address(2);
    let ledger = ledger_with_accounts(from, to, 100);
    let original = signed_transaction_from_with_fee(from, to, 10, 2, 0);
    let replacement = signed_transaction_from_with_fee(from, to, 10, 3, 0);
    let original_hash = original.hash();
    let replacement_hash = replacement.hash();
    let mut mempool = Mempool::new(params());

    assert_eq!(mempool.insert_validated(&ledger, original), Ok(original_hash));
    assert_eq!(mempool.insert_validated(&ledger, replacement), Ok(replacement_hash));
    assert!(!mempool.contains(&original_hash));
    assert!(mempool.contains(&replacement_hash));
    assert_eq!(mempool.len(), 1);
}

#[test]
fn rejects_same_sender_nonce_replacement_when_fee_is_not_higher() {
    let from = address(1);
    let to = address(2);
    let ledger = ledger_with_accounts(from, to, 100);
    let original = signed_transaction_from_with_fee(from, to, 10, 3, 0);
    let replacement = signed_transaction_from_with_fee(from, to, 10, 2, 0);
    let mut mempool = Mempool::new(params());

    mempool.insert_validated(&ledger, original).unwrap();
    assert_eq!(
        mempool.insert_validated(&ledger, replacement),
        Err(MempoolError::ReplacementFeeTooLow)
    );
}

#[test]
fn rejects_duplicate_transaction() {
    let mut mempool = Mempool::new(params());
    let transaction = signed_transaction(0);

    assert_eq!(mempool.insert(transaction.clone()), Ok(transaction.hash()));
    assert_eq!(mempool.insert(transaction), Err(MempoolError::DuplicateTransaction));
}

#[test]
fn prunes_expired_transactions() {
    let mut mempool = Mempool::new(params());
    let expired = signed_transaction_at(0, 1_000);
    let fresh = signed_transaction_at(1, 1_000 + MEMPOOL_EXPIRY_SECS);
    let expired_hash = expired.hash();
    let fresh_hash = fresh.hash();

    mempool.insert_at(expired, 1_000).unwrap();
    mempool.insert_at(fresh, 1_000 + MEMPOOL_EXPIRY_SECS).unwrap();

    assert_eq!(mempool.prune_expired(1_000 + MEMPOOL_EXPIRY_SECS + 1), 1);
    assert!(!mempool.contains(&expired_hash));
    assert!(mempool.contains(&fresh_hash));
}

#[test]
fn prunes_low_fee_transactions_after_low_fee_expiry() {
    let low_fee = signed(Transaction {
        from: address(1),
        to: address(2),
        amount: Amount(10),
        fee: Amount(1),
        nonce: Nonce(0),
        timestamp: 1_000,
    });
    let low_fee_hash = low_fee.hash();
    let mut mempool = Mempool::with_config(
        MempoolConfig {
            min_relay_fee: 1,
            market_fee: 5,
            low_fee_ttl_secs: LOW_FEE_EXPIRY_SECS,
            transaction_ttl_secs: MEMPOOL_EXPIRY_SECS,
            ..MempoolConfig::default()
        },
        params(),
    );

    mempool.insert_at(low_fee, 1_000).unwrap();

    assert_eq!(mempool.prune_expired(1_000 + LOW_FEE_EXPIRY_SECS + 1), 1);
    assert!(!mempool.contains(&low_fee_hash));
}

#[test]
fn keeps_market_fee_transactions_until_full_mempool_expiry() {
    let transaction = signed_transaction_at(0, 1_000);
    let hash = transaction.hash();
    let mut mempool = Mempool::with_config(
        MempoolConfig {
            market_fee: BASE_FEE,
            low_fee_ttl_secs: LOW_FEE_EXPIRY_SECS,
            transaction_ttl_secs: MEMPOOL_EXPIRY_SECS,
            ..MempoolConfig::default()
        },
        params(),
    );

    mempool.insert_at(transaction, 1_000).unwrap();

    assert_eq!(mempool.prune_expired(1_000 + LOW_FEE_EXPIRY_SECS + 1), 0);
    assert!(mempool.contains(&hash));
    assert_eq!(mempool.prune_expired(1_000 + MEMPOOL_EXPIRY_SECS + 1), 1);
    assert!(!mempool.contains(&hash));
}

#[test]
fn insert_prunes_expired_transactions_before_capacity_check() {
    let mut mempool = Mempool::with_config(
        MempoolConfig {
            max_transactions: 1,
            max_bytes: MAX_MEMPOOL_BYTES,
            transaction_ttl_secs: MEMPOOL_EXPIRY_SECS,
            ..MempoolConfig::default()
        },
        params(),
    );
    let expired = signed_transaction_at(0, 1_000);
    let replacement = signed_transaction_at(1, 1_000 + MEMPOOL_EXPIRY_SECS + 1);
    let replacement_hash = replacement.hash();

    mempool.insert_at(expired, 1_000).unwrap();

    assert_eq!(
        mempool.insert_at(replacement, 1_000 + MEMPOOL_EXPIRY_SECS + 1),
        Ok(replacement_hash)
    );
    assert_eq!(mempool.len(), 1);
    assert!(mempool.contains(&replacement_hash));
}

#[test]
fn rejects_transaction_with_expired_timestamp() {
    let mut mempool = Mempool::new(params());
    let transaction = signed_transaction_at(0, 1_000);

    assert_eq!(
        mempool.insert_at(transaction, 1_000 + MAX_RELAY_TRANSACTION_AGE_SECS + 1),
        Err(MempoolError::InvalidTransaction(TransactionError::Expired))
    );
}

#[test]
fn rejects_transaction_from_too_far_in_future() {
    let mut mempool = Mempool::new(params());
    let transaction =
        signed_transaction_at(0, 1_000 + params().max_relay_transaction_future_secs() + 1);

    assert_eq!(
        mempool.insert_at(transaction, 1_000),
        Err(MempoolError::InvalidTransaction(TransactionError::FromFuture))
    );
}

#[test]
fn admits_times_up_to_the_limits() {
    let mut mempool = Mempool::new(params());
    let oldest = signed_transaction_at(0, 1_000);
    let newest = signed_transaction_at(
        1,
        1_000 + MAX_RELAY_TRANSACTION_AGE_SECS + params().max_relay_transaction_future_secs(),
    );

    assert!(mempool.insert_at(oldest, 1_000 + MAX_RELAY_TRANSACTION_AGE_SECS).is_ok());
    assert!(mempool.insert_at(newest, 1_000 + MAX_RELAY_TRANSACTION_AGE_SECS).is_ok());
}

#[test]
fn rejects_invalid_signed_transaction() {
    let mut mempool = Mempool::new(params());
    let mut transaction = signed_transaction(0);
    transaction.transaction.from = address(9);
    transaction.signed = Err(TransactionError::SenderAddressMismatch);

    assert_eq!(
        mempool.insert(transaction),
        Err(MempoolError::InvalidTransaction(TransactionError::SenderAddressMismatch))
    );
}

#[test]
fn inserts_transaction_validated_against_ledger_state() {
    let from = address(1);
    let to = address(2);
    let ledger = ledger_with_accounts(from, to, 25);
    let transaction = signed_transaction_from(from, to, 10, 0);
    let hash = transaction.hash();
    let mut mempool = Mempool::new(params());

    assert_eq!(mempool.insert_validated(&ledger, transaction), Ok(hash));
    assert!(mempool.contains(&hash));
}

#[test]
fn rejects_transaction_when_ledger_account_is_missing() {
    let transaction = signed_transaction_from(address(1), address(2), 10, 0);
    let ledger = Ledger::new(Digest([0; 64]));
    let mut mempool = Mempool::new(params());

    assert_eq!(
        mempool.insert_validated(&ledger, transaction),
        Err(MempoolError::InvalidLedgerState(LedgerError::AccountNotFound))
    );
}

#[test]
fn rejects_transaction_with_invalid_ledger_nonce() {
    let from = address(1);
    let to = address(2);
    let ledger = ledger_with_accounts(from, to, 25);
    let transaction = signed_transaction_from(from, to, 10, 1);
    let mut mempool = Mempool::new(params());

    assert_eq!(
        mempool.insert_validated(&ledger, transaction),
        Err(MempoolError::InvalidLedgerState(LedgerError::InvalidState(StateError::InvalidNonce)))
    );
}

#[test]
fn accounts_for_pending_transactions_when_validating_ledger_state() {
    let from = address(1);
    let to = address(2);
    let ledger = ledger_with_accounts(from, to, 25);
    let first = signed_transaction_from(from, to, 10, 0);
    let second = signed_transaction_from(from, to, 10, 1);
    let too_expensive = signed_transaction_from(from, to, 10, 2);
    let mut mempool = Mempool::new(params());

    assert_eq!(mempool.insert_validated(&ledger, first.clone()), Ok(first.hash()));
    assert_eq!(mempool.insert_validated(&ledger, second.clone()), Ok(second.hash()));
    assert_eq!(
        mempool.insert_validated(&ledger, too_expensive),
        Err(MempoolError::InvalidLedgerState(LedgerError::InvalidState(
            StateError::InsufficientBalance
        )))
    );
}

#[test]
fn rejects_amounts_that_overflow() {
    let from = address(1);
    let to = address(2);
    let ledger = ledger_with_accounts(from, to, 25);
    let transaction = signed_transaction_from(from, to, u32::MAX, 0);
    let mut mempool = Mempool::new(params());

    assert_eq!(
        mempool.insert_validated(&ledger, transaction),
        Err(MempoolError::InvalidLedgerState(LedgerError::InvalidState(
            StateError::BalanceOverflow
        )))
    );
}

#[test]
fn selects_transactions_for_block() {
    let mut mempool = Mempool::new(params());
    let first = signed_transaction(0);
    let second = signed_transaction(1);
    let third = signed_transaction(2);

    mempool.insert(first).unwrap();
    mempool.insert(second).unwrap();
    mempool.insert(third).unwrap();

    assert_eq!(mempool.select_for_block(2).len(), 2);
    assert_eq!(mempool.select_for_block(10).len(), 3);
}

#[test]
fn selects_transactions_by_fee_without_breaking_sender_nonce_order() {
    let first_sender = address(11);
    let second_sender = address(12);
    let receiver = address(2);
    let mut mempool = Mempool::new(params());
    let first_slow = signed_transaction_from_with_fee(first_sender, receiver, 10, SLOW_FEE, 0);
    let first_aggressive =
        signed_transaction_from_with_fee(first_sender, receiver, 10, AGGRESSIVE_FEE, 1);
    let second_fast = signed_transaction_from_with_fee(second_sender, receiver, 10, FAST_FEE, 0);

    mempool.insert(first_aggressive).unwrap();
    mempool.insert(first_slow).unwrap();
    mempool.insert(second_fast).unwrap();

    let selected = mempool.select_for_block(3);

    assert_eq!(selected[0].transaction.from, second_sender);
    assert_eq!(selected[0].transaction.fee, Amount(FAST_FEE));
    assert_eq!(selected[1].transaction.from, first_sender);
    assert_eq!(selected[1].transaction.nonce, Nonce(0));
    assert_eq!(selected[2].transaction.from, first_sender);
    assert_eq!(selected[2].transaction.nonce, Nonce(1));
    assert_eq!(selected[2].transaction.fee, Amount(AGGRESSIVE_FEE));
}

#[test]
fn a_later_transaction_competes_once_the_earlier_ones_are_selected() {
    let first_sender = address(11);
    let second_sender = address(12);
    let receiver = address(2);
    let mut mempool = Mempool::new(params());
    for (sender, fee, nonce) in [
        (first_sender, AGGRESSIVE_FEE, 0),
        (first_sender, FAST_FEE, 1),
        (first_sender, SLOW_FEE, 2),
        (second_sender, SLOW_FEE + 1, 0),
    ] {
        let signed = signed_transaction_from_with_fee(sender, receiver, 10, fee, nonce);
        mempool.insert(signed).unwrap();
    }

    let fees: Vec<u32> =
        mempool.select_for_block(4).iter().map(|signed| signed.transaction.fee.0).collect();

    assert_eq!(fees, vec![AGGRESSIVE_FEE, FAST_FEE, SLOW_FEE + 1, SLOW_FEE]);
}

#[test]
fn removes_confirmed_transactions() {
    let mut mempool = Mempool::new(params());
    let confirmed = signed_transaction(0);
    let pending = signed_transaction(1);
    let confirmed_hash = confirmed.hash();
    let pending_hash = pending.hash();

    mempool.insert(confirmed.clone()).unwrap();
    mempool.insert(pending).unwrap();

    let block = block(1, Digest([0; 64]), vec![confirmed]);

    mempool.remove_confirmed(&block);

    assert!(!mempool.contains(&confirmed_hash));
    assert!(mempool.contains(&pending_hash));
    assert_eq!(mempool.len(), 1);
}

#[test]
fn creates_candidate_block_from_mempool_transactions() {
    let from = address(1);
    let to = address(2);
    let miner = address(9);
    let mut ledger = ledger_with(vec![
        Account::new(from, Amount(25)),
        Account::new(to, Amount(0)),
        Account::new(miner, Amount(0)),
    ]);
    ledger.blocks.insert(Height(0), block(0, Digest([0; 64]), vec![]));
    let mut mempool = Mempool::new(params());
    let transaction = signed_transaction_from(from, to, 10, 0);

    mempool.insert_validated(&ledger, transaction).unwrap();

    let candidate = mempool
        .create_candidate_block(&ledger, miner, 1_700_000_000, Nonce(0), 10, Ok(Amount(50)))
        .unwrap();

    assert_eq!(candidate.height, Height(1));
    assert_eq!(Some(candidate.previous_hash), ledger.tip_hash());
    assert_eq!(candidate.transactions.len(), 1);
    let prepared = candidate.prepare(Ok(Digest([7; 64])), 1).unwrap();
    assert_eq!(prepared.state_root, Some(Digest([7; 64])));
}

#[test]
fn candidate_block_caps_subsidy_to_remaining_mined_supply() {
    let from = address(1);
    let to = address(2);
    let miner = address(9);
    let mut ledger = ledger_with(vec![
        Account::new(from, Amount(u32::MAX - 50)),
        Account::new(to, Amount(0)),
        Account::new(miner, Amount(0)),
    ]);
    ledger.blocks.insert(Height(0), block(0, Digest([0; 64]), vec![]));
    let mut mempool = Mempool::new(params());
    mempool.insert_validated(&ledger, signed_transaction_from(from, to, 1, 0)).unwrap();

    let candidate = mempool
        .create_candidate_block(&ledger, miner, 1_700_000_001, Nonce(0), 10, Ok(Amount(50)))
        .unwrap();

    assert_eq!(candidate.coinbase.as_ref().unwrap().subsidy, Amount(50));
    assert_eq!(candidate.coinbase.as_ref().unwrap().fees, Amount(BASE_FEE));
    assert_eq!(candidate.coinbase.as_ref().unwrap().to, miner);
}

#[test]
fn candidate_needs_a_subsidy_unless_it_is_the_first() {
    let mempool = Mempool::new(params());
    let mut ledger = ledger_with(vec![]);

    let first = mempool
        .create_candidate_block(&ledger, address(9), 5, Nonce(0), 10, Err(LedgerError::Other(1)))
        .unwrap();
    assert_eq!(first.height, Height(0));
    assert!(first.coinbase.is_none());

    ledger.blocks.insert(Height(0), block(0, Digest([0; 64]), vec![]));
    assert_eq!(
        mempool.create_candidate_block(
            &ledger,
            address(9),
            5,
            Nonce(0),
            10,
            Err(LedgerError::Other(1))
        ),
        Err(LedgerError::Other(1))
    );
}

#[test]
fn rejects_transaction_spending_immature_mining_reward() {
    let miner = address(1);
    let to = address(2);
    let mut reward = Account::new(miner, Amount(52));
    reward.available = Amount(2);
    reward.unspendable = Amount(50);
    let ledger = ledger_with(vec![reward, Account::new(to, Amount(0))]);
    let transaction = signed_transaction_from(miner, to, 10, 0);
    let mut mempool = Mempool::new(params());

    assert_eq!(
        mempool.insert_validated(&ledger, transaction),
        Err(MempoolError::InvalidLedgerState(LedgerError::InvalidState(
            StateError::InsufficientBalance
        )))
    );
}

fn mine(candidate: Candidate, config: &MiningConfig, suffices: fn(u64) -> bool) -> Result<MiningResult, NodeError> {
    let mut step = start_search(config);
    while let MiningStep::Attempt(nonce) = step {
        step = after_attempt(config, nonce, suffices(nonce));
    }
    finish_search(candidate, step)
}

fn candidate_on(ledger: &Ledger, mempool: &Mempool, difficulty: u32) -> Candidate {
    mempool
        .create_candidate_block(ledger, address(9), 1_700_000_000, Nonce(0), 10, Ok(Amount(50)))
        .unwrap()
        .prepare(Ok(Digest([7; 64])), difficulty)
        .unwrap()
}

#[test]
fn mines_coinbase_only_candidate_without_user_transactions() {
    let mut ledger = ledger_with(vec![Account::new(address(9), Amount(0))]);
    ledger.blocks.insert(Height(0), block(0, Digest([0; 64]), vec![]));
    let mempool = Mempool::new(params());
    let config = MiningConfig { difficulty: 0, max_attempts: 1, transaction_limit: 10 };

    let result = mine(candidate_on(&ledger, &mempool, 0), &config, |_| false).unwrap();

    assert_eq!(result.block.transactions.len(), 0);
    assert!(result.block.coinbase.is_some());
}

#[test]
fn mines_candidate_block_until_pow_is_valid() {
    let sender = address(1);
    let receiver = address(2);
    let ledger = ledger_with(vec![
        Account::new(sender, Amount(100)),
        Account::new(receiver, Amount(0)),
        Account::new(address(9), Amount(0)),
    ]);
    let mut mempool = Mempool::new(params());
    mempool.insert_validated(&ledger, signed_transaction_from(sender, receiver, 10, 0)).unwrap();
    let config = MiningConfig { difficulty: 0, max_attempts: 1, transaction_limit: 10 };

    let result = mine(candidate_on(&ledger, &mempool, 0), &config, |_| false).unwrap();

    assert_eq!(result.attempts, 1);
    assert_eq!(result.block.difficulty, 0);
    assert_eq!(result.block.transactions.len(), 1);
}

#[test]
fn search_stops_at_the_first_nonce_that_suffices() {
    let mut ledger = ledger_with(vec![]);
    ledger.blocks.insert(Height(0), block(0, Digest([0; 64]), vec![]));
    let mempool = Mempool::new(params());
    let config = MiningConfig { difficulty: 4, max_attempts: 10, transaction_limit: 10 };

    let found = mine(candidate_on(&ledger, &mempool, 4), &config, |nonce| nonce >= 6).unwrap();
    assert_eq!(found.block.nonce, Nonce(6));
    assert_eq!(found.attempts, 7);

    let exhausted = mine(candidate_on(&ledger, &mempool, 4), &config, |nonce| nonce >= 10);
    assert_eq!(exhausted, Err(NodeError::MiningExhausted));
}

#[test]
fn an_unsuccessful_search_has_a_reason() {
    let ledger = ledger_with_accounts(address(1), address(2), 100);
    let mut node = Node::new(ledger, Storage::temporary().unwrap(), None, 0, params());

    assert_eq!(exhausted_reason(&node), MiningSkip::EmptyMempool);
    node.submit_transaction(signed_transaction_from(address(1), address(2), 10, 0)).unwrap();
    assert_eq!(exhausted_reason(&node), MiningSkip::ExhaustedAttempts);
}

#[test]
fn adds_up_fees_and_amounts() {
    let list = vec![
        signed_transaction_from_with_fee(address(1), address(2), 10, 3, 0),
        signed_transaction_from_with_fee(address(1), address(2), 20, 4, 1),
    ];
    assert_eq!(total_fees(&list), Some(Amount(7)));
    assert_eq!(total_amounts(&list), Some(Amount(30)));
    let large = vec![
        signed_transaction_from(address(1), address(2), u32::MAX, 0),
        signed_transaction_from(address(1), address(2), 1, 1),
    ];
    assert_eq!(total_amounts(&large), None);
}

#[test]
fn removing_takes_the_bytes_back() {
    let mut mempool = Mempool::new(params());
    let first = signed_transaction(0);
    let second = signed_transaction(1);
    mempool.insert(first).unwrap();
    mempool.insert(second).unwrap();
    assert_eq!(mempool.total_bytes(), 14_600);

    assert_eq!(mempool.remove(&first.hash()), Some(first));
    assert_eq!(mempool.remove(&first.hash()), None);
    assert_eq!(mempool.total_bytes(), 7_300);
    assert_eq!(mempool.get(&second.hash()), Some(second));
    assert_eq!(mempool.transactions(), vec![second]);

    mempool.clear();
    assert!(mempool.is_empty());
    assert_eq!(mempool.total_bytes(), 0);
}

#[test]
fn what_is_pending_after_an_acceptance_can_be_spent_in_turn() {
    let from = address(1);
    let to = address(2);
    let ledger = ledger_with_accounts(from, to, 100);
    let mut mempool = Mempool::new(params());
    for nonce in 0..3 {
        mempool.insert_validated(&ledger, signed_transaction_from(from, to, 10, nonce)).unwrap();
    }
    // The last may be replaced, one in the middle may not: the rest would not
    // follow any more.
    let last = signed_transaction_from_with_fee(from, to, 20, 5, 2);
    let middle = signed_transaction_from_with_fee(from, to, 20, 5, 1);
    assert_eq!(mempool.insert_validated(&ledger, last), Ok(last.hash()));
    assert_eq!(
        mempool.insert_validated(&ledger, middle),
        Err(MempoolError::InvalidLedgerState(LedgerError::InvalidState(StateError::InvalidNonce)))
    );
    assert_eq!(mempool.len(), 3);
    let next = signed_transaction_from(from, to, 10, 3);
    assert_eq!(mempool.validate_against_ledger(&ledger, &next), Ok(()));
}
