use paqus_node::apply::{
    genesis_accounts_of, has_stored_chain, starting_ledger, StoredBlocks,
};
use paqus_node::branch::{BranchAction, BranchBuild, BranchEvent};
use paqus_node::clock::current_unix_timestamp;
use paqus_node::import::{
    validate_canonical_state_root, Action, BlockImport, Event, Rebuild, StateCheck,
};
use paqus_node::ledger::{AccountMap, Ledger};
use paqus_node::mempool::{Mempool, MempoolConfig, MempoolError};
use paqus_node::miner::{check_parent, finish_search, start_search, Candidate, MiningConfig, MiningSkip};
use paqus_node::mining::{MiningAction, MiningOutcome, MiningRun};
use paqus_node::node::{
    common_ancestor, AccountView, NextDifficulty, Node, NodeError, Window,
};
use paqus_node::ordered_map::OrderedMap;
use paqus_node::orphans::{MAX_ORPHAN_HEIGHT_DISTANCE, ORPHAN_BLOCK_TTL_SECS};
use paqus_node::params::{ChainParams, BASE_FEE};
use paqus_node::storage::Storage;
use paqus_node::types::{
    Account, Address, Amount, Block, BlockData, BlockError, Coinbase, ConsensusError, Digest,
    ForkChoiceError, Height, LedgerError, Nonce, SignedTransaction, StateError, Transaction,
};
use std::collections::HashMap;
use std::sync::Arc;

const SUBSIDY: u32 = 50;

fn params() -> ChainParams {
    ChainParams {
        protocol_version: 1,
        network_magic: [1, 2, 3, 4],
        block_time: 60,
        difficulty_start: 1,
        difficulty_adjustment_interval: 10,
        confirmation_depth: 1,
        max_block_txs: 100,
        secret_key_size: 32,
    }
}

fn address(byte: u8) -> Address {
    Address([byte; 20])
}

fn mix(parts: &[&[u8]]) -> Digest {
    let mut state: u64 = 0xcbf2_9ce4_8422_2325;
    let mut out = [0u8; 64];
    for part in parts {
        for byte in part.iter() {
            state = (state ^ *byte as u64).wrapping_mul(0x0000_0100_0000_01b3);
        }
        state = state.rotate_left(17) ^ part.len() as u64;
    }
    for slot in 0..8 {
        state = state.wrapping_mul(0x9e37_79b9_7f4a_7c15) ^ (state >> 29);
        out[slot * 8..slot * 8 + 8].copy_from_slice(&state.to_be_bytes());
    }
    Digest(out)
}

fn signed(from: Address, to: Address, amount: u32, nonce: u64) -> SignedTransaction {
    let transaction = Transaction {
        from,
        to,
        amount: Amount(amount),
        fee: Amount(BASE_FEE),
        nonce: Nonce(nonce),
        timestamp: current_unix_timestamp(),
    };
    SignedTransaction {
        hash: mix(&[&from.0, &to.0, &amount.to_be_bytes(), &nonce.to_be_bytes()]),
        transaction,
        size: 7_300,
        signed: Ok(()),
    }
}

fn dummy_signed_transaction(nonce: u64) -> SignedTransaction {
    signed(address(1), address(2), 10, nonce)
}

fn make_block(
    height: u64,
    previous_hash: Digest,
    miner: Address,
    difficulty: u32,
    timestamp: u64,
    nonce: u64,
    state_root: Digest,
    transactions: Vec<SignedTransaction>,
) -> Block {
    let hash = mix(&[
        &height.to_be_bytes(),
        &previous_hash.0,
        &miner.0,
        &difficulty.to_be_bytes(),
        &timestamp.to_be_bytes(),
        &nonce.to_be_bytes(),
        &state_root.0,
    ]);
    Block::new(BlockData {
        height: Height(height),
        previous_hash,
        merkle_root: Digest([0; 64]),
        state_root,
        miner_address: miner,
        difficulty,
        timestamp,
        nonce: Nonce(nonce),
        hash,
        size: 500,
        genesis: height == 0,
        coinbase: None,
        genesis_allocations: vec![],
        transactions,
    })
}

fn genesis() -> Block {
    make_block(0, Digest([0; 64]), address(9), 1, 1_700_000_000, 0, Digest([0; 64]), vec![])
}

fn block_with_transactions(
    height: u64,
    previous_hash: Digest,
    difficulty: u32,
    nonce: u64,
    state_root: Digest,
    transactions: Vec<SignedTransaction>,
) -> Block {
    make_block(
        height,
        previous_hash,
        address(9),
        difficulty,
        1_700_000_000 + height,
        nonce,
        state_root,
        transactions,
    )
}

fn block(height: u64, previous_hash: Digest, difficulty: u32, nonce: u64) -> Block {
    block_with_transactions(
        height,
        previous_hash,
        difficulty,
        nonce,
        Digest([0; 64]),
        vec![dummy_signed_transaction(height)],
    )
}

fn accounts_of(list: &[(Address, u32)]) -> Arc<AccountMap> {
    let mut map: AccountMap = OrderedMap::new();
    for (owner, balance) in list {
        map.insert(*owner, Account::new(*owner, Amount(*balance)));
    }
    Arc::new(map)
}

fn ledger_of(accounts: Arc<AccountMap>, blocks: Vec<Block>) -> Ledger {
    let root = root_of(&accounts);
    let mut chain: OrderedMap<Height, Block> = OrderedMap::new();
    for block in blocks {
        chain.insert(block.height(), block);
    }
    Ledger { accounts, blocks: chain, state_root: root }
}

fn root_of(accounts: &AccountMap) -> Digest {
    let mut bytes: Vec<u8> = vec![1];
    for i in 0..accounts.len() {
        let account = accounts.value(i);
        bytes.extend_from_slice(&account.address.0);
        bytes.extend_from_slice(&account.balance.0.to_be_bytes());
        bytes.extend_from_slice(&account.nonce.0.to_be_bytes());
    }
    mix(&[&bytes])
}

fn credit(accounts: &mut AccountMap, to: Address, amount: u32) {
    let mut account = match accounts.get(&to) {
        Some(account) => account.clone(),
        None => Account::new(to, Amount(0)),
    };
    account.balance.0 += amount;
    account.available.0 += amount;
    accounts.insert(to, account);
}

fn applied(ledger: &Ledger, block: &Block) -> Result<Ledger, LedgerError> {
    let mut accounts = ledger.accounts.duplicate();
    let mut fees = 0;
    for t in block.data.transactions.iter() {
        let mut sender = match accounts.get(&t.transaction.from) {
            Some(account) => account.clone(),
            None => return Err(LedgerError::AccountNotFound),
        };
        let total = t.transaction.amount.0 + t.transaction.fee.0;
        if sender.nonce != t.transaction.nonce {
            return Err(LedgerError::InvalidState(StateError::InvalidNonce));
        }
        if sender.available.0 < total {
            return Err(LedgerError::InvalidState(StateError::InsufficientBalance));
        }
        sender.balance.0 -= total;
        sender.available.0 -= total;
        sender.nonce.0 += 1;
        accounts.insert(sender.address, sender);
        credit(&mut accounts, t.transaction.to, t.transaction.amount.0);
        fees += t.transaction.fee.0;
    }
    if block.height().0 > 0 {
        credit(&mut accounts, block.miner_address(), SUBSIDY + fees);
    }
    let mut blocks: OrderedMap<Height, Block> = OrderedMap::new();
    for i in 0..ledger.blocks.len() {
        blocks.insert(ledger.blocks.key(i), ledger.blocks.value(i).clone());
    }
    blocks.insert(block.height(), block.clone());
    let state_root = root_of(&accounts);
    Ok(Ledger { accounts: Arc::new(accounts), blocks, state_root })
}

fn root_after(ledger: &Ledger, block: &Block) -> Result<Digest, LedgerError> {
    applied(ledger, block).map(|after| after.state_root)
}

/// What the node asks of the rules of the chain, played by a small chain of
/// blocks in which each block counts one more than its difficulty as work.
#[derive(Clone)]
struct Outside {
    blocks: HashMap<[u8; 64], Block>,
    best: Option<Digest>,
    genesis_accounts: Arc<AccountMap>,
}

impl Outside {
    fn new(ledger: &Ledger, genesis_accounts: Arc<AccountMap>) -> Self {
        let mut outside = Outside { blocks: HashMap::new(), best: None, genesis_accounts };
        for i in 0..ledger.blocks.len() {
            outside.insert(ledger.blocks.value(i)).unwrap();
        }
        outside
    }

    fn ancestors(&self, tip: Digest) -> Vec<Digest> {
        let mut list = vec![];
        let mut hash = tip;
        while let Some(block) = self.blocks.get(&hash.0) {
            list.push(hash);
            hash = block.previous_hash();
        }
        list
    }

    fn work(&self, tip: Digest) -> u64 {
        self.ancestors(tip).iter().map(|hash| self.blocks[&hash.0].difficulty() as u64 + 1).sum()
    }

    fn insert(&mut self, block: &Block) -> Result<(), ForkChoiceError> {
        if self.blocks.contains_key(&block.hash().0) {
            return Err(ForkChoiceError::DuplicateBlock);
        }
        if block.height().0 > 0 && !self.blocks.contains_key(&block.previous_hash().0) {
            return Err(ForkChoiceError::MissingParent);
        }
        self.blocks.insert(block.hash().0, block.clone());
        match self.best {
            Some(best) if self.work(block.hash()) <= self.work(best) => {}
            _ => self.best = Some(block.hash()),
        }
        Ok(())
    }

    fn ledger_of_branch(&self, tip: Digest) -> Result<Ledger, NodeError> {
        let mut branch = self.ancestors(tip);
        branch.reverse();
        let first = self.blocks[&branch[0].0].clone();
        let mut ledger = ledger_of(self.genesis_accounts.clone(), vec![first]);
        for hash in branch.iter().skip(1) {
            ledger = applied(&ledger, &self.blocks[&hash.0]).map_err(NodeError::Ledger)?;
        }
        Ok(ledger)
    }

    fn retarget(&self, window: &Window) -> u32 {
        let elapsed = window.last_timestamp - window.first_timestamp;
        if elapsed < window.block_count * params().block_time as u64 {
            window.difficulty + 1
        } else {
            window.difficulty
        }
    }

    fn check_consensus(&self, block: &Block, now: u64) -> Result<(), ConsensusError> {
        if block.timestamp() > now.saturating_add(7_200) {
            return Err(ConsensusError::InvalidBlock(BlockError::FutureTimestamp));
        }
        Ok(())
    }

    fn check_state(&self, node: &Node, block: &Block, branch: Option<Digest>) -> StateCheck {
        let built;
        let ledger = match branch {
            None => &node.ledger,
            Some(tip) => match self.ledger_of_branch(tip) {
                Ok(ledger) => {
                    built = ledger;
                    &built
                }
                Err(error) => {
                    return StateCheck { branch: Err(error), root: Err(LedgerError::Other(0)), applied: Ok(()) }
                }
            },
        };
        StateCheck {
            branch: Ok(()),
            root: root_after(ledger, block),
            applied: applied(ledger, block).map(|_| ()),
        }
    }

    fn run(&mut self, node: &mut Node, block: Block, now: u64) -> Result<(), NodeError> {
        let mut import = BlockImport::new(block.clone());
        let mut event = Event::Start;
        let mut tried: Option<Outside> = None;
        loop {
            let action = node.import_step(&mut import, event, now);
            if let Some(copy) = tried.take() {
                if node.fork_choice.contains(&block.hash()) {
                    *self = copy;
                }
            }
            event = match action {
                Action::Done(result) => return result,
                Action::ValidateGenesis => Event::Consensus(self.check_consensus(&block, now)),
                Action::ListAncestors(tip) => Event::Ancestors(self.ancestors(tip)),
                Action::Retarget(window) => Event::Difficulty(Ok(self.retarget(&window))),
                Action::ValidateNext(_) => Event::Consensus(self.check_consensus(&block, now)),
                Action::CheckCheckpoint => Event::Checkpoint(true),
                Action::CheckState(branch) => Event::State(self.check_state(node, &block, branch)),
                Action::InsertBlock => {
                    let result = self.insert(&block);
                    Event::Inserted { result, best_tip: self.best }
                }
                Action::TryBlock => {
                    let mut copy = self.clone();
                    let result = copy.insert(&block);
                    let best_tip = copy.best;
                    tried = Some(copy);
                    Event::Inserted { result, best_tip }
                }
                Action::ApplyBlock => Event::Applied(applied(&node.ledger, &block)),
                Action::RebuildLedger => Event::Rebuilt(Rebuild {
                    old_branch: self.ancestors(node.tip_hash().unwrap()),
                    new_branch: self.ancestors(self.best.unwrap()),
                    branch_found: true,
                    ledger: self.ledger_of_branch(self.best.unwrap()),
                }),
            };
        }
    }
}

fn apply_block_at(node: &mut Node, outside: &mut Outside, block: Block, now: u64) -> Result<(), NodeError> {
    let import = node.begin_block(block.clone(), now);
    assert_eq!(import.block, block);
    let result = outside.run(node, block.clone(), now);
    let (outcome, mut queue) = node.settle_block(block, result, now);
    while let Some(orphan) = node.next_orphan(&mut queue) {
        let result = outside.run(node, orphan.clone(), now);
        node.settle_orphan(&mut queue, orphan, result, now);
    }
    outcome
}

fn apply_block(node: &mut Node, outside: &mut Outside, block: Block) -> Result<(), NodeError> {
    apply_block_at(node, outside, block, current_unix_timestamp())
}

fn node_with(ledger: Ledger, genesis_accounts: Arc<AccountMap>, difficulty: u32) -> (Node, Outside) {
    let outside = Outside::new(&ledger, genesis_accounts.clone());
    let node = Node::with_genesis_accounts(
        ledger,
        Storage::temporary().unwrap(),
        genesis_accounts,
        outside.best,
        difficulty,
        params(),
    );
    (node, outside)
}

fn temporary(ledger: Ledger, difficulty: u32) -> (Node, Outside) {
    let accounts = ledger.accounts.clone();
    let outside = Outside::new(&ledger, accounts);
    let node =
        Node::new(ledger, Storage::temporary().unwrap(), outside.best, difficulty, params());
    (node, outside)
}

fn no_accounts() -> Arc<AccountMap> {
    accounts_of(&[])
}

#[test]
fn submits_transaction_to_mempool() {
    let transaction = signed(address(1), address(2), 10, 0);
    let sender = transaction.transaction.from;
    let ledger = ledger_of(accounts_of(&[(sender, 25), (address(2), 0)]), vec![]);
    let (mut node, _) = temporary(ledger, 0);

    let hash = transaction.hash();

    assert_eq!(node.submit_transaction(transaction).unwrap(), hash);
    assert!(node.mempool.contains(&hash));
}

fn finished(candidate: &Candidate) -> Block {
    let coinbase = candidate.coinbase.as_ref().map(|coinbase| Coinbase {
        to: coinbase.to,
        subsidy: coinbase.subsidy,
        fees: coinbase.fees,
        total: Amount(coinbase.subsidy.0 + coinbase.fees.0),
    });
    let block = make_block(
        candidate.height.0,
        candidate.previous_hash,
        candidate.miner_address,
        candidate.difficulty,
        candidate.timestamp,
        candidate.nonce.0,
        candidate.state_root.unwrap_or(Digest([0; 64])),
        candidate.transactions.clone(),
    );
    let mut data = Arc::try_unwrap(block.data).unwrap();
    data.coinbase = coinbase;
    Block::new(data)
}

#[test]
fn mines_and_applies_block_from_mempool() {
    let transaction = signed(address(1), address(2), 10, 0);
    let sender = transaction.transaction.from;
    let miner = address(9);
    let ledger = ledger_of(
        accounts_of(&[(sender, 25), (address(2), 0), (miner, 0)]),
        vec![genesis()],
    );
    let (mut node, mut outside) = temporary(ledger, 0);

    node.submit_transaction(transaction).unwrap();
    node.mempool.prune_expired(1_700_000_001);
    let difficulty = match node.next_difficulty().unwrap() {
        NextDifficulty::Known(difficulty) => difficulty,
        NextDifficulty::Retarget(window) => outside.retarget(&window),
    };
    let config = MiningConfig { difficulty, max_attempts: 2_000, transaction_limit: 10 };
    let candidate = node
        .mempool
        .create_candidate_block(&node.ledger, miner, 1_700_000_001, Nonce(0), 10, Ok(Amount(SUBSIDY)))
        .unwrap();
    let root = root_after(&node.ledger, &finished(&candidate));
    let candidate = candidate.prepare(root, difficulty).unwrap();
    let result = finish_search(candidate, start_search(&config)).unwrap();
    assert_eq!(check_parent(&node, &result.block.previous_hash), Ok(()));
    let mined = finished(&result.block);
    apply_block(&mut node, &mut outside, mined.clone()).unwrap();

    assert_eq!(mined.height(), Height(1));
    assert_eq!(node.tip_height(), Some(Height(1)));
    assert!(node.mempool.is_empty());
    assert_eq!(node.balance(&sender), Some(Amount(13)));
    assert_eq!(node.balance(&address(2)), Some(Amount(10)));
    assert_eq!(check_parent(&node, &result.block.previous_hash), Err(MiningSkip::TipChanged));
}

#[test]
fn stores_side_fork_without_changing_active_tip_when_work_is_lower() {
    let genesis = genesis();
    let active = block(1, genesis.hash(), 3, 1);
    let side = block(1, genesis.hash(), 1, 2);
    let side_hash = side.hash();
    let active_hash = active.hash();
    let ledger = ledger_of(no_accounts(), vec![genesis, active]);
    let (mut node, mut outside) = temporary(ledger, 0);

    assert!(apply_block(&mut node, &mut outside, side.clone()).is_ok());
    assert!(node.fork_choice.contains(&side_hash));
    assert_eq!(node.tip_hash(), Some(active_hash));
    assert_eq!(node.storage.load_block_by_hash(&side_hash).unwrap(), Some(side));
}

#[test]
fn does_not_follow_a_branch_without_the_accounts_of_the_beginning() {
    let genesis = genesis();
    let active = block(1, genesis.hash(), 1, 1);
    let side = block(1, genesis.hash(), 3, 2);
    let side_hash = side.hash();
    let active_hash = active.hash();
    let ledger = ledger_of(no_accounts(), vec![genesis, active]);
    let draft = block_with_transactions(2, active_hash, 1, 3, Digest([0; 64]), vec![]);
    let root = root_after(&ledger, &draft).unwrap();
    let next = block_with_transactions(2, active_hash, 1, 3, root, vec![]);
    let (mut node, mut outside) = temporary(ledger, 0);

    assert_eq!(
        apply_block(&mut node, &mut outside, side),
        Err(NodeError::MissingGenesisState)
    );
    assert_eq!(node.tip_hash(), Some(active_hash));
    assert!(!node.fork_choice.contains(&side_hash));
    assert_eq!(node.fork_choice.best_tip(), Some(active_hash));
    assert_eq!(node.storage.load_block_by_hash(&side_hash).unwrap(), None);

    let next_hash = next.hash();
    assert!(apply_block(&mut node, &mut outside, next).is_ok());
    assert_eq!(node.tip_hash(), Some(next_hash));
}

#[test]
fn rejects_block_with_unexpected_difficulty() {
    let genesis = genesis();
    let ledger = ledger_of(no_accounts(), vec![genesis.clone()]);
    let mut storage = Storage::temporary().unwrap();
    storage.save_ledger(&ledger).unwrap();
    let mut outside = Outside::new(&ledger, no_accounts());
    let mut node = Node::new(ledger, storage, outside.best, 1, params());
    let block = block(1, genesis.hash(), 2, 1);

    let error = apply_block(&mut node, &mut outside, block).unwrap_err();

    assert!(matches!(error, NodeError::Consensus(ConsensusError::UnexpectedDifficulty)));
}

#[test]
fn rejects_block_timestamp_too_far_in_future() {
    let genesis = genesis();
    let ledger = ledger_of(no_accounts(), vec![genesis.clone()]);
    let (mut node, mut outside) = temporary(ledger, 0);
    let block = make_block(
        1,
        genesis.hash(),
        address(9),
        1,
        u64::MAX,
        1,
        Digest([0; 64]),
        vec![dummy_signed_transaction(1)],
    );

    let error = apply_block(&mut node, &mut outside, block).unwrap_err();

    assert!(matches!(
        error,
        NodeError::Consensus(ConsensusError::InvalidBlock(BlockError::FutureTimestamp))
    ));
}

#[test]
fn reorgs_state_when_side_fork_becomes_best_tip() {
    let genesis = genesis();
    let active_sender = address(21);
    let side_sender = address(22);
    let active_receiver = address(3);
    let side_receiver = address(4);
    let active_transaction = signed(active_sender, active_receiver, 10, 0);
    let side_transaction = signed(side_sender, side_receiver, 10, 0);
    let genesis_accounts = accounts_of(&[
        (active_sender, 25),
        (side_sender, 25),
        (active_receiver, 0),
        (side_receiver, 0),
        (address(9), 0),
    ]);
    let ledger = ledger_of(genesis_accounts.clone(), vec![genesis.clone()]);
    let with_root = |difficulty: u32, nonce: u64, t: SignedTransaction| {
        let bare = block_with_transactions(1, genesis.hash(), difficulty, nonce, Digest([0; 64]), vec![t]);
        let root = root_after(&ledger, &bare).unwrap();
        block_with_transactions(1, genesis.hash(), difficulty, nonce, root, vec![t])
    };
    let active = with_root(1, 1, active_transaction);
    let side = with_root(4, 2, side_transaction);
    let side_hash = side.hash();
    let ledger = applied(&ledger, &active).unwrap();
    let (mut node, mut outside) = node_with(ledger, genesis_accounts, 0);

    assert!(apply_block(&mut node, &mut outside, side).is_ok());
    assert_eq!(node.fork_choice.best_tip(), Some(side_hash));
    assert_eq!(node.tip_hash(), Some(side_hash));
    assert_eq!(node.balance(&active_sender), Some(Amount(25)));
    assert_eq!(node.balance(&active_receiver), Some(Amount(0)));
    assert_eq!(node.balance(&side_sender), Some(Amount(13)));
    assert_eq!(node.balance(&side_receiver), Some(Amount(10)));
    assert!(node.mempool.contains(&active_transaction.hash()));
    assert_eq!(node.cache.tip_hash(), Some(side_hash));
    assert_eq!(node.storage.load_tip().unwrap(), Some((Height(1), side_hash)));
}

#[test]
fn reports_confirmed_available_and_pending_balances() {
    let sender = address(1);
    let receiver = address(2);
    let mut sender_account = Account::new(sender, Amount(67));
    sender_account.nonce = Nonce(11);
    let mut receiver_account = Account::new(receiver, Amount(11));
    receiver_account.available = Amount(10);
    receiver_account.unspendable = Amount(1);
    let mut accounts: AccountMap = OrderedMap::new();
    accounts.insert(sender, sender_account);
    accounts.insert(receiver, receiver_account);
    let tip = block_with_transactions(11, Digest([3; 64]), 1, 11, Digest([0; 64]), vec![]);
    let ledger = ledger_of(Arc::new(accounts), vec![tip]);
    let mut node = Node::with_genesis_accounts(
        ledger,
        Storage::temporary().unwrap(),
        no_accounts(),
        None,
        0,
        params(),
    );
    let pending_transaction = signed(sender, receiver, 5, 11);

    node.submit_transaction(pending_transaction).unwrap();

    assert_eq!(node.confirmed_balance(&sender), Some(Amount(67)));
    assert_eq!(node.confirmed_balance(&receiver), Some(Amount(11)));
    assert_eq!(node.available_balance(&sender), Some(Amount(67)));
    assert_eq!(node.available_balance(&receiver), Some(Amount(10)));
    assert_eq!(
        node.account_view(&receiver),
        Some(AccountView { balance: Amount(10), unspendable: Amount(1), nonce: Nonce(0) })
    );

    let sender_pending = node.pending_balance(&sender);
    assert_eq!(sender_pending.incoming, Amount(0));
    assert_eq!(sender_pending.outgoing, Amount(7));

    let receiver_pending = node.pending_balance(&receiver);
    assert_eq!(receiver_pending.incoming, Amount(5));
    assert_eq!(receiver_pending.outgoing, Amount(0));

    assert_eq!(
        node.account_view(&sender),
        Some(AccountView { balance: Amount(67), unspendable: Amount(0), nonce: Nonce(11) })
    );
    let summary = node.balance_summary(&sender).unwrap();
    assert_eq!(summary.confirmed, Amount(67));
    assert_eq!(summary.pending.outgoing, Amount(7));
    assert_eq!(node.balance_summary(&address(77)), None);
}

#[test]
fn keeps_mining_rewards_unspendable_until_maturity() {
    let miner = address(9);
    let mut account = Account::new(miner, Amount(5_200));
    account.available = Amount(4_200);
    account.unspendable = Amount(1_000);
    let mut accounts: AccountMap = OrderedMap::new();
    accounts.insert(miner, account);
    let tip = block_with_transactions(100, Digest([3; 64]), 1, 100, Digest([0; 64]), vec![]);
    let ledger = ledger_of(Arc::new(accounts), vec![tip]);
    let mut node = Node::new(ledger, Storage::temporary().unwrap(), None, 0, params());

    let miner_view = node.account_view(&miner).unwrap();
    assert_eq!(miner_view.balance, Amount(4_200));
    assert!(miner_view.unspendable.0 > 0);
    assert!(node.submit_transaction(signed(miner, address(2), 4_199, 0)).is_err());
    assert!(node.submit_transaction(signed(miner, address(2), 4_198, 0)).is_ok());
}

#[test]
fn invalid_state_block_does_not_enter_fork_choice() {
    let genesis = genesis();
    let sender = address(1);
    let receiver = address(2);
    let genesis_accounts = accounts_of(&[(sender, 100), (receiver, 0), (address(9), 0)]);
    let ledger = ledger_of(genesis_accounts.clone(), vec![genesis.clone()]);
    let block = make_block(
        1,
        genesis.hash(),
        address(9),
        1,
        1_700_000_001,
        0,
        Digest([0; 64]),
        vec![signed(sender, receiver, 200, 0)],
    );
    let block_hash = block.hash();
    let (mut node, mut outside) = node_with(ledger, genesis_accounts, 0);

    let error = apply_block(&mut node, &mut outside, block).unwrap_err();

    assert!(matches!(error, NodeError::Ledger(_)));
    assert!(!node.fork_choice.contains(&block_hash));
    assert_eq!(node.tip_hash(), Some(genesis.hash()));
}

#[test]
fn rejects_non_genesis_block_with_zero_state_root() {
    let genesis = genesis();
    let ledger = ledger_of(no_accounts(), vec![genesis.clone()]);
    let block = make_block(
        1,
        genesis.hash(),
        address(9),
        1,
        1_700_000_001,
        1,
        Digest([0; 64]),
        vec![],
    );
    let block_hash = block.hash();
    let (mut node, mut outside) = node_with(ledger, no_accounts(), 0);

    let error = apply_block(&mut node, &mut outside, block.clone()).unwrap_err();

    assert!(matches!(error, NodeError::Ledger(_)));
    assert!(!node.fork_choice.contains(&block_hash));
    assert_eq!(node.tip_hash(), Some(genesis.hash()));
    assert_eq!(
        validate_canonical_state_root(&block, Ok(Digest([0; 64]))),
        Err(NodeError::Ledger(LedgerError::InvalidStateRoot))
    );
}

#[test]
fn branch_difficulty_uses_parent_branch_window() {
    let genesis = make_block(0, Digest([0; 64]), address(9), 1, 1_700_000_000, 0, Digest([0; 64]), vec![]);
    let (mut node, mut outside) = temporary(ledger_of(no_accounts(), vec![]), 1);
    let mut previous_hash = genesis.hash();
    outside.insert(&genesis).unwrap();
    node.fork_choice.insert(&genesis, outside.best);

    for height in 1..=params().difficulty_adjustment_interval {
        let block = make_block(
            height,
            previous_hash,
            address(9),
            1,
            1_700_000_000 + height,
            height,
            Digest([0; 64]),
            vec![],
        );
        outside.insert(&block).unwrap();
        node.fork_choice.insert(&block, outside.best);
        previous_hash = block.hash();
    }

    let next = node
        .next_difficulty_after_branch_tip(&previous_hash, &outside.ancestors(previous_hash))
        .unwrap();
    let window = Window {
        difficulty: 1,
        first_timestamp: 1_700_000_000,
        last_timestamp: 1_700_000_000 + params().difficulty_adjustment_interval,
        block_count: params().difficulty_adjustment_interval,
    };
    assert_eq!(next, NextDifficulty::Retarget(window));
    assert_eq!(outside.retarget(&window), 2);
}

#[test]
fn a_block_after_a_full_window_has_the_computed_difficulty() {
    let genesis = genesis();
    let ledger = ledger_of(no_accounts(), vec![genesis.clone()]);
    let (mut node, mut outside) = temporary(ledger, 1);
    for height in 1..=12 {
        let parent = node.tip_hash().unwrap();
        let expected = if height <= 10 { 1 } else { 2 };
        let bare = block_with_transactions(height, parent, expected, height, Digest([0; 64]), vec![]);
        let root = root_after(&node.ledger, &bare).unwrap();
        let wrong = block_with_transactions(height, parent, expected + 1, height, root, vec![]);
        assert_eq!(
            apply_block(&mut node, &mut outside, wrong),
            Err(NodeError::Consensus(ConsensusError::UnexpectedDifficulty))
        );
        let right = block_with_transactions(height, parent, expected, height, root, vec![]);
        assert_eq!(apply_block(&mut node, &mut outside, right), Ok(()));
        if height == 11 {
            break;
        }
    }
    assert_eq!(node.tip_height(), Some(Height(11)));
}

#[test]
fn indexes_stored_side_blocks_into_fork_choice() {
    let genesis = genesis();
    let active = make_block(1, genesis.hash(), address(9), 1, 1_700_000_001, 1, Digest([0; 64]), vec![]);
    let side = make_block(1, genesis.hash(), address(8), 1, 1_700_000_002, 2, Digest([0; 64]), vec![]);
    let side_hash = side.hash();
    let ledger = ledger_of(no_accounts(), vec![genesis, active]);
    let mut storage = Storage::temporary().unwrap();
    storage.save_ledger(&ledger).unwrap();
    storage.save_side_block(&side);
    let mut outside = Outside::new(&ledger, no_accounts());
    let mut node = Node::new(ledger, storage, outside.best, 0, params());

    let mut stored = StoredBlocks::of_storage(&node.storage).unwrap();
    while let Some(block) = stored.next_block(&node) {
        let result = outside.insert(&block);
        stored.settle(&mut node, block, result, outside.best).unwrap();
    }

    assert!(node.fork_choice.contains(&side_hash));
}

#[test]
fn caches_orphan_block_until_parent_arrives() {
    let genesis = genesis();
    let ledger = ledger_of(no_accounts(), vec![genesis.clone()]);
    let bare = make_block(1, genesis.hash(), address(9), 1, 1_700_000_001, 1, Digest([0; 64]), vec![]);
    let parent = make_block(
        1,
        genesis.hash(),
        address(9),
        1,
        1_700_000_001,
        1,
        root_after(&ledger, &bare).unwrap(),
        vec![],
    );
    let child_ledger = applied(&ledger, &parent).unwrap();
    let bare = make_block(2, parent.hash(), address(9), 1, 1_700_000_002, 2, Digest([0; 64]), vec![]);
    let child = make_block(
        2,
        parent.hash(),
        address(9),
        1,
        1_700_000_002,
        2,
        root_after(&child_ledger, &bare).unwrap(),
        vec![],
    );
    let child_hash = child.hash();
    let (mut node, mut outside) = node_with(ledger, no_accounts(), 0);

    apply_block(&mut node, &mut outside, child).unwrap();

    assert_eq!(node.orphans.len(), 1);
    assert!(!node.fork_choice.contains(&child_hash));
    assert_eq!(node.tip_hash(), Some(genesis.hash()));
    assert!(node.has_pending_sync_work());

    apply_block(&mut node, &mut outside, parent).unwrap();

    assert!(node.orphans.is_empty());
    assert!(node.fork_choice.contains(&child_hash));
    assert_eq!(node.tip_height(), Some(Height(2)));
}

fn block_on(ledger: &Ledger, height: u64, previous: Digest, difficulty: u32, nonce: u64) -> Block {
    let draft =
        block_with_transactions(height, previous, difficulty, nonce, Digest([0; 64]), vec![]);
    let root = root_after(ledger, &draft).unwrap();
    block_with_transactions(height, previous, difficulty, nonce, root, vec![])
}

#[test]
fn a_block_and_its_parent_may_come_in_either_order() {
    let genesis = genesis();
    let accounts = accounts_of(&[(address(9), 5)]);
    let ledger = ledger_of(accounts.clone(), vec![genesis.clone()]);
    let parent = block_on(&ledger, 1, genesis.hash(), 1, 1);
    let child = block_on(&applied(&ledger, &parent).unwrap(), 2, parent.hash(), 1, 2);
    let grandchild = block_on(
        &applied(&applied(&ledger, &parent).unwrap(), &child).unwrap(),
        3,
        child.hash(),
        1,
        3,
    );
    let mut tips = vec![];
    for order in [[0, 1, 2], [0, 2, 1], [1, 0, 2], [1, 2, 0], [2, 0, 1], [2, 1, 0]] {
        let ledger = ledger_of(accounts.clone(), vec![genesis.clone()]);
        let (mut node, mut outside) = node_with(ledger, accounts.clone(), 0);
        for i in order {
            let block = [&parent, &child, &grandchild][i].clone();
            assert_eq!(apply_block_at(&mut node, &mut outside, block, 1_700_000_100), Ok(()));
        }
        assert!(node.orphans.is_empty());
        assert!(node.orphans.has_no_lists());
        assert_eq!(node.tip_height(), Some(Height(3)));
        assert_eq!(node.fork_choice.best_tip(), Some(grandchild.hash()));
        tips.push((node.tip_hash(), node.ledger.state_root, node.balance(&address(9))));
    }
    assert!(tips.iter().all(|tip| *tip == tips[0]));
    assert_eq!(tips[0].0, Some(grandchild.hash()));
}

#[test]
fn waiting_blocks_follow_in_the_order_in_which_they_came() {
    let genesis = genesis();
    let ledger = ledger_of(no_accounts(), vec![genesis.clone()]);
    let parent = block_on(&ledger, 1, genesis.hash(), 1, 1);
    let children: Vec<Block> = (0..3).map(|k| block(2, parent.hash(), 1, 10 + k)).collect();
    let stranger = block(2, Digest([7; 64]), 1, 20);
    let (mut node, _) = node_with(ledger, no_accounts(), 0);
    let missing = || Err(NodeError::ForkChoice(ForkChoiceError::MissingParent));
    for child in [&children[1], &stranger, &children[0], &children[2]] {
        let (outcome, queue) = node.settle_block(child.clone(), missing(), 1_000);
        assert_eq!(outcome, Ok(()));
        assert!(queue.parents.is_empty());
    }

    let (outcome, mut queue) = node.settle_block(parent, Ok(()), 1_600);
    assert_eq!(outcome, Ok(()));
    for expected in [&children[1], &children[0], &children[2]] {
        let handed = node.next_orphan(&mut queue);
        assert_eq!(handed.as_ref(), Some(expected));
        node.settle_orphan(&mut queue, expected.clone(), Ok(()), 1_600);
    }
    assert_eq!(node.next_orphan(&mut queue), None);
    assert_eq!(node.orphans.len(), 1);
    assert!(node.orphans.contains(&stranger.hash()));
}

#[test]
fn prunes_expired_orphan_blocks() {
    let ledger = ledger_of(no_accounts(), vec![genesis()]);
    let child = make_block(1, Digest([7; 64]), address(9), 1, 1_700_000_001, 1, Digest([0; 64]), vec![]);
    let (mut node, mut outside) = node_with(ledger, no_accounts(), 0);

    apply_block_at(&mut node, &mut outside, child, 1_700_000_001).unwrap();
    assert_eq!(node.orphans.len(), 1);
    node.prune_expired_orphans(1_700_000_001 + ORPHAN_BLOCK_TTL_SECS);
    assert_eq!(node.orphans.len(), 1);
    node.prune_expired_orphans(1_700_000_001 + ORPHAN_BLOCK_TTL_SECS + 1);

    assert!(node.orphans.is_empty());
    assert!(node.orphans.has_no_lists());
}

#[test]
fn queues_missing_parent_request_once_for_orphans() {
    let missing_parent_hash = Digest([7; 64]);
    let first = make_block(1, missing_parent_hash, address(9), 1, 1_700_000_001, 1, Digest([0; 64]), vec![]);
    let second = make_block(1, missing_parent_hash, address(8), 1, 1_700_000_002, 2, Digest([0; 64]), vec![]);
    let ledger = ledger_of(no_accounts(), vec![genesis()]);
    let (mut node, mut outside) = node_with(ledger, no_accounts(), 0);

    apply_block(&mut node, &mut outside, first).unwrap();
    apply_block(&mut node, &mut outside, second).unwrap();

    assert_eq!(node.drain_missing_parent_requests(), vec![missing_parent_hash]);
    assert!(node.drain_missing_parent_requests().is_empty());
}

#[test]
fn retries_missing_parent_request_after_cooldown() {
    let missing_parent_hash = Digest([7; 64]);
    let ledger = ledger_of(no_accounts(), vec![genesis()]);
    let (mut node, _) = node_with(ledger, no_accounts(), 0);

    node.queue_missing_parent_request_at(missing_parent_hash, 10);
    assert!(node.drain_missing_parent_requests_at(9).is_empty());
    assert_eq!(node.drain_missing_parent_requests_at(10), vec![missing_parent_hash]);

    node.retry_missing_parent_request(missing_parent_hash);
    assert!(node.drain_missing_parent_requests_at(current_unix_timestamp()).is_empty());
}

#[test]
fn ignores_orphan_blocks_too_far_ahead_of_tip() {
    let far_orphan = make_block(
        MAX_ORPHAN_HEIGHT_DISTANCE + 1,
        Digest([7; 64]),
        address(9),
        1,
        1_700_000_001,
        1,
        Digest([0; 64]),
        vec![],
    );
    let ledger = ledger_of(no_accounts(), vec![genesis()]);
    let (mut node, mut outside) = node_with(ledger, no_accounts(), 0);

    apply_block(&mut node, &mut outside, far_orphan).unwrap();

    assert!(node.orphans.is_empty());
    assert!(node.orphans.has_no_lists());
}

#[test]
fn a_block_that_is_known_is_taken_without_complaint() {
    let genesis_block = genesis();
    let ledger = ledger_of(no_accounts(), vec![genesis_block.clone()]);
    let (mut node, mut outside) = node_with(ledger, no_accounts(), 0);
    let bare = block_with_transactions(1, genesis_block.hash(), 1, 1, Digest([0; 64]), vec![]);
    let root = root_after(&node.ledger, &bare).unwrap();
    let next = block_with_transactions(1, genesis_block.hash(), 1, 1, root, vec![]);

    assert_eq!(apply_block(&mut node, &mut outside, next.clone()), Ok(()));
    assert_eq!(apply_block(&mut node, &mut outside, next.clone()), Ok(()));
    assert_eq!(node.tip_hash(), Some(next.hash()));
}

#[test]
fn finds_the_last_common_block_of_two_branches() {
    let d = |byte: u8| Digest([byte; 64]);
    assert_eq!(
        common_ancestor(true, &vec![d(5), d(2), d(1)], &vec![d(9), d(8), d(2), d(1)]),
        Some(d(2))
    );
    assert_eq!(common_ancestor(true, &vec![d(5)], &vec![d(9)]), None);
    assert_eq!(common_ancestor(false, &vec![d(1)], &vec![d(1)]), None);
}

#[test]
fn initializes_genesis_when_storage_is_empty() {
    let premine = address(7);
    let beginning = || ledger_of(accounts_of(&[(premine, 1_000)]), vec![genesis()]);
    let mut storage = Storage::temporary().unwrap();
    let ledger = starting_ledger(&mut storage, Digest([0; 64]), Ok(beginning())).unwrap();
    let best = Some(genesis().hash());
    let node = Node::init_or_load(ledger, storage, best, 1, params()).unwrap();

    assert_eq!(node.tip_height(), Some(Height(0)));
    assert!(node.balance(&premine).is_some());
    assert_eq!(node.genesis_accounts, beginning().accounts);
    assert_eq!(node.fork_choice.best_tip(), best);

    let mut storage = node.storage;
    let root = beginning().state_root;
    let refused = Err(LedgerError::InvalidStateRoot);
    let again = starting_ledger(&mut storage, root, refused).unwrap();
    assert_eq!(again, beginning());
}

#[test]
fn a_chain_that_cannot_begin_leaves_the_database_alone() {
    let mut storage = Storage::temporary().unwrap();
    let error = LedgerError::InvalidStateRoot;
    assert_eq!(
        starting_ledger(&mut storage, Digest([0; 64]), Err(error)),
        Err(NodeError::Ledger(error))
    );
    assert_eq!(storage.load_tip(), Ok(None));
    storage.tables.genesis_accounts = Some(Err("no map".to_string()));
    let ledger = ledger_of(no_accounts(), vec![genesis()]);
    assert!(matches!(
        Node::init_or_load(ledger, storage, None, 1, params()),
        Err(NodeError::Storage(_))
    ));
}

#[test]
fn a_database_tells_whether_it_holds_a_chain() {
    let mut storage = Storage::temporary().unwrap();
    assert_eq!(has_stored_chain(&storage), Ok(false));
    let ledger = ledger_of(accounts_of(&[(address(1), 100)]), vec![genesis()]);
    assert_eq!(genesis_accounts_of(&storage, &ledger).unwrap().len(), 1);
    storage.save_ledger(&ledger).unwrap();
    assert_eq!(has_stored_chain(&storage), Ok(true));
    storage.save_genesis_accounts(&accounts_of(&[(address(1), 100), (address(2), 5)]));
    assert_eq!(genesis_accounts_of(&storage, &ledger).unwrap().len(), 2);
}

#[test]
fn transactions_of_a_lost_branch_are_pending_again() {
    let pool = Mempool::new(params());
    assert_eq!(pool.difficulty_start(), 1);
    let genesis = genesis();
    let sender = address(21);
    let genesis_accounts = accounts_of(&[(sender, 100), (address(3), 0), (address(9), 0)]);
    let ledger = ledger_of(genesis_accounts.clone(), vec![genesis.clone()]);
    let t = signed(sender, address(3), 10, 0);
    let bare = block_with_transactions(1, genesis.hash(), 1, 1, Digest([0; 64]), vec![t]);
    let active = block_with_transactions(
        1,
        genesis.hash(),
        1,
        1,
        root_after(&ledger, &bare).unwrap(),
        vec![t],
    );
    let empty = block_with_transactions(1, genesis.hash(), 2, 5, Digest([0; 64]), vec![]);
    let side = block_with_transactions(
        1,
        genesis.hash(),
        2,
        5,
        root_after(&ledger, &empty).unwrap(),
        vec![],
    );
    let (mut node, mut outside) = node_with(ledger, genesis_accounts, 0);
    node.submit_transaction(t).unwrap();
    apply_block(&mut node, &mut outside, active).unwrap();
    assert!(node.mempool.is_empty());
    apply_block(&mut node, &mut outside, side).unwrap();
    assert_eq!(node.mempool.transactions(), vec![t]);
}

fn step_all(
    build: &mut BranchBuild,
    mut action: BranchAction,
    verdicts: &HashMap<[u8; 64], LedgerError>,
    branch: Option<Vec<Digest>>,
) -> (Vec<Digest>, Result<(), NodeError>) {
    let mut taken = vec![];
    let verdict = |hash: &Digest| match verdicts.get(&hash.0) {
        Some(error) => Err(*error),
        None => Ok(()),
    };
    loop {
        let event = match action {
            BranchAction::Done(result) => return (taken, result),
            BranchAction::Begin(block) => {
                taken.push(block.hash());
                BranchEvent::Begun(verdict(&block.hash()))
            }
            BranchAction::List { .. } => BranchEvent::Listed(branch.clone()),
            BranchAction::Apply(hash) => {
                taken.push(hash);
                BranchEvent::Applied(verdict(&hash))
            }
        };
        action = build.step(event);
    }
}

#[test]
fn builds_the_ledger_of_a_branch_from_its_first_block_up() {
    let genesis = genesis();
    let first = block(1, genesis.hash(), 1, 1);
    let second = block(2, first.hash(), 1, 2);
    let (g, a, b) = (genesis.hash(), first.hash(), second.hash());
    let ledger = ledger_of(no_accounts(), vec![genesis, first, second]);
    let (node, outside) = temporary(ledger, 0);
    let ancestors = outside.ancestors(b);
    let run = |verdicts: &[(Digest, LedgerError)], branch: Option<Vec<Digest>>| {
        let verdicts = verdicts.iter().map(|(hash, error)| (hash.0, *error)).collect();
        let (mut build, action) = node.ledger_for_branch_tip(b, &ancestors);
        step_all(&mut build, action, &verdicts, branch)
    };

    assert_eq!(run(&[], Some(vec![a, b])), (vec![g, a, b], Ok(())));
    assert_eq!(
        run(&[(a, LedgerError::InvalidStateRoot)], Some(vec![a, b])),
        (vec![g, a], Err(NodeError::Ledger(LedgerError::InvalidStateRoot)))
    );
    assert_eq!(
        run(&[(g, LedgerError::DuplicateBlock)], Some(vec![a, b])),
        (vec![g], Err(NodeError::Ledger(LedgerError::DuplicateBlock)))
    );
    assert_eq!(run(&[], None), (vec![g], Err(NodeError::ReorgRequired)));

    let unknown = Digest([7; 64]);
    let (_, action) = node.ledger_for_branch_tip(unknown, &vec![]);
    assert_eq!(action, BranchAction::Done(Err(NodeError::ReorgRequired)));
}

#[test]
fn a_fee_that_is_not_relayed_is_taken_in_a_block() {
    let genesis = genesis();
    let cheap = signed(address(1), address(2), 10, 0);
    let accounts = accounts_of(&[(address(1), 25), (address(2), 0), (address(9), 0)]);
    let ledger = ledger_of(accounts.clone(), vec![genesis.clone()]);
    let bare = block_with_transactions(1, genesis.hash(), 1, 1, Digest([0; 64]), vec![cheap]);
    let root = root_after(&ledger, &bare).unwrap();
    let block = block_with_transactions(1, genesis.hash(), 1, 1, root, vec![cheap]);
    let (mut node, mut outside) = node_with(ledger, accounts, 0);
    let policy = MempoolConfig { min_relay_fee: BASE_FEE + 1, ..MempoolConfig::default() };
    node.mempool = Mempool::with_config(policy, params());

    assert_eq!(
        node.submit_transaction(cheap),
        Err(NodeError::Mempool(MempoolError::FeeTooLow))
    );
    assert_eq!(apply_block(&mut node, &mut outside, block.clone()), Ok(()));
    assert_eq!(node.tip_hash(), Some(block.hash()));
}

#[test]
fn a_turn_of_mining_finds_applies_and_writes_down() {
    let ledger = ledger_of(no_accounts(), vec![genesis()]);
    let (node, _) = temporary(ledger, 0);
    let parent = genesis().hash();
    let config = MiningConfig { difficulty: 3, max_attempts: 3, transaction_limit: 10 };
    let (mut run, action) = MiningRun::start(config, parent);
    assert_eq!(action, MiningAction::Test(0));
    assert_eq!(run.tested(false), MiningAction::Test(1));
    assert_eq!(run.tested(true), MiningAction::Settle);
    assert_eq!(run.settle(&node), MiningAction::Apply { nonce: 1 });
    assert_eq!(run.applied(Ok(())), MiningAction::Flush);
    let mined = MiningOutcome::Mined { nonce: 1, attempts: 2 };
    assert_eq!(run.flushed(Ok(())), MiningAction::Done(Ok(mined)));
}

#[test]
fn a_turn_of_mining_may_come_to_nothing() {
    let ledger = ledger_of(accounts_of(&[(address(1), 25), (address(2), 0)]), vec![genesis()]);
    let (mut node, _) = temporary(ledger, 0);
    let skipped = |reason: MiningSkip| MiningAction::Done(Ok(MiningOutcome::Skipped(reason)));
    let config = MiningConfig { difficulty: 3, max_attempts: 1, transaction_limit: 10 };
    let exhausted = |node: &Node| {
        let (mut run, _) = MiningRun::start(config, genesis().hash());
        assert_eq!(run.tested(false), MiningAction::Settle);
        run.settle(node)
    };
    assert_eq!(exhausted(&node), skipped(MiningSkip::EmptyMempool));
    node.submit_transaction(signed(address(1), address(2), 10, 0)).unwrap();
    assert_eq!(exhausted(&node), skipped(MiningSkip::ExhaustedAttempts));

    let found = |parent: Digest| {
        let (mut run, _) = MiningRun::start(config, parent);
        run.tested(true);
        run
    };
    assert_eq!(found(Digest([5; 64])).settle(&node), skipped(MiningSkip::TipChanged));
    let mut run = found(genesis().hash());
    run.settle(&node);
    assert_eq!(
        run.applied(Err("bad".to_string())),
        MiningAction::Done(Err("failed to apply mined block: bad".to_string()))
    );
    let mut run = found(genesis().hash());
    run.settle(&node);
    run.applied(Ok(()));
    assert_eq!(
        run.flushed(Err("full".to_string())),
        MiningAction::Done(Err("failed to flush mined block: full".to_string()))
    );
}
