use paqus_node::cache::CoreCache;
use paqus_node::ledger::Ledger;
use paqus_node::ordered_map::OrderedMap;
use paqus_node::params::{DEFAULT_TRANSACTION_FEE, STORAGE_VERSION};
use paqus_node::storage::{SerializationError, Storage, StorageError};
use paqus_node::tables::{
    address_tx_key, address_tx_of_key, decode_address_location, decode_location,
    encode_address_location, encode_location, height_key, height_of_key,
    AddressTransactionLocation, AddressTxKey, Change, StateSnapshot, Tables, TransactionLocation,
};
use paqus_node::types::{
    Account, Address, Amount, Block, BlockData, BlockHash, Digest, Height, Nonce,
    SignedTransaction, Transaction,
};
use std::sync::Arc;

fn address(byte: u8) -> Address {
    Address([byte; 20])
}

fn block_hash(height: u64, previous: &Digest, miner: u8, timestamp: u64, nonce: u64) -> Digest {
    let mut bytes = [0u8; 64];
    bytes[..8].copy_from_slice(&height.to_be_bytes());
    bytes[8..16].copy_from_slice(&timestamp.to_be_bytes());
    bytes[16..24].copy_from_slice(&nonce.to_be_bytes());
    bytes[24] = miner;
    bytes[25..33].copy_from_slice(&previous.0[..8]);
    bytes[63] = 1;
    Digest(bytes)
}

fn full_block(
    height: u64,
    previous_hash: Digest,
    miner: u8,
    timestamp: u64,
    nonce: u64,
    state_root: Digest,
    transactions: Vec<SignedTransaction>,
) -> Block {
    Block::new(BlockData {
        height: Height(height),
        previous_hash,
        merkle_root: Digest([0; 64]),
        state_root,
        miner_address: address(miner),
        difficulty: 1,
        timestamp,
        nonce: Nonce(nonce),
        hash: block_hash(height, &previous_hash, miner, timestamp, nonce),
        size: 500,
        genesis: height == 0,
        coinbase: None,
        genesis_allocations: vec![],
        transactions,
    })
}

fn block(height: u64, previous_hash: Digest) -> Block {
    full_block(height, previous_hash, 9, 1_700_000_000 + height, 0, Digest([0; 64]), vec![])
}

fn signed_transaction(from: Address, to: Address, amount: u32, nonce: u64) -> SignedTransaction {
    let mut hash = [0u8; 64];
    hash[0] = from.0[0];
    hash[1] = to.0[0];
    hash[2] = amount as u8;
    hash[3] = nonce as u8;
    SignedTransaction {
        transaction: Transaction {
            from,
            to,
            amount: Amount(amount),
            fee: Amount(DEFAULT_TRANSACTION_FEE),
            nonce: Nonce(nonce),
            timestamp: 1_700_000_000,
        },
        hash: Digest(hash),
        size: 7_300,
        signed: Ok(()),
    }
}

fn ledger_of(accounts: Vec<Account>, blocks: Vec<Block>, state_root: Digest) -> Ledger {
    let mut map: OrderedMap<Address, Account> = OrderedMap::new();
    for account in accounts {
        map.insert(account.address, account);
    }
    let mut chain: OrderedMap<Height, Block> = OrderedMap::new();
    for block in blocks {
        chain.insert(block.height(), block);
    }
    Ledger { accounts: Arc::new(map), blocks: chain, state_root }
}

#[test]
fn stores_and_loads_blocks_by_height_and_hash() {
    let mut storage = Storage::temporary().unwrap();
    let block = block(0, Digest([0; 64]));
    let hash = block.hash();

    storage.save_block(&block).unwrap();

    assert_eq!(storage.load_block_by_height(Height(0)).unwrap(), Some(block.clone()));
    assert_eq!(storage.load_block_by_hash(&hash).unwrap(), Some(block));
}

#[test]
fn side_blocks_do_not_overwrite_canonical_height_index() {
    let mut storage = Storage::temporary().unwrap();
    let genesis = block(0, Digest([0; 64]));
    let canonical = block(1, genesis.hash());
    let side = full_block(1, genesis.hash(), 8, 1_700_000_101, 7, Digest([0; 64]), vec![]);
    let side_hash = side.hash();

    storage.save_block(&genesis).unwrap();
    storage.save_block(&canonical).unwrap();
    storage.save_side_block(&side);

    assert_eq!(storage.load_block_by_height(Height(1)).unwrap(), Some(canonical));
    assert_eq!(storage.load_block_by_hash(&side_hash).unwrap(), Some(side));
}

#[test]
fn indexes_transactions_by_hash_and_address() {
    let mut storage = Storage::temporary().unwrap();
    let transaction = signed_transaction(address(1), address(2), 10, 0);
    let tx_hash = transaction.hash();
    let sender = transaction.transaction.from;
    let receiver = transaction.transaction.to;
    let block = full_block(
        1,
        Digest([0; 64]),
        9,
        1_700_000_001,
        0,
        Digest([0; 64]),
        vec![transaction.clone()],
    );
    let block_hash = block.hash();

    storage.save_block(&block).unwrap();

    let (location, loaded) = storage.load_transaction(&tx_hash).unwrap().unwrap();
    assert_eq!(location.block_height, Height(1));
    assert_eq!(location.block_hash, block_hash);
    assert_eq!(location.tx_index, 0);
    assert_eq!(loaded, transaction);

    let sent = storage.load_address_transaction_locations(&sender).unwrap();
    assert_eq!(sent.len(), 1);
    assert_eq!(sent[0].tx_hash, tx_hash);
    assert!(sent[0].sent);

    let received = storage.load_address_transaction_locations(&receiver).unwrap();
    assert_eq!(received.len(), 1);
    assert_eq!(received[0].tx_hash, tx_hash);
    assert!(!received[0].sent);
}

#[test]
fn save_ledger_rebuilds_canonical_transaction_indexes() {
    let mut storage = Storage::temporary().unwrap();
    let genesis = block(0, Digest([0; 64]));
    let old_transaction = signed_transaction(address(1), address(2), 10, 0);
    let old_hash = old_transaction.hash();
    let old_block = full_block(
        1,
        genesis.hash(),
        9,
        1_700_000_001,
        1,
        Digest([0; 64]),
        vec![old_transaction],
    );
    let new_transaction = signed_transaction(address(1), address(3), 11, 0);
    let new_hash = new_transaction.hash();
    let new_block = full_block(
        1,
        genesis.hash(),
        8,
        1_700_000_002,
        2,
        Digest([0; 64]),
        vec![new_transaction.clone()],
    );

    let old_ledger = ledger_of(vec![], vec![genesis.clone(), old_block], Digest([0; 64]));
    storage.save_ledger(&old_ledger).unwrap();
    assert!(storage.load_transaction(&old_hash).unwrap().is_some());

    let new_ledger = ledger_of(vec![], vec![genesis, new_block.clone()], Digest([0; 64]));
    storage.save_ledger(&new_ledger).unwrap();

    assert!(storage.load_transaction(&old_hash).unwrap().is_none());
    let (location, loaded) = storage.load_transaction(&new_hash).unwrap().unwrap();
    assert_eq!(location.block_height, Height(1));
    assert_eq!(location.block_hash, new_block.hash());
    assert_eq!(loaded, new_transaction);
    assert_eq!(storage.load_block_by_height(Height(1)).unwrap(), Some(new_block));
}

#[test]
fn initializes_storage_version_for_empty_database() {
    let storage = Storage::temporary().unwrap();

    assert_eq!(storage.load_storage_version().unwrap(), Some(STORAGE_VERSION));
}

#[test]
fn rejects_unsupported_storage_version() {
    let mut storage = Storage::temporary().unwrap();
    storage.tables.storage_version = Some(borsh::to_vec(&STORAGE_VERSION.saturating_add(1)).unwrap());

    assert!(matches!(
        storage.load_ledger(Digest([0; 64])),
        Err(StorageError::UnsupportedStorageVersion {
            expected: STORAGE_VERSION,
            found
        }) if found == STORAGE_VERSION.saturating_add(1)
    ));
}

#[test]
fn rejects_existing_database_without_storage_version() {
    let mut storage = Storage::temporary().unwrap();
    storage.tables.storage_version = None;
    storage.save_block(&block(0, Digest([0; 64]))).unwrap();

    assert!(matches!(
        storage.load_ledger(Digest([0; 64])),
        Err(StorageError::MissingStorageVersion)
    ));
}

#[test]
fn rejects_block_loaded_from_wrong_height_key() {
    let mut storage = Storage::temporary().unwrap();
    let block = block(1, Digest([0; 64]));

    storage.tables.blocks_by_height.insert(Height(0), Ok(block));

    assert!(matches!(
        storage.load_block_by_height(Height(0)),
        Err(StorageError::Integrity("stored block height does not match height key"))
    ));
}

#[test]
fn rejects_block_loaded_from_wrong_hash_key() {
    let mut storage = Storage::temporary().unwrap();
    let block = block(0, Digest([0; 64]));
    let wrong_hash: BlockHash = Digest([7; 64]);

    storage.tables.blocks_by_hash.insert(wrong_hash, Ok(block));

    assert!(matches!(
        storage.load_block_by_hash(&wrong_hash),
        Err(StorageError::Integrity("stored block hash does not match hash key"))
    ));
}

#[test]
fn rejects_rows_that_do_not_decode() {
    let mut storage = Storage::temporary().unwrap();
    storage.tables.blocks_by_height.insert(Height(0), Err("Invalid bool".to_string()));
    storage.tables.accounts.insert(address(1), Err("first".to_string()));
    storage.tables.accounts.insert(address(2), Err("second".to_string()));
    storage.tables.genesis_accounts = Some(Err("no map".to_string()));
    storage.tables.tip_height = Some(vec![1, 2]);
    storage.tables.tip_hash = Some(vec![0; 64]);
    let words =
        |words: &str| StorageError::Serialization(SerializationError::Words(words.to_string()));
    let reason =
        |reason: &'static str| StorageError::Serialization(SerializationError::Reason(reason));

    assert_eq!(storage.load_block_by_height(Height(0)), Err(words("Invalid bool")));
    assert_eq!(storage.load_account(&address(2)), Err(words("second")));
    assert_eq!(storage.load_genesis_accounts(), Err(words("no map")));
    assert_eq!(storage.load_tip(), Err(reason("Unexpected length of input")));
    assert_eq!(
        storage.load_tip().unwrap_err().message(),
        "storage serialization error: Unexpected length of input"
    );
    storage.tables.tip_height = Some(vec![0; 9]);
    assert_eq!(storage.load_tip(), Err(reason("Not all bytes read")));
    storage.tables.tip_height = None;
    assert_eq!(storage.load_ledger(Digest([0; 64])).unwrap_err(), words("first"));
    storage.tables.storage_version = Some(vec![]);
    assert_eq!(
        storage.load_storage_version(),
        Err(reason("Unexpected length of input"))
    );
}

fn words_of(error: SerializationError) -> String {
    StorageError::Serialization(error)
        .message()
        .replacen("storage serialization error: ", "", 1)
}

#[test]
fn locations_are_read_as_they_are_written() {
    let location = TransactionLocation {
        block_height: Height(0x0102_0304_0506_0708),
        block_hash: Digest([5; 64]),
        tx_index: 0x090a_0b0c,
    };
    let row = (0x0102_0304_0506_0708_u64, [5_u8; 64], 0x090a_0b0c_u32);
    let bytes = encode_location(&location);
    assert_eq!(bytes, borsh::to_vec(&row).unwrap());
    assert_eq!(decode_location(&bytes), Ok(location));
    for size in [0, 8, 72, 75, 77, 200] {
        let bytes = vec![1; size];
        let refused = borsh::from_slice::<(u64, [u8; 64], u32)>(&bytes).unwrap_err().to_string();
        assert_eq!(decode_location(&bytes).map_err(words_of), Err(refused));
    }
}

#[test]
fn address_locations_are_read_as_they_are_written() {
    let location = AddressTransactionLocation {
        tx_hash: Digest([6; 64]),
        block_height: Height(0x0102_0304_0506_0708),
        block_hash: Digest([5; 64]),
        tx_index: 0x090a_0b0c,
        sent: true,
    };
    for sent in [true, false] {
        let location = AddressTransactionLocation { sent, ..location };
        let row =
            ([6_u8; 64], 0x0102_0304_0506_0708_u64, [5_u8; 64], 0x090a_0b0c_u32, sent);
        let bytes = encode_address_location(&location);
        assert_eq!(bytes, borsh::to_vec(&row).unwrap());
        assert_eq!(decode_address_location(&bytes), Ok(location));
    }
    for (size, byte) in [(0, 1), (140, 1), (142, 1), (200, 0), (141, 2), (142, 255), (140, 2)] {
        let bytes = vec![byte; size];
        let refused = borsh::from_slice::<([u8; 64], u64, [u8; 64], u32, bool)>(&bytes)
            .unwrap_err()
            .to_string();
        assert_eq!(decode_address_location(&bytes).map_err(words_of), Err(refused));
    }
}

#[test]
fn index_rows_that_do_not_decode_are_refused() {
    let mut storage = Storage::temporary().unwrap();
    storage.tables.tx_index.insert(Digest([1; 64]), vec![0; 75]);
    let place = AddressTxKey { address: address(3), height: Height(1), tx_index: 0, sent: true };
    storage.tables.address_tx_index.insert(place, vec![7; 141]);

    let short = StorageError::Serialization(SerializationError::Reason("Unexpected length of input"));
    assert_eq!(storage.load_transaction_location(&Digest([1; 64])), Err(short));
    assert_eq!(
        storage.load_transaction(&Digest([1; 64])).unwrap_err().message(),
        "storage serialization error: Unexpected length of input"
    );
    let error = storage.load_address_transaction_locations(&address(3)).unwrap_err();
    assert_eq!(error, StorageError::Serialization(SerializationError::InvalidBool(7)));
    assert_eq!(error.message(), "storage serialization error: Invalid bool representation: 7");
    assert_eq!(storage.load_address_transaction_locations(&address(4)), Ok(vec![]));
}

#[test]
fn keys_are_read_as_they_are_written() {
    for height in [Height(0), Height(7), Height(u64::MAX)] {
        assert_eq!(height_of_key(&height_key(height)), Some(height));
    }
    assert_eq!(height_of_key(&[0; 7]), None);
    assert_eq!(height_of_key(&[0; 9]), None);
    let place =
        AddressTxKey { address: address(3), height: Height(258), tx_index: 65_540, sent: true };
    let mut key = address_tx_key(&place.address, place.height, place.tx_index, place.sent);
    assert_eq!(address_tx_of_key(&key), Some(place));
    key[32] = 0;
    assert_eq!(address_tx_of_key(&key), Some(AddressTxKey { sent: false, ..place }));
    key[32] = 2;
    assert_eq!(address_tx_of_key(&key), None);
    key.pop();
    assert_eq!(address_tx_of_key(&key), None);
}

#[test]
fn stores_and_loads_accounts() {
    let mut storage = Storage::temporary().unwrap();
    let mut account = Account::new(address(1), Amount(25));
    account.nonce = Nonce(7);

    storage.save_account(&account);

    assert_eq!(storage.load_account(&address(1)).unwrap(), Some(account));
    assert_eq!(storage.load_account(&address(2)).unwrap(), None);
}

#[test]
fn stores_and_loads_chain_tip() {
    let mut storage = Storage::temporary().unwrap();
    let hash: BlockHash = Digest([7; 64]);

    assert_eq!(storage.load_tip().unwrap(), None);

    storage.save_tip(Height(3), &hash);

    assert_eq!(storage.load_tip().unwrap(), Some((Height(3), hash)));
    assert_eq!(storage.tables.tip_height, Some(borsh::to_vec(&3_u64).unwrap()));
}

#[test]
fn validates_stored_chain_integrity() {
    let mut storage = Storage::temporary().unwrap();
    let genesis = block(0, Digest([0; 64]));
    let next = block(1, genesis.hash());

    storage.save_block(&genesis).unwrap();
    storage.save_block(&next).unwrap();
    storage.save_tip(next.height(), &next.hash());

    assert!(storage.validate_chain_integrity().is_ok());
}

#[test]
fn rejects_chain_integrity_when_tip_block_is_missing() {
    let mut storage = Storage::temporary().unwrap();

    storage.save_tip(Height(3), &Digest([7; 64]));

    assert!(matches!(
        storage.validate_chain_integrity(),
        Err(StorageError::Integrity("stored tip height block is missing"))
    ));
}

#[test]
fn rejects_chain_integrity_when_previous_link_is_broken() {
    let mut storage = Storage::temporary().unwrap();
    let genesis = block(0, Digest([0; 64]));
    let next = block(1, Digest([9; 64]));

    storage.save_block(&genesis).unwrap();
    storage.save_block(&next).unwrap();
    storage.save_tip(next.height(), &next.hash());

    assert!(matches!(
        storage.validate_chain_integrity(),
        Err(StorageError::Integrity("stored chain block previous hash is broken"))
    ));
}

#[test]
fn stores_ledger_snapshot() {
    let mut storage = Storage::temporary().unwrap();
    let root = Digest([5; 64]);
    let genesis = full_block(0, Digest([0; 64]), 9, 1_700_000_000, 0, root, vec![]);
    let hash = genesis.hash();
    let ledger = ledger_of(
        vec![Account::new(address(1), Amount(100))],
        vec![genesis.clone()],
        root,
    );

    storage.save_ledger(&ledger).unwrap();

    assert_eq!(storage.load_account(&address(1)).unwrap().unwrap().balance, Amount(100));
    assert_eq!(storage.load_block_by_height(Height(0)).unwrap(), Some(genesis));
    assert_eq!(storage.load_tip().unwrap(), Some((Height(0), hash)));
}

#[test]
fn loads_ledger_snapshot() {
    let mut storage = Storage::temporary().unwrap();
    let genesis = block(0, Digest([0; 64]));
    let hash = genesis.hash();
    let ledger = ledger_of(
        vec![Account::new(address(1), Amount(100))],
        vec![genesis],
        Digest([0; 64]),
    );
    storage.save_ledger(&ledger).unwrap();

    let restored = storage.load_ledger(Digest([0; 64])).unwrap();

    assert_eq!(restored.account(&address(1)).map(|account| account.balance), Some(Amount(100)));
    assert_eq!(restored.tip_height(), Some(Height(0)));
    assert_eq!(restored.tip_hash(), Some(hash));
}

#[test]
fn stores_and_loads_genesis_accounts() {
    let mut storage = Storage::temporary().unwrap();
    let mut accounts: OrderedMap<Address, Account> = OrderedMap::new();
    accounts.insert(address(1), Account::new(address(1), Amount(100)));
    let accounts = Arc::new(accounts);

    storage.save_genesis_accounts(&accounts);

    assert_eq!(storage.load_genesis_accounts().unwrap(), Some(accounts));
}

#[test]
fn stores_and_loads_state_snapshot() {
    let mut storage = Storage::temporary().unwrap();
    let root = Digest([5; 64]);
    let genesis = full_block(0, Digest([0; 64]), 9, 1_700_000_000, 0, root, vec![]);
    let hash = genesis.hash();
    let ledger = ledger_of(
        vec![Account::new(address(1), Amount(100))],
        vec![genesis.clone()],
        root,
    );
    storage.save_block(&genesis).unwrap();
    storage.save_state_snapshot(&ledger);

    let snapshot = storage.load_state_snapshot(Height(0)).unwrap().unwrap();

    assert_eq!(snapshot.height, Height(0));
    assert_eq!(snapshot.block_hash, hash);
    assert_eq!(snapshot.state_root, ledger.state_root);
    assert_eq!(
        snapshot.accounts.get(&address(1)).map(|account| account.balance),
        Some(Amount(100))
    );
    assert!(snapshot.verify_state_root());
    assert!(
        snapshot.verify_against_block(&storage.load_block_by_height(Height(0)).unwrap().unwrap())
    );
}

#[test]
fn difficulty_window_uses_previous_block_for_single_block_interval() {
    let mut storage = Storage::temporary().unwrap();
    let genesis = block(0, Digest([0; 64]));
    let next = block(1, genesis.hash());

    storage.save_block(&genesis).unwrap();
    storage.save_block(&next).unwrap();

    assert_eq!(storage.difficulty_window(Height(0), 1).unwrap(), None);
    assert_eq!(
        storage.difficulty_window(Height(1), 1).unwrap(),
        Some((genesis.timestamp(), next.timestamp(), 1, next.difficulty()))
    );
}

#[test]
fn difficulty_window_uses_configured_block_interval() {
    let mut storage = Storage::temporary().unwrap();
    let mut previous_hash = Digest([0; 64]);

    for height in 0..=10 {
        let block = block(height, previous_hash);
        previous_hash = block.hash();
        storage.save_block(&block).unwrap();
    }

    assert_eq!(storage.difficulty_window(Height(9), 10).unwrap(), None);
    assert_eq!(
        storage.difficulty_window(Height(10), 10).unwrap(),
        Some((
            block(0, Digest([0; 64])).timestamp(),
            block(10, Digest([0; 64])).timestamp(),
            10,
            block(10, Digest([0; 64])).difficulty()
        ))
    );
}

#[test]
fn rejects_tampered_state_snapshot_root() {
    let mut storage = Storage::temporary().unwrap();
    let mut accounts: OrderedMap<Address, Account> = OrderedMap::new();
    accounts.insert(address(1), Account::new(address(1), Amount(100)));
    let snapshot = StateSnapshot {
        height: Height(0),
        block_hash: Digest([1; 64]),
        state_root: Digest([9; 64]),
        accounts: Arc::new(accounts),
        accounts_root: Digest([8; 64]),
    };

    storage.tables.state_snapshots.insert(Height(0), Ok(snapshot));

    assert!(matches!(
        storage.load_state_snapshot(Height(0)),
        Err(StorageError::Integrity("stored state snapshot root does not match accounts"))
    ));
}

#[test]
fn changes_name_the_places_that_were_written() {
    let mut storage = Storage::open(Tables::new()).unwrap();
    assert_eq!(storage.take_changes(), vec![Change::StorageVersion]);

    storage.save_tip(Height(3), &Digest([7; 64]));
    let changes = storage.take_changes();
    assert!(changes.contains(&Change::TipHeight));
    assert!(changes.contains(&Change::TipHash));
    assert!(storage.take_changes().is_empty());
}

#[test]
fn keys_are_the_bytes_that_rows_lie_under() {
    assert_eq!(height_key(Height(0x0102)), vec![0, 0, 0, 0, 0, 0, 1, 2]);
    let key = address_tx_key(&address(3), Height(5), 7, true);
    assert_eq!(key.len(), 33);
    assert_eq!(key[..20], [3; 20]);
    assert_eq!(key[20..], [0, 0, 0, 0, 0, 0, 0, 5, 0, 0, 0, 7, 1]);
}

#[test]
fn caches_accounts_and_blocks() {
    let mut cache = CoreCache::new();
    let account = Account::new(address(1), Amount(100));
    let block = block(0, Digest([0; 64]));
    let block_hash = block.hash();

    cache.insert_account(account.clone());
    cache.insert_block(block.clone());

    assert_eq!(cache.account(&address(1)), Some(account));
    assert_eq!(cache.block_by_height(&Height(0)), Some(block.clone()));
    assert_eq!(cache.block_by_hash(&block_hash), Some(block));
    assert_eq!(cache.tip_height(), Some(Height(0)));
    assert_eq!(cache.tip_hash(), Some(block_hash));

    cache.clear();
    assert_eq!(cache.account(&address(1)), None);
    assert_eq!(cache.tip_hash(), None);
}

#[test]
fn builds_from_ledger_snapshot() {
    let block = block(0, Digest([0; 64]));
    let block_hash = block.hash();
    let ledger = ledger_of(
        vec![Account::new(address(1), Amount(100))],
        vec![block],
        Digest([0; 64]),
    );

    let cache = CoreCache::from_ledger(&ledger);

    assert_eq!(cache.account(&address(1)).unwrap().balance, Amount(100));
    assert_eq!(cache.tip_height(), Some(Height(0)));
    assert_eq!(cache.tip_hash(), Some(block_hash));
}
