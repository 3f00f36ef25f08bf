use paqus_node::parse::{
    address_to_string, bytes_to_hex, parse_address_hex, parse_hash_hex,
    transaction_bytes_from_hex,
};
use paqus_node::params::BASE_FEE;
use paqus_node::types::{Address, Amount, Digest, Nonce, SignedTransaction, Transaction};
use paqus_node::wallet::{
    listed_wallets, matching_wallet, resolve_wallet_nonce, shown_transaction, submit_body,
    wallet_file_keys, wallet_file_text, PendingNonce, Signature, Wallet, WalletEntry, WalletError,
};

fn wallet() -> Wallet {
    Wallet { public_key: vec![1, 2, 3], secret_key: vec![4, 5], address: Address([7; 20]) }
}

fn receiver() -> Address {
    Address([2; 20])
}

fn transaction(from: Address) -> Transaction {
    Transaction {
        from,
        to: receiver(),
        amount: Amount(10),
        fee: Amount(BASE_FEE),
        nonce: Nonce(0),
        timestamp: 1_700_000_000,
    }
}

fn signature() -> Signature {
    Signature { hash: Digest([8; 64]), size: 7_300, signed: Ok(()) }
}

#[test]
fn generates_wallet_with_address() {
    let wallet = wallet();
    let wallet_address = wallet.wallet_address();

    assert_eq!(wallet_address.len(), 40);
    assert_eq!(parse_address_hex(&wallet_address), Ok(wallet.address));
}

#[test]
fn restores_wallet_from_secret_key() {
    let wallet = wallet();
    let keys = wallet_file_keys(&wallet.wallet_address(), &"0405".to_string(), 2).unwrap();
    assert_eq!(keys, (wallet.address, wallet.secret_key.clone()));
    let restored = matching_wallet(wallet.clone(), keys.0).unwrap();

    assert_eq!(restored.public_key, wallet.public_key);
    assert_eq!(restored.address, wallet.address);
}

#[test]
fn a_wallet_file_has_to_fit_together() {
    assert_eq!(
        matching_wallet(wallet(), Address([8; 20])),
        Err("wallet address does not match secret key".to_string())
    );
    assert_eq!(
        wallet_file_keys(&"07".to_string(), &"0405".to_string(), 2),
        Err("address has invalid length".to_string())
    );
    assert_eq!(
        wallet_file_keys(&wallet().wallet_address(), &"04".to_string(), 2),
        Err("secret key has invalid length".to_string())
    );
    assert_eq!(
        wallet_file_keys(&wallet().wallet_address(), &"xy".to_string(), 1),
        Err("invalid secret key hex".to_string())
    );
}

#[test]
fn signs_transaction_from_wallet_address() {
    let wallet = wallet();

    let signed = wallet.sign_transaction(transaction(wallet.address), signature()).unwrap();

    assert_eq!(signed.transaction.from, wallet.address);
    assert_eq!(signed.hash(), Digest([8; 64]));
    assert_eq!(signed.validate_signed(), Ok(()));
}

#[test]
fn rejects_transaction_from_different_address() {
    let wallet = wallet();
    let transaction = transaction(Address([9; 20]));

    assert_eq!(
        wallet.sign_transaction(transaction, signature()),
        Err(WalletError::SenderAddressMismatch)
    );
    assert_eq!(
        WalletError::SenderAddressMismatch.message(),
        "transaction sender does not match wallet address"
    );
}

#[test]
fn a_wallet_file_holds_address_and_keys() {
    let wallet = wallet();
    let mut members = serde_json::Map::new();
    for (key, value) in [
        ("address", wallet.wallet_address()),
        ("public_key", "010203".to_string()),
        ("secret_key", "0405".to_string()),
    ] {
        members.insert(key.to_string(), serde_json::Value::String(value));
    }
    let expected = serde_json::to_string_pretty(&serde_json::Value::Object(members)).unwrap();
    assert_eq!(wallet_file_text(&wallet), expected);
}

fn entry(path: &str) -> WalletEntry {
    WalletEntry { path: path.to_string(), wallet: wallet() }
}

#[test]
fn lists_wallets_by_path_once_each() {
    let found = vec![entry("b.json"), entry("a.json"), entry("\u{e9}.json"), entry("a.json"), entry("B.json")];
    let mut paths: Vec<String> = found.iter().map(|entry| entry.path.clone()).collect();
    paths.sort();
    paths.dedup();
    let listed: Vec<String> = listed_wallets(found).into_iter().map(|entry| entry.path).collect();
    assert_eq!(listed, paths);
    assert_eq!(listed, vec!["B.json", "a.json", "b.json", "\u{e9}.json"]);
}

fn pending(from: &Address, nonce: u64) -> PendingNonce {
    PendingNonce { from: address_to_string(from), nonce }
}

#[test]
fn resolves_the_next_nonce() {
    let own = Address([7; 20]);
    let other = Address([8; 20]);
    assert_eq!(resolve_wallet_nonce(&own, None, &vec![]), 0);
    assert_eq!(resolve_wallet_nonce(&own, Some(5), &vec![]), 5);
    let list = vec![
        pending(&own, 7),
        pending(&own, 5),
        pending(&other, 8),
        pending(&own, 6),
        pending(&own, 6),
        pending(&own, 9),
        pending(&own, 1),
    ];
    assert_eq!(resolve_wallet_nonce(&own, Some(5), &list), 8);
    assert_eq!(resolve_wallet_nonce(&own, Some(2), &list), 2);
    assert_eq!(resolve_wallet_nonce(&other, Some(8), &list), 9);
    assert_eq!(
        resolve_wallet_nonce(&own, Some(u64::MAX), &vec![pending(&own, u64::MAX)]),
        u64::MAX
    );
}

#[test]
fn hexadecimal_digits_are_read_back() {
    let address = Address([0xab; 20]);
    assert_eq!(address_to_string(&address), "abababababababababababababababababababab");
    assert_eq!(parse_address_hex("ABABABABABABABABABABABABABABABABABABABAB"), Ok(address));
    assert_eq!(bytes_to_hex(&[0, 15, 16, 255]), "000f10ff");
    assert_eq!(transaction_bytes_from_hex("000f10FF"), Ok(vec![0, 15, 16, 255]));
    assert_eq!(transaction_bytes_from_hex("000"), Err("invalid transaction hex".to_string()));
    assert_eq!(parse_hash_hex("00"), Err("hash has invalid length".to_string()));
    assert_eq!(parse_hash_hex("0"), Err("invalid hash hex".to_string()));
    assert_eq!(parse_hash_hex(&"07".repeat(64)), Ok(Digest([7; 64])));
}

#[test]
fn shows_a_signed_transaction() {
    let signed = SignedTransaction {
        transaction: transaction(Address([7; 20])),
        hash: Digest([8; 64]),
        size: 7_300,
        signed: Ok(()),
    };
    assert_eq!(submit_body("c0ffee"), "{\"tx\":\"c0ffee\"}");
    assert_eq!(
        shown_transaction(&signed, "c0ffee"),
        format!(
            "{{\"tx\":\"c0ffee\",\"hash\":\"{}\",\"from\":\"{}\",\"to\":\"{}\",\"amount\":10,\"fee\":2,\"nonce\":0,\"timestamp\":1700000000}}",
            "08".repeat(64),
            "07".repeat(20),
            "02".repeat(20)
        )
    );
}
