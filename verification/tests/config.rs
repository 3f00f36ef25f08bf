use paqus_node::cli::{
    answer_or, is_yes, menu_choice, node_command, parse_command, pick_address, pick_wallet,
    wallet_command, Command, MenuChoice,
};
use paqus_node::params::{
    ChainParams, DEFAULT_MARKET_FEE, DEFAULT_MIN_RELAY_FEE, LOW_FEE_EXPIRY_SECS,
    MAX_MEMPOOL_TXS, MEMPOOL_EXPIRY_SECS,
};
use paqus_node::payment::{transaction_of, wallet_pay_command, wallet_send_command, Payment};
use paqus_node::peers::SocketAddress;
use paqus_node::run_config::{
    config_path_arg, is_loopback, parse_run_config, trimmed_args, AddressText, Arg, OneOrMany,
    RunConfig, RunConfigFile,
};
use paqus_node::types::{Address, Amount, Nonce, Transaction};
use paqus_node::wallet::Wallet;

fn params() -> ChainParams {
    ChainParams {
        protocol_version: 1,
        network_magic: [1, 2, 3, 4],
        block_time: 60,
        difficulty_start: 1,
        difficulty_adjustment_interval: 10,
        confirmation_depth: 1,
        max_block_txs: 100,
        secret_key_size: 4,
    }
}

fn strings(values: &[&str]) -> Vec<String> {
    values.iter().map(|value| value.to_string()).collect()
}

fn socket(text: &str) -> Result<SocketAddress, String> {
    let refusal = "invalid socket address syntax".to_string();
    let six = |octets: [u8; 16], port: u16| {
        Ok(SocketAddress { v6: true, octets, port, flow: 0, scope: 0 })
    };
    let mut last = [0u8; 16];
    last[15] = 1;
    match text {
        "[::]:5555" => return six([0; 16], 5555),
        "[::]:1" => return six([0; 16], 1),
        "[::1]:1" => return six(last, 1),
        "[2404:8000:1044:4d8:822b:f9ff:fee2:365]:5555" => return six([1; 16], 5555),
        "[2404:8000:1044:4d8:1202:b5ff:feb0:7020]:5555" => return six([2; 16], 5555),
        _ => {}
    }
    let (host, port) = text.split_once(':').ok_or(refusal.clone())?;
    let mut octets = [0u8; 16];
    let parts: Vec<&str> = host.split('.').collect();
    if parts.len() != 4 {
        return Err(refusal);
    }
    for (i, part) in parts.iter().enumerate() {
        octets[i] = part.parse().map_err(|_| refusal.clone())?;
    }
    let port = port.parse().map_err(|_| refusal)?;
    Ok(SocketAddress { v6: false, octets, port, flow: 0, scope: 0 })
}

fn wallet() -> Wallet {
    Wallet { public_key: vec![1, 2], secret_key: vec![9, 9, 9, 9], address: Address([5; 20]) }
}

fn args(values: &[&str]) -> Vec<Arg> {
    let texts = trimmed_args(&strings(values));
    let mut out = vec![];
    for (i, text) in texts.iter().enumerate() {
        let names_wallet = i > 0 && texts[i - 1] == "--wallet";
        let loaded = if text == "missing.json" {
            Err("failed to read wallet file missing.json: gone".to_string())
        } else {
            Ok(wallet())
        };
        out.push(Arg {
            text: text.clone(),
            socket: socket(text),
            wallet: if names_wallet { Some(loaded) } else { None },
        });
    }
    out
}

fn parse(values: &[&str]) -> Result<RunConfig, String> {
    parse_run_config(None, &args(values), &params())
}

#[test]
fn parse_run_config_accepts_pasted_flags_with_surrounding_spaces() {
    let config = parse(&[
        "--config",
        "/tmp/paqus-node-missing-test-config.json",
        "./data/paqus",
        " --listen",
        "0.0.0.0:5555",
        " --listen",
        "[::]:5555",
        " --rpc-listen",
        "127.0.0.1:6666",
        " --public-addr",
        "[2404:8000:1044:4d8:822b:f9ff:fee2:365]:5555",
        " --peer",
        "[2404:8000:1044:4d8:1202:b5ff:feb0:7020]:5555",
        " --peer",
        "182.253.148.123:5555",
        " --mine",
        " --mine-attempts",
        "100000",
    ])
    .expect("pasted flags should parse");

    assert_eq!(config.db_path, "./data/paqus");
    assert_eq!(config.listen_addrs.len(), 2);
    assert_eq!(config.peers.len(), 2);
    assert_eq!(config.public_addrs.len(), 1);
    assert_eq!(config.rpc_addr, socket("127.0.0.1:6666").unwrap());
    assert!(config.mine);
    assert_eq!(config.mine_attempts, 100000);
}

#[test]
fn runs_by_its_defaults() {
    let config = parse(&[]).unwrap();
    assert_eq!(config.db_path, "./data/paqus");
    assert_eq!(config.listen_addrs, vec![socket("0.0.0.0:5555").unwrap()]);
    assert_eq!(config.rpc_addr, socket("127.0.0.1:6666").unwrap());
    assert_eq!(config.peers_file, Some("./data/paqus/peers.json".to_string()));
    assert_eq!(config.gateway_url, None);
    assert_eq!(config.gateway_heartbeat, 60);
    assert_eq!(config.shutdown_file, "./data/paqus/STOP");
    assert_eq!(config.max_peers, 128);
    assert_eq!(config.min_relay_fee, DEFAULT_MIN_RELAY_FEE);
    assert_eq!(config.market_fee, DEFAULT_MARKET_FEE);
    assert_eq!(config.low_fee_expiry, LOW_FEE_EXPIRY_SECS);
    assert_eq!(config.mempool_expiry, MEMPOOL_EXPIRY_SECS);
    assert_eq!(config.miner_address, Address([9; 20]));
    assert!(!config.mine);
    assert_eq!(config.mine_interval, 60);
    assert_eq!(config.mine_attempts, 10_000);
    let pool = config.mempool_config();
    assert_eq!(pool.max_transactions, MAX_MEMPOOL_TXS);
    assert_eq!(pool.low_fee_ttl_secs, LOW_FEE_EXPIRY_SECS);
    assert_eq!(pool.transaction_ttl_secs, MEMPOOL_EXPIRY_SECS);
}

#[test]
fn takes_every_option() {
    let config = parse(&[
        "--db-path",
        "elsewhere",
        "--peers-file",
        "peers.txt",
        "--gateway-url",
        "gate:80",
        "--gateway-heartbeat-secs",
        "0",
        "--shutdown-file",
        "halt",
        "--max-peers",
        "0",
        "--min-relay-fee",
        "0",
        "--market-fee",
        "7",
        "--low-fee-expiry-secs",
        "900",
        "--mempool-expiry-secs",
        "600",
        "--miner",
        "0101010101010101010101010101010101010101",
        "--miner-secret-key",
        "0a0b0c0d",
        "--mine-interval-secs",
        "5",
    ])
    .unwrap();
    assert_eq!(config.db_path, "elsewhere");
    assert_eq!(config.peers_file, Some("peers.txt".to_string()));
    assert_eq!(config.gateway_url, Some("gate:80".to_string()));
    assert_eq!(config.gateway_heartbeat, 1);
    assert_eq!(config.shutdown_file, "halt");
    assert_eq!(config.max_peers, 1);
    assert_eq!(config.min_relay_fee, 1);
    assert_eq!(config.market_fee, 7);
    // Cheap transactions do not outlast the others.
    assert_eq!(config.low_fee_expiry, 600);
    assert_eq!(config.mempool_expiry, 600);
    assert_eq!(config.miner_address, Address([1; 20]));
    assert_eq!(config.miner_secret_key, Some(vec![10, 11, 12, 13]));
    assert_eq!(config.mine_interval, 5);
}

#[test]
fn raises_the_market_fee_to_the_relay_fee() {
    let config = parse(&["--min-relay-fee", "9"]).unwrap();
    assert_eq!(config.min_relay_fee, 9);
    assert_eq!(config.market_fee, 9);
}

#[test]
fn names_what_is_wrong_with_an_argument() {
    let cases: [(&[&str], &str); 18] = [
        (&["--config"], "missing value for --config"),
        (&["--db"], "missing value for --db"),
        (&["--listen"], "missing value for --listen"),
        (&["--listen", "here"], "invalid socket address for --listen: invalid socket address syntax"),
        (&["--rpc-listen", "here"], "invalid socket address for --rpc-listen: invalid socket address syntax"),
        (&["--peer", "1.2.3.4"], "invalid socket address for --peer: invalid socket address syntax"),
        (&["--public-addr"], "missing value for --public-addr"),
        (&["--max-peers", "many"], "invalid max peers: invalid digit found in string"),
        (&["--min-relay-fee", "-1"], "invalid min relay fee: invalid digit found in string"),
        (&["--market-fee", "5000000000"], "invalid market fee: number too large to fit in target type"),
        (&["--low-fee-expiry-secs", ""], "invalid low fee expiry: cannot parse integer from empty string"),
        (&["--mine-attempts"], "missing value for --mine-attempts"),
        (&["--miner", "zz"], "invalid address hex"),
        (&["--miner", "0102"], "address has invalid length"),
        (&["--miner-secret-key", "01"], "secret key has invalid length"),
        (&["--wallet", "missing.json"], "failed to read wallet file missing.json: gone"),
        (&["--premine"], "premine address is fixed by protocol and cannot be overridden"),
        (&["a", "b"], "unknown node run option `b`"),
    ];
    for (values, words) in cases {
        assert_eq!(parse(values), Err(words.to_string()));
    }
    assert_eq!(parse(&["--fast"]), Err("unknown node run option `--fast`".to_string()));
}

#[test]
fn a_wallet_names_the_miner() {
    let config = parse(&["--wallet", "wallet.json", "--mine"]).unwrap();
    assert_eq!(config.miner_address, Address([5; 20]));
    assert_eq!(config.miner_secret_key, Some(vec![9, 9, 9, 9]));
}

#[test]
fn addresses_come_once() {
    let config = parse(&["--listen", "1.2.3.4:5", "--listen", "1.2.3.4:5", "--listen", "1.2.3.4:6"])
        .unwrap();
    assert_eq!(config.listen_addrs.len(), 2);
    let mut config = parse(&["--peer", "1.2.3.4:5", "--max-peers", "2"]).unwrap();
    config.add_peers(vec![
        socket("1.2.3.4:5").unwrap(),
        socket("1.2.3.4:6").unwrap(),
        socket("1.2.3.4:7").unwrap(),
    ]);
    assert_eq!(
        config.peers,
        vec![socket("1.2.3.4:5").unwrap(), socket("1.2.3.4:6").unwrap()]
    );
    assert_eq!(config.check_listen_addrs(), Ok(()));
    config.listen_addrs.clear();
    assert_eq!(
        config.check_listen_addrs(),
        Err("at least one --listen address is required".to_string())
    );
}

fn address_text(text: &str) -> AddressText {
    AddressText { text: text.to_string(), socket: socket(text) }
}

fn file() -> RunConfigFile {
    RunConfigFile {
        db_path: "from-file".to_string(),
        listen_addr: OneOrMany::One(address_text("1.1.1.1:1")),
        rpc_addr: socket("2.2.2.2:2"),
        peers: vec![address_text("3.3.3.3:3")],
        peers_file: None,
        gateway_url: Some("gate".to_string()),
        public_addr: Some(OneOrMany::Many(vec![address_text("4.4.4.4:4"), address_text("4.4.4.4:4")])),
        gateway_heartbeat_secs: 0,
        shutdown_file: "halt".to_string(),
        max_peers: 0,
        min_relay_fee: Some(0),
        market_fee: None,
        low_fee_expiry_secs: Some(0),
        mempool_expiry_secs: None,
        wallet: Some(Ok(wallet())),
        miner_address: Some("0202020202020202020202020202020202020202".to_string()),
        miner_secret_key: None,
        mine: true,
        mine_interval_secs: 0,
        mine_attempts: 3,
    }
}

#[test]
fn a_file_comes_before_the_arguments() {
    let config = parse_run_config(Some(file()), &args(&["--db", "from-args"]), &params()).unwrap();
    assert_eq!(config.db_path, "from-args");
    assert_eq!(config.listen_addrs, vec![socket("1.1.1.1:1").unwrap()]);
    assert_eq!(config.rpc_addr, socket("2.2.2.2:2").unwrap());
    assert_eq!(config.peers, vec![socket("3.3.3.3:3").unwrap()]);
    assert_eq!(config.public_addrs, vec![socket("4.4.4.4:4").unwrap()]);
    assert_eq!(config.gateway_heartbeat, 1);
    assert_eq!(config.max_peers, 1);
    assert_eq!(config.min_relay_fee, 1);
    assert_eq!(config.market_fee, DEFAULT_MARKET_FEE);
    assert_eq!(config.low_fee_expiry, 1);
    assert_eq!(config.mempool_expiry, MEMPOOL_EXPIRY_SECS);
    assert_eq!(config.miner_address, Address([2; 20]));
    assert_eq!(config.miner_secret_key, Some(vec![9, 9, 9, 9]));
    assert!(config.mine);
    assert_eq!(config.mine_interval, 0);
    assert_eq!(config.mine_attempts, 3);
}

#[test]
fn names_what_is_wrong_in_a_file() {
    let refused = |file: RunConfigFile| parse_run_config(Some(file), &vec![], &params()).unwrap_err();
    let mut bad = file();
    bad.listen_addr = OneOrMany::Many(vec![address_text("1.1.1.1:1"), address_text("x")]);
    assert_eq!(refused(bad), "invalid listen_addr `x` in config: invalid socket address syntax");
    let mut bad = file();
    bad.rpc_addr = socket("y");
    assert_eq!(refused(bad), "invalid rpc_addr in config: invalid socket address syntax");
    let mut bad = file();
    bad.peers.push(address_text("z"));
    assert_eq!(refused(bad), "invalid peer `z` in config: invalid socket address syntax");
    let mut bad = file();
    bad.public_addr = Some(OneOrMany::One(address_text("w")));
    assert_eq!(refused(bad), "invalid public_addr `w` in config: invalid socket address syntax");
    let mut bad = file();
    bad.wallet = Some(Err("no wallet".to_string()));
    assert_eq!(refused(bad), "no wallet");
    let mut bad = file();
    bad.miner_address = Some("0".to_string());
    assert_eq!(refused(bad), "invalid address hex");
    let mut bad = file();
    bad.miner_secret_key = Some("00".to_string());
    assert_eq!(refused(bad), "secret key has invalid length");
}

#[test]
fn finds_the_configuration_file_among_the_arguments() {
    assert_eq!(config_path_arg(&strings(&["a", "--config", "b"])), Some("b".to_string()));
    assert_eq!(config_path_arg(&strings(&["--config"])), None);
    assert_eq!(
        config_path_arg(&strings(&["--config", "--config", "c"])),
        Some("--config".to_string())
    );
}

#[test]
fn knows_addresses_of_this_machine() {
    for (text, local) in [
        ("127.0.0.1:1", true),
        ("127.9.9.9:1", true),
        ("[::1]:1", true),
        ("0.0.0.0:1", false),
        ("[::]:1", false),
        ("10.0.0.1:1", false),
    ] {
        assert_eq!(is_loopback(&socket(text).unwrap()), local);
    }
}

const TO: &str = "0303030303030303030303030303030303030303";

fn payment(nonce: Option<u64>, fee: u32, submit: bool) -> Payment {
    Payment {
        wallet_path: "wallet.json".to_string(),
        to: Address([3; 20]),
        amount: Amount(10),
        fee: Amount(fee),
        nonce: nonce.map(Nonce),
        rpc_addr: "127.0.0.1:6666".to_string(),
        submit,
    }
}

#[test]
fn a_payment_becomes_a_transaction() {
    let sender = Address([4; 20]);
    let asked = payment(Some(9), 3, true);
    let expected = Transaction {
        from: sender,
        to: asked.to,
        amount: asked.amount,
        fee: asked.fee,
        nonce: Nonce(9),
        timestamp: 77,
    };
    assert_eq!(transaction_of(&asked, sender, Nonce(5), 77), expected);
    let asked = payment(None, 3, true);
    assert_eq!(
        transaction_of(&asked, sender, Nonce(5), 77),
        Transaction { nonce: Nonce(5), ..expected }
    );
}

#[test]
fn reads_payments() {
    assert_eq!(wallet_pay_command(&strings(&[TO, "10"])), Ok(payment(None, 2, true)));
    assert_eq!(
        wallet_send_command(&strings(&[TO, "10", "--nonce", "4", "--fee", "5"])),
        Ok(payment(Some(4), 5, true))
    );
    let mut long = payment(None, 2, false);
    long.wallet_path = "w".to_string();
    assert_eq!(
        wallet_send_command(&strings(&["--wallet", "w", "--to", TO, "--amount", "10"])),
        Ok(long)
    );
    let mut far = payment(Some(0), 2, true);
    far.wallet_path = "w".to_string();
    far.rpc_addr = "1.2.3.4:5".to_string();
    assert_eq!(
        wallet_send_command(&strings(&[
            "--submit", "--rpc-addr", "1.2.3.4:5", "--nonce", "0", "--wallet", "w", "--to", TO,
            "--amount", "10"
        ])),
        Ok(far)
    );
}

#[test]
fn names_what_is_wrong_with_a_payment() {
    let pay: [(&[&str], &str); 8] = [
        (&[], "missing address hex"),
        (&[TO], "missing value for amount"),
        (&[TO, "x"], "invalid amount for amount: invalid digit found in string"),
        (&[TO, "10", "--wallet"], "missing value for --wallet"),
        (&[TO, "10", "--rpc"], "missing value for --rpc"),
        (&[TO, "10", "--fee"], "missing value for --fee"),
        (&[TO, "10", "--nonce", "1"], "unknown wallet pay option `--nonce`"),
        (&[TO, "10", "--submit"], "unknown wallet pay option `--submit`"),
    ];
    for (values, words) in pay {
        assert_eq!(wallet_pay_command(&strings(values)), Err(words.to_string()));
    }
    let send: [(&[&str], &str); 7] = [
        (&[], "missing --wallet path"),
        (&["--wallet"], "missing --wallet path"),
        (&["--wallet", "w"], "missing --to address"),
        (&["--wallet", "w", "--to", TO], "missing --amount"),
        (&["--to"], "missing address hex"),
        (&["--nonce", "x"], "invalid nonce: invalid digit found in string"),
        (&["--what"], "unknown wallet send option `--what`"),
    ];
    for (values, words) in send {
        assert_eq!(wallet_send_command(&strings(values)), Err(words.to_string()));
    }
}

#[test]
fn reads_command_lines() {
    let key_size = params().secret_key_size;
    let read = |values: &[&str]| parse_command(&strings(values), key_size);
    assert_eq!(read(&[]), Ok(Command::Menu));
    assert_eq!(read(&["cli"]), Ok(Command::Menu));
    assert_eq!(read(&["--help", "x"]), Ok(Command::Help));
    assert_eq!(read(&["-V"]), Ok(Command::Version));
    assert_eq!(
        read(&["dance"]),
        Err("unknown command `dance`. Try `paqus --help`.".to_string())
    );
    assert_eq!(
        read(&["wallet", "new", "--show-secret", "w.json"]),
        Ok(Command::WalletNew { show_secret: true, output: Some("w.json".to_string()) })
    );
    assert_eq!(
        read(&["wallet", "address", "01020304"]),
        Ok(Command::WalletAddress { secret_key: vec![1, 2, 3, 4] })
    );
    assert_eq!(read(&["wallet", "address"]), Err("missing secret key hex".to_string()));
    assert_eq!(
        read(&["wallet", "balance", TO]),
        Ok(Command::WalletBalance {
            address: Address([3; 20]),
            db_path: "./data/paqus".to_string()
        })
    );
    assert_eq!(
        read(&["wallet", "pay", TO, "10"]),
        Ok(Command::WalletPay(payment(None, 2, true)))
    );
    assert_eq!(
        read(&["wallet", "send", TO, "10", "--nonce", "4", "--fee", "5"]),
        Ok(Command::WalletPay(payment(Some(4), 5, true)))
    );
    assert_eq!(
        wallet_command(&vec![], key_size),
        Err("usage: paqus wallet <new|address|balance|pay|send> [options]".to_string())
    );
    assert_eq!(
        read(&["node", "init", "db", TO]),
        Ok(Command::NodeInit { db_path: "db".to_string(), miner_address: Address([3; 20]) })
    );
    assert_eq!(
        read(&["node", "init", "db", "nobody"]),
        Ok(Command::NodeInit { db_path: "db".to_string(), miner_address: Address([9; 20]) })
    );
    assert_eq!(
        read(&["node", "init", "db", TO, TO]),
        Err("premine address is fixed by protocol and cannot be overridden".to_string())
    );
    assert_eq!(
        read(&["node", "run", "--mine", "x"]),
        Ok(Command::NodeRun { args: strings(&["--mine", "x"]) })
    );
    assert_eq!(
        read(&["node", "config"]),
        Ok(Command::NodeConfig { path: "./data/paqus/node.json".to_string() })
    );
    assert_eq!(read(&["node", "libp2p-info"]), Ok(Command::NodeLibp2pInfo));
    assert_eq!(read(&["node", "info"]), Ok(Command::NodeInfo));
    assert_eq!(
        node_command(&strings(&["fly"])),
        Err("usage: paqus node <info|libp2p-info|init|config|run> [options]".to_string())
    );
}

#[test]
fn reads_answers() {
    assert_eq!(menu_choice("1"), Some(MenuChoice::CreateWallet));
    assert_eq!(menu_choice("8"), Some(MenuChoice::Exit));
    assert_eq!(menu_choice("9"), None);
    assert_eq!(answer_or("".to_string(), "wallet.json"), "wallet.json");
    assert_eq!(answer_or("x".to_string(), "wallet.json"), "x");
    for yes in ["y", "Y", "yes", "YES", "yEs"] {
        assert!(is_yes(yes));
    }
    for no in ["", "n", "ye", "yess", "no"] {
        assert!(!is_yes(no));
    }
}

#[test]
fn picks_by_number() {
    assert_eq!(pick_address("2", 3), Ok(1));
    assert_eq!(pick_address("0", 3), Err("invalid selection".to_string()));
    assert_eq!(pick_address("4", 3), Err("invalid selection".to_string()));
    assert_eq!(
        pick_address("x", 3),
        Err("invalid selection: invalid digit found in string".to_string())
    );
    assert_eq!(pick_wallet("1", 3), Ok(Some(0)));
    assert_eq!(pick_wallet("0", 3), Ok(Some(0)));
    assert_eq!(pick_wallet("4", 3), Ok(None));
    assert_eq!(pick_wallet("5", 3), Err("invalid selection".to_string()));
}
