//! How a node is told to run: by a file, and by its arguments.

use crate::mempool::MempoolConfig;
use crate::params::{
    ChainParams, DEFAULT_MARKET_FEE, DEFAULT_MIN_RELAY_FEE, LOW_FEE_EXPIRY_SECS, MAX_MEMPOOL_BYTES,
    MAX_MEMPOOL_TXS, MEMPOOL_EXPIRY_SECS, MIN_RELAY_FEE_FLOOR,
};
use crate::parse;
use crate::peers::{self, SocketAddress};
use crate::text;
use crate::types::Address;
use crate::wallet::Wallet;
use vstd::prelude::*;

verus! {

/// An argument: its text, the socket address that it spells or the words that
/// refuse it as one, and, where it names a wallet file, what that file holds or
/// why it cannot be used.
#[derive(Debug, PartialEq, Eq)]
pub struct Arg {
    pub text: String,
    pub socket: Result<SocketAddress, String>,
    pub wallet: Option<Result<Wallet, String>>,
}

/// How a node runs. Times are in seconds.
#[derive(Clone, Debug, PartialEq, Eq)]
pub struct RunConfig {
    pub db_path: String,
    pub listen_addrs: Vec<SocketAddress>,
    pub rpc_addr: SocketAddress,
    pub peers: Vec<SocketAddress>,
    pub peers_file: Option<String>,
    pub gateway_url: Option<String>,
    pub public_addrs: Vec<SocketAddress>,
    pub gateway_heartbeat: u64,
    pub shutdown_file: String,
    pub max_peers: usize,
    pub min_relay_fee: u32,
    pub market_fee: u32,
    pub low_fee_expiry: u64,
    pub mempool_expiry: u64,
    pub miner_address: Address,
    pub miner_secret_key: Option<Vec<u8>>,
    pub mine: bool,
    pub mine_interval: u64,
    pub mine_attempts: u64,
}

/// The same, as it is spoken of.
#[verifier::ext_equal]
pub struct Settings {
    pub db_path: Seq<char>,
    pub listen_addrs: Seq<SocketAddress>,
    pub rpc_addr: SocketAddress,
    pub peers: Seq<SocketAddress>,
    pub peers_file: Option<Seq<char>>,
    pub gateway_url: Option<Seq<char>>,
    pub public_addrs: Seq<SocketAddress>,
    pub gateway_heartbeat: u64,
    pub shutdown_file: Seq<char>,
    pub max_peers: usize,
    pub min_relay_fee: u32,
    pub market_fee: u32,
    pub low_fee_expiry: u64,
    pub mempool_expiry: u64,
    pub miner_address: Seq<u8>,
    pub miner_secret_key: Option<Seq<u8>>,
    pub mine: bool,
    pub mine_interval: u64,
    pub mine_attempts: u64,
}

/// A text that may be there.
pub open spec fn maybe_text(value: Option<String>) -> Option<Seq<char>> {
    match value {
        Some(value) => Some(value@),
        None => None,
    }
}

impl View for RunConfig {
    type V = Settings;

    open spec fn view(&self) -> Settings {
        Settings {
            db_path: self.db_path@,
            listen_addrs: self.listen_addrs@,
            rpc_addr: self.rpc_addr,
            peers: self.peers@,
            peers_file: maybe_text(self.peers_file),
            gateway_url: maybe_text(self.gateway_url),
            public_addrs: self.public_addrs@,
            gateway_heartbeat: self.gateway_heartbeat,
            shutdown_file: self.shutdown_file@,
            max_peers: self.max_peers,
            min_relay_fee: self.min_relay_fee,
            market_fee: self.market_fee,
            low_fee_expiry: self.low_fee_expiry,
            mempool_expiry: self.mempool_expiry,
            miner_address: self.miner_address.0@,
            miner_secret_key: match self.miner_secret_key {
                Some(key) => Some(key@),
                None => None,
            },
            mine: self.mine,
            mine_interval: self.mine_interval,
            mine_attempts: self.mine_attempts,
        }
    }
}

/// The larger of two numbers.
pub open spec fn at_least(n: int, least: int) -> int {
    if n < least {
        least
    } else {
        n
    }
}

fn at_least_one(n: u64) -> (r: u64)
    ensures
        r == at_least(n as int, 1),
{
    if n < 1 {
        1
    } else {
        n
    }
}

/// The address 0.0.0.0 with a port.
pub open spec fn is_any_v4(addr: SocketAddress, port: u16) -> bool {
    &&& !addr.v6
    &&& forall|i: int| 0 <= i < 16 ==> addr.octets@[i] == 0u8
    &&& addr.port == port
    &&& addr.flow == 0
    &&& addr.scope == 0
}

/// The address 127.0.0.1 with a port.
pub open spec fn is_local_v4(addr: SocketAddress, port: u16) -> bool {
    &&& !addr.v6
    &&& addr.octets@[0] == 127u8
    &&& addr.octets@[3] == 1u8
    &&& forall|i: int| 0 <= i < 16 && i != 0 && i != 3 ==> addr.octets@[i] == 0u8
    &&& addr.port == port
    &&& addr.flow == 0
    &&& addr.scope == 0
}

/// How a node runs that is told nothing.
pub open spec fn is_default(settings: Settings, params: ChainParams) -> bool {
    &&& settings.db_path == "./data/paqus"@
    &&& settings.listen_addrs.len() == 1
    &&& is_any_v4(settings.listen_addrs[0], 5555)
    &&& is_local_v4(settings.rpc_addr, 6666)
    &&& settings.peers.len() == 0
    &&& settings.peers_file == Some("./data/paqus/peers.json"@)
    &&& settings.gateway_url is None
    &&& settings.public_addrs.len() == 0
    &&& settings.gateway_heartbeat == 60
    &&& settings.shutdown_file == "./data/paqus/STOP"@
    &&& settings.max_peers == 128
    &&& settings.min_relay_fee == DEFAULT_MIN_RELAY_FEE
    &&& settings.market_fee == DEFAULT_MARKET_FEE
    &&& settings.low_fee_expiry == LOW_FEE_EXPIRY_SECS
    &&& settings.mempool_expiry == MEMPOOL_EXPIRY_SECS
    &&& settings.miner_address.len() == 20
    &&& forall|i: int| 0 <= i < 20 ==> settings.miner_address[i] == 9u8
    &&& settings.miner_secret_key is None
    &&& !settings.mine
    &&& settings.mine_interval == params.block_time
    &&& settings.mine_attempts == 10_000
}

/// The path of the configuration file unless another is named.
pub const DEFAULT_CONFIG_FILE: &'static str = "./data/paqus/node.json";

/// The path of the database unless another is named.
pub const DEFAULT_NODE_DB: &'static str = "./data/paqus";

/// What an argument asks for.
#[derive(Clone, Copy, Debug, PartialEq, Eq, Structural)]
pub enum RunFlag {
    Config,
    Db,
    Listen,
    RpcListen,
    Peer,
    PeersFile,
    Gateway,
    PublicAddr,
    GatewayHeartbeat,
    ShutdownFile,
    MaxPeers,
    MinRelayFee,
    MarketFee,
    LowFeeExpiry,
    MempoolExpiry,
    Miner,
    Wallet,
    MinerSecretKey,
    Premine,
    Mine,
    MineInterval,
    MineAttempts,
}

/// The flag with a name.
pub open spec fn flag_named(s: Seq<char>) -> Option<RunFlag> {
    if s == "--config"@ {
        Some(RunFlag::Config)
    } else if s == "--db"@ || s == "--db-path"@ {
        Some(RunFlag::Db)
    } else if s == "--listen"@ {
        Some(RunFlag::Listen)
    } else if s == "--rpc-listen"@ {
        Some(RunFlag::RpcListen)
    } else if s == "--peer"@ {
        Some(RunFlag::Peer)
    } else if s == "--peers-file"@ {
        Some(RunFlag::PeersFile)
    } else if s == "--gateway"@ || s == "--gateway-url"@ {
        Some(RunFlag::Gateway)
    } else if s == "--public-addr"@ {
        Some(RunFlag::PublicAddr)
    } else if s == "--gateway-heartbeat-secs"@ {
        Some(RunFlag::GatewayHeartbeat)
    } else if s == "--shutdown-file"@ {
        Some(RunFlag::ShutdownFile)
    } else if s == "--max-peers"@ {
        Some(RunFlag::MaxPeers)
    } else if s == "--min-relay-fee"@ {
        Some(RunFlag::MinRelayFee)
    } else if s == "--market-fee"@ {
        Some(RunFlag::MarketFee)
    } else if s == "--low-fee-expiry-secs"@ {
        Some(RunFlag::LowFeeExpiry)
    } else if s == "--mempool-expiry-secs"@ {
        Some(RunFlag::MempoolExpiry)
    } else if s == "--miner"@ {
        Some(RunFlag::Miner)
    } else if s == "--wallet"@ {
        Some(RunFlag::Wallet)
    } else if s == "--miner-secret-key"@ {
        Some(RunFlag::MinerSecretKey)
    } else if s == "--premine"@ {
        Some(RunFlag::Premine)
    } else if s == "--mine"@ {
        Some(RunFlag::Mine)
    } else if s == "--mine-interval-secs"@ {
        Some(RunFlag::MineInterval)
    } else if s == "--mine-attempts"@ {
        Some(RunFlag::MineAttempts)
    } else {
        None
    }
}

/// The flag with a name.
pub fn run_flag(s: &str) -> (r: Option<RunFlag>)
    ensures
        r == flag_named(s@),
{
    if text::same_text(s, "--config") {
        Some(RunFlag::Config)
    } else if text::same_text(s, "--db") || text::same_text(s, "--db-path") {
        Some(RunFlag::Db)
    } else if text::same_text(s, "--listen") {
        Some(RunFlag::Listen)
    } else if text::same_text(s, "--rpc-listen") {
        Some(RunFlag::RpcListen)
    } else if text::same_text(s, "--peer") {
        Some(RunFlag::Peer)
    } else if text::same_text(s, "--peers-file") {
        Some(RunFlag::PeersFile)
    } else if text::same_text(s, "--gateway") || text::same_text(s, "--gateway-url") {
        Some(RunFlag::Gateway)
    } else if text::same_text(s, "--public-addr") {
        Some(RunFlag::PublicAddr)
    } else if text::same_text(s, "--gateway-heartbeat-secs") {
        Some(RunFlag::GatewayHeartbeat)
    } else if text::same_text(s, "--shutdown-file") {
        Some(RunFlag::ShutdownFile)
    } else if text::same_text(s, "--max-peers") {
        Some(RunFlag::MaxPeers)
    } else if text::same_text(s, "--min-relay-fee") {
        Some(RunFlag::MinRelayFee)
    } else if text::same_text(s, "--market-fee") {
        Some(RunFlag::MarketFee)
    } else if text::same_text(s, "--low-fee-expiry-secs") {
        Some(RunFlag::LowFeeExpiry)
    } else if text::same_text(s, "--mempool-expiry-secs") {
        Some(RunFlag::MempoolExpiry)
    } else if text::same_text(s, "--miner") {
        Some(RunFlag::Miner)
    } else if text::same_text(s, "--wallet") {
        Some(RunFlag::Wallet)
    } else if text::same_text(s, "--miner-secret-key") {
        Some(RunFlag::MinerSecretKey)
    } else if text::same_text(s, "--premine") {
        Some(RunFlag::Premine)
    } else if text::same_text(s, "--mine") {
        Some(RunFlag::Mine)
    } else if text::same_text(s, "--mine-interval-secs") {
        Some(RunFlag::MineInterval)
    } else if text::same_text(s, "--mine-attempts") {
        Some(RunFlag::MineAttempts)
    } else {
        None
    }
}

/// The words for a flag that lacks its value.
pub open spec fn missing_words(flag: RunFlag) -> Seq<char> {
    match flag {
        RunFlag::Config => "missing value for --config"@,
        RunFlag::Db => "missing value for --db"@,
        RunFlag::Listen => "missing value for "@ + "--listen"@,
        RunFlag::RpcListen => "missing value for "@ + "--rpc-listen"@,
        RunFlag::Peer => "missing value for "@ + "--peer"@,
        RunFlag::PeersFile => "missing value for --peers-file"@,
        RunFlag::Gateway => "missing value for --gateway"@,
        RunFlag::PublicAddr => "missing value for "@ + "--public-addr"@,
        RunFlag::GatewayHeartbeat => "missing value for --gateway-heartbeat-secs"@,
        RunFlag::ShutdownFile => "missing value for --shutdown-file"@,
        RunFlag::MaxPeers => "missing value for --max-peers"@,
        RunFlag::MinRelayFee => "missing value for --min-relay-fee"@,
        RunFlag::MarketFee => "missing value for --market-fee"@,
        RunFlag::LowFeeExpiry => "missing value for --low-fee-expiry-secs"@,
        RunFlag::MempoolExpiry => "missing value for --mempool-expiry-secs"@,
        RunFlag::Miner => "missing address hex"@,
        RunFlag::Wallet => "missing value for --wallet"@,
        RunFlag::MinerSecretKey => "missing secret key hex"@,
        RunFlag::MineInterval => "missing value for --mine-interval-secs"@,
        RunFlag::MineAttempts => "missing value for --mine-attempts"@,
        _ => Seq::empty(),
    }
}

fn missing_value(flag: RunFlag) -> (r: String)
    ensures
        r@ == missing_words(flag),
{
    match flag {
        RunFlag::Config => text::owned("missing value for --config"),
        RunFlag::Db => text::owned("missing value for --db"),
        RunFlag::Listen => text::join2("missing value for ", "--listen"),
        RunFlag::RpcListen => text::join2("missing value for ", "--rpc-listen"),
        RunFlag::Peer => text::join2("missing value for ", "--peer"),
        RunFlag::PeersFile => text::owned("missing value for --peers-file"),
        RunFlag::Gateway => text::owned("missing value for --gateway"),
        RunFlag::PublicAddr => text::join2("missing value for ", "--public-addr"),
        RunFlag::GatewayHeartbeat => text::owned("missing value for --gateway-heartbeat-secs"),
        RunFlag::ShutdownFile => text::owned("missing value for --shutdown-file"),
        RunFlag::MaxPeers => text::owned("missing value for --max-peers"),
        RunFlag::MinRelayFee => text::owned("missing value for --min-relay-fee"),
        RunFlag::MarketFee => text::owned("missing value for --market-fee"),
        RunFlag::LowFeeExpiry => text::owned("missing value for --low-fee-expiry-secs"),
        RunFlag::MempoolExpiry => text::owned("missing value for --mempool-expiry-secs"),
        RunFlag::Miner => text::owned("missing address hex"),
        RunFlag::Wallet => text::owned("missing value for --wallet"),
        RunFlag::MinerSecretKey => text::owned("missing secret key hex"),
        RunFlag::MineInterval => text::owned("missing value for --mine-interval-secs"),
        RunFlag::MineAttempts => text::owned("missing value for --mine-attempts"),
        _ => String::new(),
    }
}

/// What the arguments have brought so far: the settings, and whether the
/// addresses to listen on and the public ones have been named anew.
#[verifier::ext_equal]
pub struct Progress {
    pub settings: Settings,
    pub listen_overridden: bool,
    pub public_overridden: bool,
}

/// The socket address that an argument gives for a flag.
pub open spec fn socket_in(arg: Arg, flag: Seq<char>) -> Result<SocketAddress, Seq<char>> {
    match arg.socket {
        Ok(addr) => Ok(addr),
        Err(error) => Err("invalid socket address for "@ + flag + ": "@ + error@),
    }
}

/// The number of seconds that an argument gives.
pub open spec fn seconds_in(arg: Arg, words: Seq<char>) -> Result<nat, Seq<char>> {
    parse::number_in(arg.text@, u64::MAX as int, words + text::u64_refusal(arg.text@))
}

/// What a flag with a value brings.
pub open spec fn with_value(p: Progress, flag: RunFlag, arg: Arg, params: ChainParams) -> Result<
    Progress,
    Seq<char>,
> {
    let s = p.settings;
    match flag {
        RunFlag::Db => Ok(Progress { settings: Settings { db_path: arg.text@, ..s }, ..p }),
        RunFlag::Listen => match socket_in(arg, "--listen"@) {
            Ok(addr) => Ok(
                Progress {
                    settings: Settings {
                        listen_addrs: (if p.listen_overridden {
                            s.listen_addrs
                        } else {
                            Seq::empty()
                        }).push(addr),
                        ..s
                    },
                    listen_overridden: true,
                    ..p
                },
            ),
            Err(error) => Err(error),
        },
        RunFlag::RpcListen => match socket_in(arg, "--rpc-listen"@) {
            Ok(addr) => Ok(Progress { settings: Settings { rpc_addr: addr, ..s }, ..p }),
            Err(error) => Err(error),
        },
        RunFlag::Peer => match socket_in(arg, "--peer"@) {
            Ok(addr) => Ok(Progress { settings: Settings { peers: s.peers.push(addr), ..s }, ..p }),
            Err(error) => Err(error),
        },
        RunFlag::PeersFile => Ok(
            Progress { settings: Settings { peers_file: Some(arg.text@), ..s }, ..p },
        ),
        RunFlag::Gateway => Ok(
            Progress { settings: Settings { gateway_url: Some(arg.text@), ..s }, ..p },
        ),
        RunFlag::PublicAddr => match socket_in(arg, "--public-addr"@) {
            Ok(addr) => Ok(
                Progress {
                    settings: Settings {
                        public_addrs: (if p.public_overridden {
                            s.public_addrs
                        } else {
                            Seq::empty()
                        }).push(addr),
                        ..s
                    },
                    public_overridden: true,
                    ..p
                },
            ),
            Err(error) => Err(error),
        },
        RunFlag::GatewayHeartbeat => match seconds_in(arg, "invalid gateway heartbeat interval: "@) {
            Ok(n) => Ok(
                Progress {
                    settings: Settings { gateway_heartbeat: at_least(n as int, 1) as u64, ..s },
                    ..p
                },
            ),
            Err(error) => Err(error),
        },
        RunFlag::ShutdownFile => Ok(
            Progress { settings: Settings { shutdown_file: arg.text@, ..s }, ..p },
        ),
        RunFlag::MaxPeers => match parse::number_in(
            arg.text@,
            usize::MAX as int,
            "invalid max peers: "@ + text::usize_refusal(arg.text@),
        ) {
            Ok(n) => Ok(
                Progress {
                    settings: Settings { max_peers: at_least(n as int, 1) as usize, ..s },
                    ..p
                },
            ),
            Err(error) => Err(error),
        },
        RunFlag::MinRelayFee => match parse::number_in(
            arg.text@,
            u32::MAX as int,
            "invalid min relay fee: "@ + text::u32_refusal(arg.text@),
        ) {
            Ok(n) => Ok(
                Progress {
                    settings: Settings {
                        min_relay_fee: at_least(n as int, MIN_RELAY_FEE_FLOOR as int) as u32,
                        ..s
                    },
                    ..p
                },
            ),
            Err(error) => Err(error),
        },
        RunFlag::MarketFee => match parse::number_in(
            arg.text@,
            u32::MAX as int,
            "invalid market fee: "@ + text::u32_refusal(arg.text@),
        ) {
            Ok(n) => Ok(Progress { settings: Settings { market_fee: n as u32, ..s }, ..p }),
            Err(error) => Err(error),
        },
        RunFlag::LowFeeExpiry => match seconds_in(arg, "invalid low fee expiry: "@) {
            Ok(n) => Ok(
                Progress {
                    settings: Settings { low_fee_expiry: at_least(n as int, 1) as u64, ..s },
                    ..p
                },
            ),
            Err(error) => Err(error),
        },
        RunFlag::MempoolExpiry => match seconds_in(arg, "invalid mempool expiry: "@) {
            Ok(n) => Ok(
                Progress {
                    settings: Settings { mempool_expiry: at_least(n as int, 1) as u64, ..s },
                    ..p
                },
            ),
            Err(error) => Err(error),
        },
        RunFlag::Miner => match parse::address_in(arg.text@) {
            Ok(address) => Ok(Progress { settings: Settings { miner_address: address, ..s }, ..p }),
            Err(error) => Err(error),
        },
        RunFlag::Wallet => match arg.wallet {
            Some(Ok(keys)) => Ok(
                Progress {
                    settings: Settings {
                        miner_address: keys.address.0@,
                        miner_secret_key: Some(keys.secret_key@),
                        ..s
                    },
                    ..p
                },
            ),
            Some(Err(error)) => Err(error@),
            None => Ok(p),
        },
        RunFlag::MinerSecretKey => match parse::secret_key_in(
            arg.text@,
            params.secret_key_size as int,
        ) {
            Ok(key) => Ok(
                Progress { settings: Settings { miner_secret_key: Some(key), ..s }, ..p },
            ),
            Err(error) => Err(error),
        },
        RunFlag::MineInterval => match seconds_in(arg, "invalid mining interval: "@) {
            Ok(n) => Ok(Progress { settings: Settings { mine_interval: n as u64, ..s }, ..p }),
            Err(error) => Err(error),
        },
        RunFlag::MineAttempts => match seconds_in(arg, "invalid mining attempts: "@) {
            Ok(n) => Ok(Progress { settings: Settings { mine_attempts: n as u64, ..s }, ..p }),
            Err(error) => Err(error),
        },
        _ => Ok(p),
    }
}

/// What the argument at `i` brings, with the value behind it where it takes one,
/// and where the next argument stands. A text that is no flag names the
/// database once.
pub open spec fn argument_read(p: Progress, args: Seq<Arg>, i: int, params: ChainParams) -> Result<
    (Progress, int),
    Seq<char>,
> {
    let s = args[i].text@;
    match flag_named(s) {
        Some(RunFlag::Premine) => Err(
            "premine address is fixed by protocol and cannot be overridden"@,
        ),
        Some(RunFlag::Mine) => Ok(
            (Progress { settings: Settings { mine: true, ..p.settings }, ..p }, i + 1),
        ),
        Some(flag) => if i + 1 >= args.len() {
            Err(missing_words(flag))
        } else {
            match with_value(p, flag, args[i + 1], params) {
                Ok(next) => Ok((next, i + 2)),
                Err(error) => Err(error),
            }
        },
        None => if !(s.len() > 0 && s[0] == '-') && p.settings.db_path == DEFAULT_NODE_DB@ {
            Ok((Progress { settings: Settings { db_path: s, ..p.settings }, ..p }, i + 1))
        } else {
            Err("unknown node run option `"@ + s + "`"@)
        },
    }
}

/// What the arguments from `i` on bring.
pub open spec fn arguments_read(p: Progress, args: Seq<Arg>, i: int, params: ChainParams) -> Result<
    Progress,
    Seq<char>,
>
    decreases args.len() - i,
{
    if i >= args.len() {
        Ok(p)
    } else {
        match argument_read(p, args, i, params) {
            Err(error) => Err(error),
            Ok((next, j)) => if j > i {
                arguments_read(next, args, j, params)
            } else {
                Ok(next)
            },
        }
    }
}

/// Settings whose rules for pending transactions agree: the market fee is at
/// least the relay fee, which is at least its floor, and cheap transactions do
/// not outlast the others.
pub open spec fn normalized(s: Settings) -> Settings {
    let min_relay_fee = at_least(s.min_relay_fee as int, MIN_RELAY_FEE_FLOOR as int) as u32;
    Settings {
        min_relay_fee,
        market_fee: at_least(s.market_fee as int, min_relay_fee as int) as u32,
        low_fee_expiry: if s.low_fee_expiry > s.mempool_expiry {
            s.mempool_expiry
        } else {
            s.low_fee_expiry
        },
        ..s
    }
}

/// Settings after all arguments: addresses once each, and rules that agree.
pub open spec fn finished(s: Settings) -> Settings {
    normalized(
        Settings {
            listen_addrs: peers::deduped(s.listen_addrs),
            public_addrs: peers::deduped(s.public_addrs),
            ..s
        },
    )
}

/// Every argument behind the name of the wallet flag carries what its file
/// holds.
pub open spec fn wallets_loaded(args: Seq<Arg>) -> bool {
    forall|i: int|
        0 < i < args.len() && args[i - 1].text@ == "--wallet"@ ==> (#[trigger] args[i]).wallet is Some
}

impl RunConfig {
    /// How a node runs that is told nothing.
    pub fn new(params: &ChainParams) -> (r: Self)
        ensures
            is_default(r@, *params),
    {
        let any: [u8; 16] = [0u8;16];
        let mut local: [u8; 16] = [0u8;16];
        local[0] = 127;
        local[3] = 1;
        let mut listen_addrs: Vec<SocketAddress> = Vec::new();
        listen_addrs.push(
            SocketAddress { v6: false, octets: any, port: 5555, flow: 0, scope: 0 },
        );
        RunConfig {
            db_path: text::owned("./data/paqus"),
            listen_addrs,
            rpc_addr: SocketAddress { v6: false, octets: local, port: 6666, flow: 0, scope: 0 },
            peers: Vec::new(),
            peers_file: Some(text::owned("./data/paqus/peers.json")),
            gateway_url: None,
            public_addrs: Vec::new(),
            gateway_heartbeat: 60,
            shutdown_file: text::owned("./data/paqus/STOP"),
            max_peers: 128,
            min_relay_fee: DEFAULT_MIN_RELAY_FEE,
            market_fee: DEFAULT_MARKET_FEE,
            low_fee_expiry: LOW_FEE_EXPIRY_SECS,
            mempool_expiry: MEMPOOL_EXPIRY_SECS,
            miner_address: Address([9u8;20]),
            miner_secret_key: None,
            mine: false,
            mine_interval: params.block_time as u64,
            mine_attempts: 10_000,
        }
    }

    /// What the pool of the node admits.
    pub fn mempool_config(&self) -> (r: MempoolConfig)
        ensures
            r == (MempoolConfig {
                max_transactions: MAX_MEMPOOL_TXS,
                max_bytes: MAX_MEMPOOL_BYTES,
                transaction_ttl_secs: self.mempool_expiry,
                low_fee_ttl_secs: self.low_fee_expiry,
                min_relay_fee: self.min_relay_fee,
                market_fee: self.market_fee,
            }),
    {
        MempoolConfig {
            max_transactions: MAX_MEMPOOL_TXS,
            max_bytes: MAX_MEMPOOL_BYTES,
            transaction_ttl_secs: self.mempool_expiry,
            low_fee_ttl_secs: self.low_fee_expiry,
            min_relay_fee: self.min_relay_fee,
            market_fee: self.market_fee,
        }
    }

    /// Makes the rules for pending transactions agree.
    pub fn normalize_mempool_policy(&mut self)
        ensures
            final(self)@ == normalized(old(self)@),
    {
        if self.min_relay_fee < MIN_RELAY_FEE_FLOOR {
            self.min_relay_fee = MIN_RELAY_FEE_FLOOR;
        }
        if self.market_fee < self.min_relay_fee {
            self.market_fee = self.min_relay_fee;
        }
        if self.low_fee_expiry > self.mempool_expiry {
            self.low_fee_expiry = self.mempool_expiry;
        }
    }

    /// Adds the nodes that a file names, each once, up to the limit.
    pub fn add_peers(&mut self, more: Vec<SocketAddress>)
        ensures
            final(self)@ == (Settings {
                peers: first_of(
                    peers::deduped(old(self).peers@ + more@),
                    old(self).max_peers as int,
                ),
                ..old(self)@
            }),
    {
        let mut more = more;
        let ghost added = more@;
        self.peers.append(&mut more);
        peers::dedupe_peers(&mut self.peers);
        if self.peers.len() > self.max_peers {
            self.peers.truncate(self.max_peers);
        }
        proof {
            assert(self.peers@ =~= first_of(
                peers::deduped(old(self).peers@ + added),
                old(self).max_peers as int,
            ));
        }
    }
}

/// The first `n`, or all if there are fewer.
pub open spec fn first_of(list: Seq<SocketAddress>, n: int) -> Seq<SocketAddress> {
    if list.len() > n {
        list.take(n)
    } else {
        list
    }
}

/// The arguments without the white space around them.
pub fn trimmed_args(args: &Vec<String>) -> (r: Vec<String>)
    ensures
        r@.len() == args@.len(),
        forall|i: int| 0 <= i < args@.len() ==> (#[trigger] r@[i])@ == text::trimmed(args@[i]@),
{
    let mut out: Vec<String> = Vec::new();
    let mut i: usize = 0;
    while i < args.len()
        invariant
            i <= args@.len(),
            out@.len() == i,
            forall|j: int| 0 <= j < i ==> (#[trigger] out@[j])@ == text::trimmed(args@[j]@),
        decreases args@.len() - i,
    {
        out.push(text::owned(text::trim(args[i].as_str())));
        i = i + 1;
    }
    out
}

/// The position behind the first argument that names a configuration file, if
/// there is one behind it.
pub open spec fn config_path_at(args: Seq<String>, i: int) -> bool {
    0 <= i && i + 1 < args.len() && args[i]@ == "--config"@
}

/// The configuration file that the arguments name: the text behind the first
/// `--config` that has one.
pub fn config_path_arg(args: &Vec<String>) -> (r: Option<String>)
    ensures
        match r {
            Some(path) => exists|i: int| #[trigger]
                config_path_at(args@, i) && path@ == args@[i + 1]@ && forall|j: int|
                    0 <= j < i ==> !config_path_at(args@, j),
            None => forall|i: int| !config_path_at(args@, i),
        },
{
    let mut i: usize = 0;
    while i < args.len()
        invariant
            i <= args@.len(),
            forall|j: int| 0 <= j < i ==> !config_path_at(args@, j),
        decreases args@.len() - i,
    {
        if i + 1 < args.len() && text::same_text(args[i].as_str(), "--config") {
            assert(config_path_at(args@, i as int));
            return Some(args[i + 1].clone());
        }
        i = i + 1;
    }
    None
}

fn socket_value(arg: &Arg, flag: &str) -> (r: Result<SocketAddress, String>)
    ensures
        match r {
            Ok(addr) => socket_in(*arg, flag@) == Ok::<SocketAddress, Seq<char>>(addr),
            Err(error) => socket_in(*arg, flag@) == Err::<SocketAddress, Seq<char>>(error@),
        },
{
    match &arg.socket {
        Ok(addr) => Ok(*addr),
        Err(error) => Err(
            text::join4("invalid socket address for ", flag, ": ", error.as_str()),
        ),
    }
}

fn seconds_value(arg: &Arg, words: &str) -> (r: Result<u64, String>)
    ensures
        match r {
            Ok(n) => seconds_in(*arg, words@) == Ok::<nat, Seq<char>>(n as nat),
            Err(error) => seconds_in(*arg, words@) == Err::<nat, Seq<char>>(error@),
        },
{
    match text::parse_u64(arg.text.as_str()) {
        Ok(n) => Ok(n),
        Err(error) => Err(text::join2(words, error.as_str())),
    }
}

/// A configuration that arguments are changing.
struct ConfigBuilder {
    config: RunConfig,
    listen_overridden: bool,
    public_overridden: bool,
}

impl View for ConfigBuilder {
    type V = Progress;

    closed spec fn view(&self) -> Progress {
        Progress {
            settings: self.config@,
            listen_overridden: self.listen_overridden,
            public_overridden: self.public_overridden,
        }
    }
}

impl ConfigBuilder {
    /// Takes a flag that gives an address.
    fn take_address(&mut self, flag: RunFlag, arg: &Arg, params: &ChainParams) -> (r: Result<
        (),
        String,
    >)
        requires
            flag == RunFlag::Listen || flag == RunFlag::RpcListen || flag == RunFlag::Peer || flag
                == RunFlag::PublicAddr,
        ensures
            match r {
                Ok(_) => with_value(old(self)@, flag, *arg, *params) == Ok::<Progress, Seq<char>>(
                    final(self)@,
                ),
                Err(error) => with_value(old(self)@, flag, *arg, *params) == Err::<
                    Progress,
                    Seq<char>,
                >(error@),
            },
    {
        match flag {
            RunFlag::Listen => match socket_value(arg, "--listen") {
                Ok(addr) => {
                    if !self.listen_overridden {
                        self.config.listen_addrs.clear();
                        self.listen_overridden = true;
                    }
                    self.config.listen_addrs.push(addr);
                    Ok(())
                },
                Err(error) => Err(error),
            },
            RunFlag::RpcListen => match socket_value(arg, "--rpc-listen") {
                Ok(addr) => {
                    self.config.rpc_addr = addr;
                    Ok(())
                },
                Err(error) => Err(error),
            },
            RunFlag::Peer => match socket_value(arg, "--peer") {
                Ok(addr) => {
                    self.config.peers.push(addr);
                    Ok(())
                },
                Err(error) => Err(error),
            },
            _ => match socket_value(arg, "--public-addr") {
                Ok(addr) => {
                    if !self.public_overridden {
                        self.config.public_addrs.clear();
                        self.public_overridden = true;
                    }
                    self.config.public_addrs.push(addr);
                    Ok(())
                },
                Err(error) => Err(error),
            },
        }
    }

    /// Takes a flag that gives a number.
    fn take_number(&mut self, flag: RunFlag, arg: &Arg, params: &ChainParams) -> (r: Result<
        (),
        String,
    >)
        requires
            flag == RunFlag::GatewayHeartbeat || flag == RunFlag::MaxPeers || flag
                == RunFlag::MinRelayFee || flag == RunFlag::MarketFee || flag
                == RunFlag::LowFeeExpiry || flag == RunFlag::MempoolExpiry || flag
                == RunFlag::MineInterval || flag == RunFlag::MineAttempts,
        ensures
            match r {
                Ok(_) => with_value(old(self)@, flag, *arg, *params) == Ok::<Progress, Seq<char>>(
                    final(self)@,
                ),
                Err(error) => with_value(old(self)@, flag, *arg, *params) == Err::<
                    Progress,
                    Seq<char>,
                >(error@),
            },
    {
        match flag {
            RunFlag::GatewayHeartbeat => match seconds_value(
                arg,
                "invalid gateway heartbeat interval: ",
            ) {
                Ok(secs) => {
                    self.config.gateway_heartbeat = at_least_one(secs);
                    Ok(())
                },
                Err(error) => Err(error),
            },
            RunFlag::MaxPeers => match text::parse_usize(arg.text.as_str()) {
                Ok(n) => {
                    self.config.max_peers = if n < 1 {
                        1
                    } else {
                        n
                    };
                    Ok(())
                },
                Err(error) => Err(text::join2("invalid max peers: ", error.as_str())),
            },
            RunFlag::MinRelayFee => match text::parse_u32(arg.text.as_str()) {
                Ok(fee) => {
                    self.config.min_relay_fee = if fee < MIN_RELAY_FEE_FLOOR {
                        MIN_RELAY_FEE_FLOOR
                    } else {
                        fee
                    };
                    Ok(())
                },
                Err(error) => Err(text::join2("invalid min relay fee: ", error.as_str())),
            },
            RunFlag::MarketFee => match text::parse_u32(arg.text.as_str()) {
                Ok(fee) => {
                    self.config.market_fee = fee;
                    Ok(())
                },
                Err(error) => Err(text::join2("invalid market fee: ", error.as_str())),
            },
            RunFlag::LowFeeExpiry => match seconds_value(arg, "invalid low fee expiry: ") {
                Ok(secs) => {
                    self.config.low_fee_expiry = at_least_one(secs);
                    Ok(())
                },
                Err(error) => Err(error),
            },
            RunFlag::MempoolExpiry => match seconds_value(arg, "invalid mempool expiry: ") {
                Ok(secs) => {
                    self.config.mempool_expiry = at_least_one(secs);
                    Ok(())
                },
                Err(error) => Err(error),
            },
            RunFlag::MineInterval => match seconds_value(arg, "invalid mining interval: ") {
                Ok(secs) => {
                    self.config.mine_interval = secs;
                    Ok(())
                },
                Err(error) => Err(error),
            },
            _ => match seconds_value(arg, "invalid mining attempts: ") {
                Ok(attempts) => {
                    self.config.mine_attempts = attempts;
                    Ok(())
                },
                Err(error) => Err(error),
            },
        }
    }

    /// Takes a flag with its value.
    fn take(&mut self, flag: RunFlag, arg: &Arg, params: &ChainParams) -> (r: Result<(), String>)
        requires
            flag == RunFlag::Wallet ==> arg.wallet is Some,
        ensures
            match r {
                Ok(_) => with_value(old(self)@, flag, *arg, *params) == Ok::<Progress, Seq<char>>(
                    final(self)@,
                ),
                Err(error) => with_value(old(self)@, flag, *arg, *params) == Err::<
                    Progress,
                    Seq<char>,
                >(error@),
            },
    {
        match flag {
            RunFlag::Listen | RunFlag::RpcListen | RunFlag::Peer | RunFlag::PublicAddr => {
                self.take_address(flag, arg, params)
            },
            RunFlag::GatewayHeartbeat
            | RunFlag::MaxPeers
            | RunFlag::MinRelayFee
            | RunFlag::MarketFee
            | RunFlag::LowFeeExpiry
            | RunFlag::MempoolExpiry
            | RunFlag::MineInterval
            | RunFlag::MineAttempts => self.take_number(flag, arg, params),
            RunFlag::Db => {
                self.config.db_path = arg.text.clone();
                Ok(())
            },
            RunFlag::PeersFile => {
                self.config.peers_file = Some(arg.text.clone());
                Ok(())
            },
            RunFlag::Gateway => {
                self.config.gateway_url = Some(arg.text.clone());
                Ok(())
            },
            RunFlag::ShutdownFile => {
                self.config.shutdown_file = arg.text.clone();
                Ok(())
            },
            RunFlag::Miner => match parse::parse_address_hex(arg.text.as_str()) {
                Ok(address) => {
                    self.config.miner_address = address;
                    Ok(())
                },
                Err(error) => Err(error),
            },
            RunFlag::MinerSecretKey => match parse::parse_secret_key(
                Some(&arg.text),
                params.secret_key_size,
            ) {
                Ok(key) => {
                    self.config.miner_secret_key = Some(key);
                    Ok(())
                },
                Err(error) => Err(error),
            },
            RunFlag::Wallet => match &arg.wallet {
                Some(Ok(keys)) => {
                    self.config.miner_address = keys.address;
                    self.config.miner_secret_key = Some(copy_bytes(&keys.secret_key));
                    Ok(())
                },
                Some(Err(error)) => Err(error.clone()),
                None => Ok(()),
            },
            RunFlag::Config | RunFlag::Premine | RunFlag::Mine => Ok(()),
        }
    }
}

/// A copy of some bytes.
pub fn copy_bytes(bytes: &Vec<u8>) -> (r: Vec<u8>)
    ensures
        r@ == bytes@,
{
    let mut out: Vec<u8> = Vec::new();
    out.extend_from_slice(bytes.as_slice());
    assert(out@ =~= bytes@);
    out
}

/// How the node runs after the arguments, on the grounds of `base`, which is
/// what holds without them.
pub fn apply_run_args(base: RunConfig, args: &Vec<Arg>, params: &ChainParams) -> (r: Result<
    RunConfig,
    String,
>)
    requires
        wallets_loaded(args@),
    ensures
        match arguments_read(
            (Progress { settings: base@, listen_overridden: false, public_overridden: false }),
            args@,
            0,
            *params,
        ) {
            Ok(p) => r matches Ok(config) && config@ == finished(p.settings),
            Err(error) => r matches Err(words) && words@ == error,
        },
{
    let mut builder = ConfigBuilder {
        config: base,
        listen_overridden: false,
        public_overridden: false,
    };
    let ghost start = builder@;
    let mut index: usize = 0;
    while index < args.len()
        invariant
            wallets_loaded(args@),
            start == (Progress {
                settings: base@,
                listen_overridden: false,
                public_overridden: false,
            }),
            index <= args@.len(),
            arguments_read(builder@, args@, index as int, *params) == arguments_read(
                start,
                args@,
                0,
                *params,
            ),
        decreases args@.len() - index,
    {
        match run_flag(args[index].text.as_str()) {
            Some(RunFlag::Premine) => {
                return Err(
                    text::owned("premine address is fixed by protocol and cannot be overridden"),
                );
            },
            Some(RunFlag::Mine) => {
                builder.config.mine = true;
                index = index + 1;
            },
            Some(flag) => {
                if index + 1 >= args.len() {
                    return Err(missing_value(flag));
                }
                proof {
                    assert(flag == RunFlag::Wallet ==> args@[index + 1].wallet is Some);
                }
                match builder.take(flag, &args[index + 1], params) {
                    Ok(()) => {},
                    Err(error) => {
                        return Err(error);
                    },
                }
                index = index + 2;
            },
            None => {
                let value = args[index].text.as_str();
                if !text::starts_with_dash(value) && text::same_text(
                    builder.config.db_path.as_str(),
                    DEFAULT_NODE_DB,
                ) {
                    builder.config.db_path = text::owned(value);
                } else {
                    return Err(text::join3("unknown node run option `", value, "`"));
                }
                index = index + 1;
            },
        }
    }
    let mut config = builder.config;
    peers::dedupe_socket_addrs(&mut config.listen_addrs);
    peers::dedupe_socket_addrs(&mut config.public_addrs);
    config.normalize_mempool_policy();
    Ok(config)
}


/// An address in a configuration file: its text, and the socket address that it
/// spells or the words that refuse it as one.
#[derive(Debug, PartialEq, Eq)]
pub struct AddressText {
    pub text: String,
    pub socket: Result<SocketAddress, String>,
}

/// One value, or a list of them.
#[derive(Debug, PartialEq, Eq)]
pub enum OneOrMany<T> {
    One(T),
    Many(Vec<T>),
}

impl<T> OneOrMany<T> {
    /// The values.
    pub open spec fn values(self) -> Seq<T> {
        match self {
            OneOrMany::One(value) => seq![value],
            OneOrMany::Many(values) => values@,
        }
    }

    /// The values as a list.
    pub fn into_vec(self) -> (r: Vec<T>)
        ensures
            r@ == self.values(),
    {
        match self {
            OneOrMany::One(value) => {
                let mut values: Vec<T> = Vec::new();
                values.push(value);
                assert(values@ =~= seq![value]);
                values
            },
            OneOrMany::Many(values) => values,
        }
    }
}

/// What a configuration file says. A wallet file that it names has been read:
/// what it holds, or why it cannot be used, is here.
#[derive(Debug, PartialEq, Eq)]
pub struct RunConfigFile {
    pub db_path: String,
    pub listen_addr: OneOrMany<AddressText>,
    pub rpc_addr: Result<SocketAddress, String>,
    pub peers: Vec<AddressText>,
    pub peers_file: Option<String>,
    pub gateway_url: Option<String>,
    pub public_addr: Option<OneOrMany<AddressText>>,
    pub gateway_heartbeat_secs: u64,
    pub shutdown_file: String,
    pub max_peers: usize,
    pub min_relay_fee: Option<u32>,
    pub market_fee: Option<u32>,
    pub low_fee_expiry_secs: Option<u64>,
    pub mempool_expiry_secs: Option<u64>,
    pub wallet: Option<Result<Wallet, String>>,
    pub miner_address: Option<String>,
    pub miner_secret_key: Option<String>,
    pub mine: bool,
    pub mine_interval_secs: u64,
    pub mine_attempts: u64,
}

/// The socket addresses in a list of texts, or the words for the first that is
/// none; `words` open them.
pub open spec fn sockets_in(list: Seq<AddressText>, words: Seq<char>) -> Result<
    Seq<SocketAddress>,
    Seq<char>,
>
    decreases list.len(),
{
    if list.len() == 0 {
        Ok(Seq::empty())
    } else {
        match sockets_in(list.drop_last(), words) {
            Err(error) => Err(error),
            Ok(before) => match list.last().socket {
                Ok(addr) => Ok(before.push(addr)),
                Err(error) => Err(words + list.last().text@ + "` in config: "@ + error@),
            },
        }
    }
}

/// The first refusal in a list stays the refusal of every longer list.
proof fn refused_stays_refused(list: Seq<AddressText>, words: Seq<char>, n: int)
    requires
        0 <= n <= list.len(),
        sockets_in(list.take(n), words) is Err,
    ensures
        sockets_in(list, words) == sockets_in(list.take(n), words),
    decreases list.len() - n,
{
    if n == list.len() {
        assert(list.take(n) =~= list);
    } else {
        assert(list.take(n + 1).drop_last() =~= list.take(n));
        refused_stays_refused(list, words, n + 1);
    }
}

fn sockets_of(list: &Vec<AddressText>, words: &str) -> (r: Result<Vec<SocketAddress>, String>)
    ensures
        match sockets_in(list@, words@) {
            Ok(addrs) => r matches Ok(v) && v@ == addrs,
            Err(error) => r matches Err(v) && v@ == error,
        },
{
    let mut out: Vec<SocketAddress> = Vec::new();
    let mut i: usize = 0;
    assert(list@.take(0) =~= Seq::empty());
    while i < list.len()
        invariant
            i <= list@.len(),
            sockets_in(list@.take(i as int), words@) == Ok::<Seq<SocketAddress>, Seq<char>>(out@),
        decreases list@.len() - i,
    {
        proof {
            assert(list@.take(i + 1).drop_last() =~= list@.take(i as int));
        }
        match &list[i].socket {
            Ok(addr) => {
                out.push(*addr);
            },
            Err(error) => {
                let refusal = text::join4(
                    words,
                    list[i].text.as_str(),
                    "` in config: ",
                    error.as_str(),
                );
                proof {
                    refused_stays_refused(list@, words@, i + 1);
                }
                return Err(refusal);
            },
        }
        i = i + 1;
    }
    assert(list@.take(i as int) =~= list@);
    Ok(out)
}

/// The public addresses that a file names.
pub open spec fn public_values(file: RunConfigFile) -> Seq<AddressText> {
    match file.public_addr {
        Some(values) => values.values(),
        None => Seq::empty(),
    }
}

/// The settings that a file gives without its miner.
pub open spec fn with_file_settings(
    s: Settings,
    file: RunConfigFile,
    listen_addrs: Seq<SocketAddress>,
    rpc_addr: SocketAddress,
    peers: Seq<SocketAddress>,
    public_addrs: Seq<SocketAddress>,
) -> Settings {
    Settings {
        db_path: file.db_path@,
        listen_addrs,
        rpc_addr,
        peers,
        peers_file: maybe_text(file.peers_file),
        gateway_url: maybe_text(file.gateway_url),
        public_addrs,
        gateway_heartbeat: at_least(file.gateway_heartbeat_secs as int, 1) as u64,
        shutdown_file: file.shutdown_file@,
        max_peers: at_least(file.max_peers as int, 1) as usize,
        min_relay_fee: at_least(
            (match file.min_relay_fee {
                Some(fee) => fee,
                None => s.min_relay_fee,
            }) as int,
            MIN_RELAY_FEE_FLOOR as int,
        ) as u32,
        market_fee: match file.market_fee {
            Some(fee) => fee,
            None => s.market_fee,
        },
        low_fee_expiry: match file.low_fee_expiry_secs {
            Some(secs) => at_least(secs as int, 1) as u64,
            None => s.low_fee_expiry,
        },
        mempool_expiry: match file.mempool_expiry_secs {
            Some(secs) => at_least(secs as int, 1) as u64,
            None => s.mempool_expiry,
        },
        mine: file.mine,
        mine_interval: file.mine_interval_secs,
        mine_attempts: file.mine_attempts,
        ..s
    }
}

/// The miner that a file gives: the wallet first, then an address and a secret
/// key of their own.
pub open spec fn with_file_miner(s: Settings, file: RunConfigFile, params: ChainParams) -> Result<
    Settings,
    Seq<char>,
> {
    let from_wallet = match file.wallet {
        Some(Ok(keys)) => Ok::<Settings, Seq<char>>(
            Settings {
                miner_address: keys.address.0@,
                miner_secret_key: Some(keys.secret_key@),
                ..s
            },
        ),
        Some(Err(error)) => Err(error@),
        None => Ok(s),
    };
    let with_address = match (from_wallet, file.miner_address) {
        (Ok(s), Some(text)) => match parse::address_in(text@) {
            Ok(address) => Ok(Settings { miner_address: address, ..s }),
            Err(error) => Err(error),
        },
        (outcome, _) => outcome,
    };
    match (with_address, file.miner_secret_key) {
        (Ok(s), Some(text)) => match parse::secret_key_in(
            text@,
            params.secret_key_size as int,
        ) {
            Ok(key) => Ok(Settings { miner_secret_key: Some(key), ..s }),
            Err(error) => Err(error),
        },
        (outcome, _) => outcome,
    }
}

/// The settings after a configuration file, or the words for what is wrong in
/// it.
pub open spec fn file_applied(s: Settings, file: RunConfigFile, params: ChainParams) -> Result<
    Settings,
    Seq<char>,
> {
    match sockets_in(file.listen_addr.values(), "invalid listen_addr `"@) {
        Err(error) => Err(error),
        Ok(listen_addrs) => match file.rpc_addr {
            Err(error) => Err("invalid rpc_addr in config: "@ + error@),
            Ok(rpc_addr) => match sockets_in(file.peers@, "invalid peer `"@) {
                Err(error) => Err(error),
                Ok(peers) => match sockets_in(public_values(file), "invalid public_addr `"@) {
                    Err(error) => Err(error),
                    Ok(public_addrs) => with_file_miner(
                        with_file_settings(s, file, listen_addrs, rpc_addr, peers, public_addrs),
                        file,
                        params,
                    ),
                },
            },
        },
    }
}

impl RunConfig {
    fn apply_file_miner(
        self,
        wallet: Option<Result<Wallet, String>>,
        miner_address: Option<String>,
        miner_secret_key: Option<String>,
        params: &ChainParams,
        file: Ghost<RunConfigFile>,
    ) -> (r: Result<RunConfig, String>)
        requires
            file@.wallet == wallet,
            file@.miner_address == miner_address,
            file@.miner_secret_key == miner_secret_key,
        ensures
            match with_file_miner(self@, file@, *params) {
                Ok(s) => r matches Ok(config) && config@ == s,
                Err(error) => r matches Err(words) && words@ == error,
            },
    {
        let mut config = self;
        match wallet {
            Some(Ok(keys)) => {
                config.miner_address = keys.address;
                config.miner_secret_key = Some(keys.secret_key);
            },
            Some(Err(error)) => {
                return Err(error);
            },
            None => {},
        }
        match &miner_address {
            Some(value) => match parse::parse_address_hex(value.as_str()) {
                Ok(address) => {
                    config.miner_address = address;
                },
                Err(error) => {
                    return Err(error);
                },
            },
            None => {},
        }
        match &miner_secret_key {
            Some(value) => match parse::parse_secret_key(Some(value), params.secret_key_size) {
                Ok(key) => {
                    config.miner_secret_key = Some(key);
                },
                Err(error) => {
                    return Err(error);
                },
            },
            None => {},
        }
        Ok(config)
    }

    /// The configuration after a file.
    pub fn apply_run_config_file(self, file: RunConfigFile, params: &ChainParams) -> (r: Result<
        RunConfig,
        String,
    >)
        ensures
            match file_applied(self@, file, *params) {
                Ok(s) => r matches Ok(config) && config@ == s,
                Err(error) => r matches Err(words) && words@ == error,
            },
    {
        let ghost whole = file;
        let listen_addrs = match sockets_of(
            &file.listen_addr.into_vec(),
            "invalid listen_addr `",
        ) {
            Ok(addrs) => addrs,
            Err(error) => {
                return Err(error);
            },
        };
        let rpc_addr = match file.rpc_addr {
            Ok(addr) => addr,
            Err(error) => {
                return Err(text::join2("invalid rpc_addr in config: ", error.as_str()));
            },
        };
        let peers = match sockets_of(&file.peers, "invalid peer `") {
            Ok(addrs) => addrs,
            Err(error) => {
                return Err(error);
            },
        };
        let public_texts: Vec<AddressText> = match file.public_addr {
            Some(values) => values.into_vec(),
            None => Vec::new(),
        };
        let public_addrs = match sockets_of(&public_texts, "invalid public_addr `") {
            Ok(addrs) => addrs,
            Err(error) => {
                return Err(error);
            },
        };
        let min_relay_fee: u32 = match file.min_relay_fee {
            Some(fee) => fee,
            None => self.min_relay_fee,
        };
        let config = RunConfig {
            db_path: file.db_path,
            listen_addrs,
            rpc_addr,
            peers,
            peers_file: file.peers_file,
            gateway_url: file.gateway_url,
            public_addrs,
            gateway_heartbeat: at_least_one(file.gateway_heartbeat_secs),
            shutdown_file: file.shutdown_file,
            max_peers: if file.max_peers < 1 {
                1
            } else {
                file.max_peers
            },
            min_relay_fee: if min_relay_fee < MIN_RELAY_FEE_FLOOR {
                MIN_RELAY_FEE_FLOOR
            } else {
                min_relay_fee
            },
            market_fee: match file.market_fee {
                Some(fee) => fee,
                None => self.market_fee,
            },
            low_fee_expiry: match file.low_fee_expiry_secs {
                Some(secs) => at_least_one(secs),
                None => self.low_fee_expiry,
            },
            mempool_expiry: match file.mempool_expiry_secs {
                Some(secs) => at_least_one(secs),
                None => self.mempool_expiry,
            },
            miner_address: self.miner_address,
            miner_secret_key: self.miner_secret_key,
            mine: file.mine,
            mine_interval: file.mine_interval_secs,
            mine_attempts: file.mine_attempts,
        };
        proof {
            assert(config@ =~= with_file_settings(
                self@,
                whole,
                listen_addrs@,
                rpc_addr,
                peers@,
                public_addrs@,
            ));
        }
        config.apply_file_miner(
            file.wallet,
            file.miner_address,
            file.miner_secret_key,
            params,
            Ghost(whole),
        )
    }

    /// Fails where no address to listen on is left.
    pub fn check_listen_addrs(&self) -> (r: Result<(), String>)
        ensures
            match r {
                Ok(_) => self.listen_addrs@.len() > 0,
                Err(error) => self.listen_addrs@.len() == 0 && error@
                    == "at least one --listen address is required"@,
            },
    {
        if self.listen_addrs.len() == 0 {
            Err(text::owned("at least one --listen address is required"))
        } else {
            Ok(())
        }
    }
}

/// What the file and the arguments make of some settings.
pub open spec fn configured(
    start: Settings,
    file: Option<RunConfigFile>,
    args: Seq<Arg>,
    params: ChainParams,
) -> Result<Settings, Seq<char>> {
    let base = match file {
        Some(file) => file_applied(start, file, params),
        None => Ok(start),
    };
    match base {
        Err(error) => Err(error),
        Ok(base) => match arguments_read(
            Progress { settings: base, listen_overridden: false, public_overridden: false },
            args,
            0,
            params,
        ) {
            Err(error) => Err(error),
            Ok(p) => Ok(finished(p.settings)),
        },
    }
}

/// How the node runs: as it does when told nothing, changed by the
/// configuration file where there is one, and then by the arguments.
pub fn parse_run_config(file: Option<RunConfigFile>, args: &Vec<Arg>, params: &ChainParams) -> (r:
    Result<RunConfig, String>)
    requires
        wallets_loaded(args@),
    ensures
        exists|start: Settings| #[trigger]
            is_default(start, *params) && match configured(start, file, args@, *params) {
                Ok(s) => r matches Ok(config) && config@ == s,
                Err(error) => r matches Err(words) && words@ == error,
            },
{
    let start = RunConfig::new(params);
    let ghost defaults = start@;
    let base = match file {
        Some(file) => match start.apply_run_config_file(file, params) {
            Ok(config) => config,
            Err(error) => {
                assert(is_default(defaults, *params));
                return Err(error);
            },
        },
        None => start,
    };
    let outcome = apply_run_args(base, args, params);
    assert(is_default(defaults, *params));
    outcome
}

/// Whether an address can be reached from this machine alone.
pub open spec fn loopback(addr: SocketAddress) -> bool {
    if addr.v6 {
        addr.octets@[15] == 1 && forall|i: int| 0 <= i < 15 ==> addr.octets@[i] == 0
    } else {
        addr.octets@[0] == 127
    }
}

/// Whether an address can be reached from this machine alone.
pub fn is_loopback(addr: &SocketAddress) -> (r: bool)
    ensures
        r == loopback(*addr),
{
    if !addr.v6 {
        return addr.octets[0] == 127;
    }
    let mut i: usize = 0;
    while i < 15
        invariant
            i <= 15,
            addr.v6,
            forall|j: int| 0 <= j < i ==> addr.octets@[j] == 0,
        decreases 15 - i,
    {
        if addr.octets[i] != 0 {
            return false;
        }
        i = i + 1;
    }
    addr.octets[15] == 1
}

/// The counts and times that may not be zero are not.
pub open spec fn is_positive(s: Settings) -> bool {
    &&& s.max_peers >= 1
    &&& s.gateway_heartbeat >= 1
    &&& s.low_fee_expiry >= 1
    &&& s.mempool_expiry >= 1
}

proof fn arguments_keep_positive(p: Progress, args: Seq<Arg>, i: int, params: ChainParams)
    requires
        is_positive(p.settings),
        arguments_read(p, args, i, params) is Ok,
    ensures
        is_positive(arguments_read(p, args, i, params)->Ok_0.settings),
    decreases args.len() - i,
{
    if i < args.len() {
        let (next, j) = argument_read(p, args, i, params)->Ok_0;
        assert(is_positive(next.settings));
        if j > i {
            arguments_keep_positive(next, args, j, params);
        }
    }
}

/// However a node is told to run, each address to listen on and each public one
/// comes once, the relay fee is at least its floor, the market fee at least the
/// relay fee, and cheap transactions do not outlast the others. Whatever the
/// file and the arguments say, there is room for a node, and no time is zero
/// that may not be.
pub proof fn configured_settings_agree(
    start: Settings,
    file: Option<RunConfigFile>,
    args: Seq<Arg>,
    params: ChainParams,
)
    requires
        configured(start, file, args, params) is Ok,
    ensures
        ({
            let s = configured(start, file, args, params)->Ok_0;
            &&& s.listen_addrs.no_duplicates()
            &&& s.public_addrs.no_duplicates()
            &&& MIN_RELAY_FEE_FLOOR <= s.min_relay_fee <= s.market_fee
            &&& s.low_fee_expiry <= s.mempool_expiry
            &&& is_default(start, params) ==> is_positive(s)
        }),
{
    let base = match file {
        Some(file) => file_applied(start, file, params)->Ok_0,
        None => start,
    };
    let p = arguments_read(
        Progress { settings: base, listen_overridden: false, public_overridden: false },
        args,
        0,
        params,
    )->Ok_0;
    peers::deduped_holds_each_once(p.settings.listen_addrs);
    peers::deduped_holds_each_once(p.settings.public_addrs);
    if is_default(start, params) {
        arguments_keep_positive(
            Progress { settings: base, listen_overridden: false, public_overridden: false },
            args,
            0,
            params,
        );
    }
}

} // verus!
