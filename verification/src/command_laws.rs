//! What holds of the options and commands that a node and a wallet are given.

use crate::cli::{self, Request};
use crate::params::{ChainParams, MIN_RELAY_FEE_FLOOR};
use crate::payment::{self, Draft, Order, PayFlag};
use crate::peers::SocketAddress;
use crate::peers_file::{self, ParsedLine};
use crate::run_config::{
    self, AddressText, Arg, Progress, RunConfigFile, RunFlag, Settings,
};
use crate::text;
use vstd::prelude::*;

verus! {

proof fn flags_have_their_names()
    ensures
        run_config::flag_named("--config"@) == Some(RunFlag::Config),
        run_config::flag_named("--db"@) == Some(RunFlag::Db),
        run_config::flag_named("--db-path"@) == Some(RunFlag::Db),
        run_config::flag_named("--listen"@) == Some(RunFlag::Listen),
        run_config::flag_named("--rpc-listen"@) == Some(RunFlag::RpcListen),
        run_config::flag_named("--peer"@) == Some(RunFlag::Peer),
        run_config::flag_named("--peers-file"@) == Some(RunFlag::PeersFile),
        run_config::flag_named("--gateway"@) == Some(RunFlag::Gateway),
        run_config::flag_named("--gateway-url"@) == Some(RunFlag::Gateway),
        run_config::flag_named("--public-addr"@) == Some(RunFlag::PublicAddr),
        run_config::flag_named("--gateway-heartbeat-secs"@) == Some(RunFlag::GatewayHeartbeat),
        run_config::flag_named("--shutdown-file"@) == Some(RunFlag::ShutdownFile),
        run_config::flag_named("--max-peers"@) == Some(RunFlag::MaxPeers),
        run_config::flag_named("--min-relay-fee"@) == Some(RunFlag::MinRelayFee),
        run_config::flag_named("--market-fee"@) == Some(RunFlag::MarketFee),
        run_config::flag_named("--low-fee-expiry-secs"@) == Some(RunFlag::LowFeeExpiry),
        run_config::flag_named("--mempool-expiry-secs"@) == Some(RunFlag::MempoolExpiry),
        run_config::flag_named("--miner"@) == Some(RunFlag::Miner),
        run_config::flag_named("--wallet"@) == Some(RunFlag::Wallet),
        run_config::flag_named("--miner-secret-key"@) == Some(RunFlag::MinerSecretKey),
        run_config::flag_named("--premine"@) == Some(RunFlag::Premine),
        run_config::flag_named("--mine"@) == Some(RunFlag::Mine),
        run_config::flag_named("--mine-interval-secs"@) == Some(RunFlag::MineInterval),
        run_config::flag_named("--mine-attempts"@) == Some(RunFlag::MineAttempts),
{
    reveal_strlit("--config");
    reveal_strlit("--db");
    reveal_strlit("--db-path");
    reveal_strlit("--listen");
    reveal_strlit("--rpc-listen");
    reveal_strlit("--peer");
    reveal_strlit("--peers-file");
    reveal_strlit("--gateway");
    reveal_strlit("--gateway-url");
    reveal_strlit("--public-addr");
    reveal_strlit("--gateway-heartbeat-secs");
    reveal_strlit("--shutdown-file");
    reveal_strlit("--max-peers");
    reveal_strlit("--min-relay-fee");
    reveal_strlit("--market-fee");
    reveal_strlit("--low-fee-expiry-secs");
    reveal_strlit("--mempool-expiry-secs");
    reveal_strlit("--miner");
    reveal_strlit("--wallet");
    reveal_strlit("--miner-secret-key");
    reveal_strlit("--premine");
    reveal_strlit("--mine");
    reveal_strlit("--mine-interval-secs");
    reveal_strlit("--mine-attempts");
    assert("--config"@.len() == 8);
    assert("--db"@.len() == 4);
    assert("--db-path"@.len() == 9);
    assert("--listen"@.len() == 8);
    assert("--rpc-listen"@.len() == 12);
    assert("--peer"@.len() == 6);
    assert("--peers-file"@.len() == 12);
    assert("--gateway"@.len() == 9);
    assert("--gateway-url"@.len() == 13);
    assert("--public-addr"@.len() == 13);
    assert("--gateway-heartbeat-secs"@.len() == 24);
    assert("--shutdown-file"@.len() == 15);
    assert("--max-peers"@.len() == 11);
    assert("--min-relay-fee"@.len() == 15);
    assert("--market-fee"@.len() == 12);
    assert("--low-fee-expiry-secs"@.len() == 21);
    assert("--mempool-expiry-secs"@.len() == 21);
    assert("--miner"@.len() == 7);
    assert("--wallet"@.len() == 8);
    assert("--miner-secret-key"@.len() == 18);
    assert("--premine"@.len() == 9);
    assert("--mine"@.len() == 6);
    assert("--mine-interval-secs"@.len() == 20);
    assert("--mine-attempts"@.len() == 15);
    assert("--config"@[2] != "--listen"@[2]);
    assert("--config"@[2] != "--wallet"@[2]);
    assert("--db-path"@[2] != "--gateway"@[2]);
    assert("--db-path"@[2] != "--premine"@[2]);
    assert("--listen"@[2] != "--wallet"@[2]);
    assert("--rpc-listen"@[2] != "--peers-file"@[2]);
    assert("--rpc-listen"@[2] != "--market-fee"@[2]);
    assert("--peer"@[2] != "--mine"@[2]);
    assert("--peers-file"@[2] != "--market-fee"@[2]);
    assert("--gateway"@[2] != "--premine"@[2]);
    assert("--gateway-url"@[2] != "--public-addr"@[2]);
    assert("--shutdown-file"@[2] != "--min-relay-fee"@[2]);
    assert("--shutdown-file"@[2] != "--mine-attempts"@[2]);
    assert("--min-relay-fee"@[5] != "--mine-attempts"@[5]);
    assert("--low-fee-expiry-secs"@[2] != "--mempool-expiry-secs"@[2]);
}

proof fn pay_flags_have_their_names()
    ensures
        payment::pay_flag_named("--wallet"@) == Some(PayFlag::Wallet),
        payment::pay_flag_named("--to"@) == Some(PayFlag::To),
        payment::pay_flag_named("--amount"@) == Some(PayFlag::Amount),
        payment::pay_flag_named("--fee"@) == Some(PayFlag::Fee),
        payment::pay_flag_named("--nonce"@) == Some(PayFlag::Nonce),
        payment::pay_flag_named("--rpc"@) == Some(PayFlag::Rpc),
        payment::pay_flag_named("--rpc-addr"@) == Some(PayFlag::Rpc),
        payment::pay_flag_named("--submit"@) == Some(PayFlag::Submit),
{
    reveal_strlit("--wallet");
    reveal_strlit("--to");
    reveal_strlit("--amount");
    reveal_strlit("--fee");
    reveal_strlit("--nonce");
    reveal_strlit("--rpc");
    reveal_strlit("--rpc-addr");
    reveal_strlit("--submit");
    assert("--wallet"@.len() == 8);
    assert("--to"@.len() == 4);
    assert("--amount"@.len() == 8);
    assert("--fee"@.len() == 5);
    assert("--nonce"@.len() == 7);
    assert("--rpc"@.len() == 5);
    assert("--rpc-addr"@.len() == 10);
    assert("--submit"@.len() == 8);
    assert("--wallet"@[2] != "--amount"@[2]);
    assert("--wallet"@[2] != "--submit"@[2]);
    assert("--amount"@[2] != "--submit"@[2]);
    assert("--fee"@[2] != "--rpc"@[2]);
}

/// The settings differ in nothing but what the new ones say.
pub open spec fn reads_as(
    r: Result<(Progress, int), Seq<char>>,
    p: Progress,
    settings: Settings,
    next: int,
) -> bool {
    r == Ok::<(Progress, int), Seq<char>>((Progress { settings, ..p }, next))
}

/// An option of a node sets its own setting to the value that follows it, and no
/// other. Counts that have a least value do not fall below it, and addresses that
/// may be given more than once take the place of the configured ones with the
/// first and are added with the next.
pub proof fn an_option_sets_its_own_setting(p: Progress, args: Seq<Arg>, i: int, params: ChainParams)
    requires
        0 <= i,
        i + 1 < args.len(),
    ensures
        ({
            let r = run_config::argument_read(p, args, i, params);
            let name = args[i].text@;
            let v = args[i + 1];
            let s = p.settings;
            let number = text::number_value(v.text@);
            &&& name == "--db"@ || name == "--db-path"@ ==> reads_as(
                r,
                p,
                Settings { db_path: v.text@, ..s },
                i + 2,
            )
            &&& name == "--peers-file"@ ==> reads_as(
                r,
                p,
                Settings { peers_file: Some(v.text@), ..s },
                i + 2,
            )
            &&& name == "--gateway"@ || name == "--gateway-url"@ ==> reads_as(
                r,
                p,
                Settings { gateway_url: Some(v.text@), ..s },
                i + 2,
            )
            &&& name == "--shutdown-file"@ ==> reads_as(
                r,
                p,
                Settings { shutdown_file: v.text@, ..s },
                i + 2,
            )
            &&& name == "--mine"@ ==> reads_as(r, p, Settings { mine: true, ..s }, i + 1)
            &&& name == "--premine"@ ==> r is Err
            &&& (name == "--listen"@ || name == "--rpc-listen"@ || name == "--peer"@ || name
                == "--public-addr"@) && v.socket is Err ==> r is Err
            &&& name == "--rpc-listen"@ && v.socket is Ok ==> reads_as(
                r,
                p,
                Settings { rpc_addr: v.socket->Ok_0, ..s },
                i + 2,
            )
            &&& name == "--peer"@ && v.socket is Ok ==> reads_as(
                r,
                p,
                Settings { peers: s.peers.push(v.socket->Ok_0), ..s },
                i + 2,
            )
            &&& name == "--listen"@ && v.socket is Ok ==> {
                &&& r is Ok && r->Ok_0.1 == i + 2
                &&& r->Ok_0.0.listen_overridden
                &&& r->Ok_0.0.public_overridden == p.public_overridden
                &&& p.listen_overridden ==> r->Ok_0.0.settings == (Settings {
                    listen_addrs: s.listen_addrs.push(v.socket->Ok_0),
                    ..s
                })
                &&& !p.listen_overridden ==> r->Ok_0.0.settings == (Settings {
                    listen_addrs: seq![v.socket->Ok_0],
                    ..s
                })
            }
            &&& name == "--public-addr"@ && v.socket is Ok ==> {
                &&& r is Ok && r->Ok_0.1 == i + 2
                &&& r->Ok_0.0.public_overridden
                &&& r->Ok_0.0.listen_overridden == p.listen_overridden
                &&& p.public_overridden ==> r->Ok_0.0.settings == (Settings {
                    public_addrs: s.public_addrs.push(v.socket->Ok_0),
                    ..s
                })
                &&& !p.public_overridden ==> r->Ok_0.0.settings == (Settings {
                    public_addrs: seq![v.socket->Ok_0],
                    ..s
                })
            }
            &&& name == "--gateway-heartbeat-secs"@ ==> match number {
                Some(n) => if n > u64::MAX {
                    r is Err
                } else {
                    reads_as(
                        r,
                        p,
                        Settings {
                            gateway_heartbeat: if n == 0 {
                                1
                            } else {
                                n as u64
                            },
                            ..s
                        },
                        i + 2,
                    )
                },
                None => r is Err,
            }
            &&& name == "--max-peers"@ ==> match number {
                Some(n) => if n > usize::MAX {
                    r is Err
                } else {
                    reads_as(
                        r,
                        p,
                        Settings {
                            max_peers: if n == 0 {
                                1
                            } else {
                                n as usize
                            },
                            ..s
                        },
                        i + 2,
                    )
                },
                None => r is Err,
            }
            &&& name == "--min-relay-fee"@ ==> match number {
                Some(n) => if n > u32::MAX {
                    r is Err
                } else {
                    reads_as(
                        r,
                        p,
                        Settings {
                            min_relay_fee: if n < MIN_RELAY_FEE_FLOOR {
                                MIN_RELAY_FEE_FLOOR
                            } else {
                                n as u32
                            },
                            ..s
                        },
                        i + 2,
                    )
                },
                None => r is Err,
            }
            &&& name == "--market-fee"@ ==> match number {
                Some(n) => if n > u32::MAX {
                    r is Err
                } else {
                    reads_as(r, p, Settings { market_fee: n as u32, ..s }, i + 2)
                },
                None => r is Err,
            }
            &&& name == "--low-fee-expiry-secs"@ ==> match number {
                Some(n) => if n > u64::MAX {
                    r is Err
                } else {
                    reads_as(
                        r,
                        p,
                        Settings {
                            low_fee_expiry: if n == 0 {
                                1
                            } else {
                                n as u64
                            },
                            ..s
                        },
                        i + 2,
                    )
                },
                None => r is Err,
            }
            &&& name == "--mempool-expiry-secs"@ ==> match number {
                Some(n) => if n > u64::MAX {
                    r is Err
                } else {
                    reads_as(
                        r,
                        p,
                        Settings {
                            mempool_expiry: if n == 0 {
                                1
                            } else {
                                n as u64
                            },
                            ..s
                        },
                        i + 2,
                    )
                },
                None => r is Err,
            }
            &&& name == "--mine-interval-secs"@ ==> match number {
                Some(n) => if n > u64::MAX {
                    r is Err
                } else {
                    reads_as(r, p, Settings { mine_interval: n as u64, ..s }, i + 2)
                },
                None => r is Err,
            }
            &&& name == "--mine-attempts"@ ==> match number {
                Some(n) => if n > u64::MAX {
                    r is Err
                } else {
                    reads_as(r, p, Settings { mine_attempts: n as u64, ..s }, i + 2)
                },
                None => r is Err,
            }
            &&& name == "--miner"@ ==> match text::hex_bytes(v.text@) {
                Some(bytes) => if bytes.len() == 20 {
                    reads_as(r, p, Settings { miner_address: bytes, ..s }, i + 2)
                } else {
                    r is Err
                },
                None => r is Err,
            }
            &&& name == "--miner-secret-key"@ ==> match text::hex_bytes(v.text@) {
                Some(bytes) => if bytes.len() == params.secret_key_size {
                    reads_as(r, p, Settings { miner_secret_key: Some(bytes), ..s }, i + 2)
                } else {
                    r is Err
                },
                None => r is Err,
            }
            &&& name == "--wallet"@ && v.wallet is Some && v.wallet->Some_0 is Ok ==> reads_as(
                r,
                p,
                Settings {
                    miner_address: v.wallet->Some_0->Ok_0.address.0@,
                    miner_secret_key: Some(v.wallet->Some_0->Ok_0.secret_key@),
                    ..s
                },
                i + 2,
            )
            &&& name == "--wallet"@ && v.wallet is Some && v.wallet->Some_0 is Err ==> r is Err
            &&& name == "--config"@ ==> reads_as(r, p, s, i + 2)
        }),
{
    flags_have_their_names();
    let v = args[i + 1];
    match v.socket {
        Ok(addr) => {
            assert(Seq::empty().push(addr) =~= seq![addr]);
        },
        Err(_) => {},
    }
}

/// Once all options are read, the fees and the times agree: the least fee is no
/// lower than the floor, the market fee no lower than the least, and a low fee
/// does not keep a transaction longer than others; values that agree stay as they
/// are, and so does everything else.
pub proof fn finished_settings_agree(s: Settings)
    ensures
        ({
            let done = run_config::finished(s);
            &&& done.min_relay_fee >= MIN_RELAY_FEE_FLOOR
            &&& done.min_relay_fee >= s.min_relay_fee
            &&& s.min_relay_fee >= MIN_RELAY_FEE_FLOOR ==> done.min_relay_fee == s.min_relay_fee
            &&& done.market_fee >= done.min_relay_fee
            &&& s.market_fee >= done.min_relay_fee ==> done.market_fee == s.market_fee
            &&& s.market_fee < done.min_relay_fee ==> done.market_fee == done.min_relay_fee
            &&& done.low_fee_expiry <= done.mempool_expiry
            &&& done.mempool_expiry == s.mempool_expiry
            &&& s.low_fee_expiry <= s.mempool_expiry ==> done.low_fee_expiry == s.low_fee_expiry
            &&& s.low_fee_expiry > s.mempool_expiry ==> done.low_fee_expiry == s.mempool_expiry
            &&& done.peers == s.peers
            &&& done.mine == s.mine
            &&& done.mine_interval == s.mine_interval
            &&& done.mine_attempts == s.mine_attempts
            &&& done.max_peers == s.max_peers
            &&& done.db_path == s.db_path
            &&& done.rpc_addr == s.rpc_addr
            &&& done.miner_address == s.miner_address
            &&& done.miner_secret_key == s.miner_secret_key
        }),
{
}

/// Options are read one after the other from left to right: what the first of
/// them set is where the next begin. So where one is given twice the last holds.
pub proof fn options_are_read_from_left_to_right(
    p: Progress,
    args: Seq<Arg>,
    i: int,
    params: ChainParams,
)
    requires
        0 <= i,
        i + 1 < args.len(),
    ensures
        match run_config::argument_read(p, args, i, params) {
            Err(error) => run_config::arguments_read(p, args, i, params) == Err::<
                Progress,
                Seq<char>,
            >(error),
            Ok((next, j)) => {
                &&& i < j <= i + 2
                &&& run_config::arguments_read(p, args, i, params) == run_config::arguments_read(
                    next,
                    args,
                    j,
                    params,
                )
            },
        },
        run_config::arguments_read(p, args, args.len() as int, params) == Ok::<
            Progress,
            Seq<char>,
        >(p),
{
}

/// An option of a payment sets its own part of the order to the value that
/// follows it, and no other.
pub proof fn a_payment_option_sets_its_own_part(draft: Draft, args: Seq<Seq<char>>, i: int)
    requires
        0 <= i,
        i + 1 < args.len(),
    ensures
        ({
            let r = payment::option_read(draft, args, i);
            let name = args[i];
            let v = args[i + 1];
            let number = text::number_value(v);
            &&& name == "--wallet"@ ==> r == Ok::<(Draft, int), Seq<char>>(
                (Draft { wallet_path: Some(v), ..draft }, i + 2),
            )
            &&& name == "--rpc"@ || name == "--rpc-addr"@ ==> r == Ok::<(Draft, int), Seq<char>>(
                (Draft { rpc_addr: v, ..draft }, i + 2),
            )
            &&& name == "--submit"@ ==> r == Ok::<(Draft, int), Seq<char>>(
                (Draft { submit: true, ..draft }, i + 1),
            )
            &&& name == "--to"@ ==> match text::hex_bytes(v) {
                Some(bytes) => if bytes.len() == 20 {
                    r == Ok::<(Draft, int), Seq<char>>((Draft { to: Some(bytes), ..draft }, i + 2))
                } else {
                    r is Err
                },
                None => r is Err,
            }
            &&& name == "--amount"@ ==> match number {
                Some(n) => if n > u32::MAX {
                    r is Err
                } else {
                    r == Ok::<(Draft, int), Seq<char>>(
                        (Draft { amount: Some(n as u32), ..draft }, i + 2),
                    )
                },
                None => r is Err,
            }
            &&& name == "--fee"@ ==> match number {
                Some(n) => if n > u32::MAX {
                    r is Err
                } else {
                    r == Ok::<(Draft, int), Seq<char>>((Draft { fee: n as u32, ..draft }, i + 2))
                },
                None => r is Err,
            }
            &&& name == "--nonce"@ ==> match number {
                Some(n) => if n > u64::MAX {
                    r is Err
                } else {
                    r == Ok::<(Draft, int), Seq<char>>(
                        (Draft { nonce: Some(n as u64), ..draft }, i + 2),
                    )
                },
                None => r is Err,
            }
        }),
{
    pay_flags_have_their_names();
}

/// The same of a payment in its short form, whose receiver and amount come first
/// and whose options all have a value; the nonce may be given only where it may.
pub proof fn a_short_payment_option_sets_its_own_part(
    order: Order,
    args: Seq<Seq<char>>,
    i: int,
    takes_nonce: bool,
    unknown: Seq<char>,
)
    requires
        0 <= i,
        i + 1 < args.len(),
    ensures
        ({
            let r = payment::short_option_read(order, args, i, takes_nonce, unknown);
            let name = args[i];
            let v = args[i + 1];
            let number = text::number_value(v);
            &&& name == "--wallet"@ ==> r == Ok::<Order, Seq<char>>(
                Order { wallet_path: v, ..order },
            )
            &&& name == "--rpc"@ || name == "--rpc-addr"@ ==> r == Ok::<Order, Seq<char>>(
                Order { rpc_addr: v, ..order },
            )
            &&& name == "--fee"@ ==> match number {
                Some(n) => if n > u32::MAX {
                    r is Err
                } else {
                    r == Ok::<Order, Seq<char>>(Order { fee: n as u32, ..order })
                },
                None => r is Err,
            }
            &&& name == "--nonce"@ && !takes_nonce ==> r is Err
            &&& name == "--nonce"@ && takes_nonce ==> match number {
                Some(n) => if n > u64::MAX {
                    r is Err
                } else {
                    r == Ok::<Order, Seq<char>>(Order { nonce: Some(n as u64), ..order })
                },
                None => r is Err,
            }
            &&& name == "--to"@ || name == "--amount"@ || name == "--submit"@ ==> r is Err
        }),
{
    pay_flags_have_their_names();
}

/// A payment without options has the receiver and the amount that were given, the
/// usual fee, no nonce of its own, and is sent.
pub proof fn a_plain_payment_is_taken_as_given(to: Seq<u8>, amount: u32, send: bool)
    requires
        to.len() == 20,
    ensures
        ({
            let args = seq![text::hex_text(to), text::decimal(amount as nat)];
            let r = payment::short_order(args, send, "unknown wallet send option `"@);
            r matches Ok(order) && order.to == to && order.amount == amount && order.fee
                == crate::params::DEFAULT_TRANSACTION_FEE && order.nonce is None && order.submit
        }),
{
    text::hex_text_spells_its_bytes(to);
    text::decimal_spells_its_number(amount as nat);
}

/// A command is told by its first words, and what follows is its own: a balance is
/// of the address that is named, from the store that is named or the usual one; a
/// key's address is of the key that is given; a node runs with the options that
/// follow; and a configuration stands where it is said to.
pub proof fn commands_are_told_by_their_words(args: Seq<Seq<char>>, key_size: int)
    ensures
        ({
            let r = cli::request_in(args, key_size);
            &&& args.len() == 0 ==> r == Ok::<Request, Seq<char>>(Request::Menu)
            &&& args.len() >= 1 && (args[0] == "menu"@ || args[0] == "cli"@) ==> r == Ok::<
                Request,
                Seq<char>,
            >(Request::Menu)
            &&& args.len() >= 1 && (args[0] == "-h"@ || args[0] == "--help"@ || args[0] == "help"@)
                ==> r == Ok::<Request, Seq<char>>(Request::Help)
            &&& args.len() >= 1 && (args[0] == "-V"@ || args[0] == "--version"@ || args[0]
                == "version"@) ==> r == Ok::<Request, Seq<char>>(Request::Version)
            &&& args.len() >= 2 && args[0] == "node"@ && args[1] == "run"@ ==> r == Ok::<
                Request,
                Seq<char>,
            >(Request::NodeRun { args: args.skip(2) })
            &&& args.len() >= 2 && args[0] == "node"@ && args[1] == "info"@ ==> r == Ok::<
                Request,
                Seq<char>,
            >(Request::NodeInfo)
            &&& args.len() >= 2 && args[0] == "node"@ && args[1] == "libp2p-info"@ ==> r == Ok::<
                Request,
                Seq<char>,
            >(Request::NodeLibp2pInfo)
            &&& args.len() >= 3 && args[0] == "node"@ && args[1] == "config"@ ==> r == Ok::<
                Request,
                Seq<char>,
            >(Request::NodeConfig { path: args[2] })
            &&& args.len() == 4 && args[0] == "node"@ && args[1] == "init"@ ==> (r matches Ok(
                Request::NodeInit { db_path, miner_address },
            ) && db_path == args[2] && (text::hex_bytes(args[3]) matches Some(bytes) ==> (
            bytes.len() == 20 ==> miner_address == bytes)))
            &&& args.len() > 4 && args[0] == "node"@ && args[1] == "init"@ ==> r is Err
            &&& args.len() >= 3 && args[0] == "wallet"@ && args[1] == "balance"@
                ==> match text::hex_bytes(args[2]) {
                Some(bytes) => if bytes.len() == 20 {
                    r == Ok::<Request, Seq<char>>(
                        Request::WalletBalance {
                            address: bytes,
                            db_path: if args.len() >= 4 {
                                args[3]
                            } else {
                                run_config::DEFAULT_NODE_DB@
                            },
                        },
                    )
                } else {
                    r is Err
                },
                None => r is Err,
            }
            &&& args.len() >= 3 && args[0] == "wallet"@ && args[1] == "address"@
                ==> match text::hex_bytes(args[2]) {
                Some(bytes) => if bytes.len() == key_size {
                    r == Ok::<Request, Seq<char>>(Request::WalletAddress { secret_key: bytes })
                } else {
                    r is Err
                },
                None => r is Err,
            }
            &&& args.len() >= 2 && args[0] == "wallet"@ && args[1] == "new"@ ==> (r matches Ok(
                Request::WalletNew { show_secret, output },
            ) && (show_secret <==> args.skip(1).contains("--show-secret"@)))
            &&& args.len() >= 2 && args[0] == "wallet"@ && args[1] == "send"@ ==> r == (
            match payment::send_order(args.skip(2)) {
                Ok(order) => Ok::<Request, Seq<char>>(Request::WalletPay(order)),
                Err(error) => Err(error),
            })
            &&& args.len() >= 2 && args[0] == "wallet"@ && args[1] == "pay"@ ==> r == (
            match payment::short_order(args.skip(2), false, "unknown wallet pay option `"@) {
                Ok(order) => Ok::<Request, Seq<char>>(Request::WalletPay(order)),
                Err(error) => Err(error),
            })
        }),
{
    main_words_differ();
    wallet_words_differ();
    node_words_differ();
    if args.len() >= 2 {
        assert(args.skip(1)[0] == args[1]);
        assert(args.skip(1).skip(1) =~= args.skip(2));
    }
    if args.len() >= 3 {
        assert(args.skip(1)[1] == args[2]);
    }
    if args.len() >= 4 {
        assert(args.skip(1)[2] == args[3]);
    }
}

proof fn main_words_differ()
    ensures
        "-h"@ != "--help"@,
        "-h"@ != "help"@,
        "-h"@ != "-V"@,
        "-h"@ != "--version"@,
        "-h"@ != "version"@,
        "-h"@ != "wallet"@,
        "-h"@ != "node"@,
        "-h"@ != "menu"@,
        "-h"@ != "cli"@,
        "--help"@ != "help"@,
        "--help"@ != "-V"@,
        "--help"@ != "--version"@,
        "--help"@ != "version"@,
        "--help"@ != "wallet"@,
        "--help"@ != "node"@,
        "--help"@ != "menu"@,
        "--help"@ != "cli"@,
        "help"@ != "-V"@,
        "help"@ != "--version"@,
        "help"@ != "version"@,
        "help"@ != "wallet"@,
        "help"@ != "node"@,
        "help"@ != "menu"@,
        "help"@ != "cli"@,
        "-V"@ != "--version"@,
        "-V"@ != "version"@,
        "-V"@ != "wallet"@,
        "-V"@ != "node"@,
        "-V"@ != "menu"@,
        "-V"@ != "cli"@,
        "--version"@ != "version"@,
        "--version"@ != "wallet"@,
        "--version"@ != "node"@,
        "--version"@ != "menu"@,
        "--version"@ != "cli"@,
        "version"@ != "wallet"@,
        "version"@ != "node"@,
        "version"@ != "menu"@,
        "version"@ != "cli"@,
        "wallet"@ != "node"@,
        "wallet"@ != "menu"@,
        "wallet"@ != "cli"@,
        "node"@ != "menu"@,
        "node"@ != "cli"@,
        "menu"@ != "cli"@,
{
    reveal_strlit("-h");
    reveal_strlit("--help");
    reveal_strlit("help");
    reveal_strlit("-V");
    reveal_strlit("--version");
    reveal_strlit("version");
    reveal_strlit("wallet");
    reveal_strlit("node");
    reveal_strlit("menu");
    reveal_strlit("cli");
    assert("-h"@.len() == 2);
    assert("--help"@.len() == 6);
    assert("help"@.len() == 4);
    assert("-V"@.len() == 2);
    assert("--version"@.len() == 9);
    assert("version"@.len() == 7);
    assert("wallet"@.len() == 6);
    assert("node"@.len() == 4);
    assert("menu"@.len() == 4);
    assert("cli"@.len() == 3);
    assert("-h"@[1] != "-V"@[1]);
    assert("--help"@[0] != "wallet"@[0]);
    assert("help"@[0] != "node"@[0]);
    assert("help"@[0] != "menu"@[0]);
    assert("node"@[0] != "menu"@[0]);
}

proof fn wallet_words_differ()
    ensures
        "new"@ != "address"@,
        "new"@ != "balance"@,
        "new"@ != "pay"@,
        "new"@ != "send"@,
        "address"@ != "balance"@,
        "address"@ != "pay"@,
        "address"@ != "send"@,
        "balance"@ != "pay"@,
        "balance"@ != "send"@,
        "pay"@ != "send"@,
{
    reveal_strlit("new");
    reveal_strlit("address");
    reveal_strlit("balance");
    reveal_strlit("pay");
    reveal_strlit("send");
    assert("new"@.len() == 3);
    assert("address"@.len() == 7);
    assert("balance"@.len() == 7);
    assert("pay"@.len() == 3);
    assert("send"@.len() == 4);
    assert("new"@[0] != "pay"@[0]);
    assert("address"@[0] != "balance"@[0]);
}

proof fn node_words_differ()
    ensures
        "init"@ != "run"@,
        "init"@ != "config"@,
        "init"@ != "libp2p-info"@,
        "init"@ != "info"@,
        "run"@ != "config"@,
        "run"@ != "libp2p-info"@,
        "run"@ != "info"@,
        "config"@ != "libp2p-info"@,
        "config"@ != "info"@,
        "libp2p-info"@ != "info"@,
{
    reveal_strlit("init");
    reveal_strlit("run");
    reveal_strlit("config");
    reveal_strlit("libp2p-info");
    reveal_strlit("info");
    assert("init"@.len() == 4);
    assert("run"@.len() == 3);
    assert("config"@.len() == 6);
    assert("libp2p-info"@.len() == 11);
    assert("info"@.len() == 4);
    assert("init"@[2] != "info"@[2]);
}

/// The options of a payment are read one after the other from left to right, and
/// the order is what they leave: with the wallet, the receiver and the amount that
/// were given, each of which is needed, and not sent unless that is said.
pub proof fn a_long_order_needs_its_parts(args: Seq<Seq<char>>)
    ensures
        payment::empty_draft().wallet_path is None,
        payment::empty_draft().to is None,
        payment::empty_draft().amount is None,
        payment::empty_draft().nonce is None,
        !payment::empty_draft().submit,
        payment::empty_draft().fee == crate::params::DEFAULT_TRANSACTION_FEE,
        payment::empty_draft().rpc_addr == payment::DEFAULT_RPC_ADDR@,
        match payment::options_read(payment::empty_draft(), args, 0) {
            Err(error) => payment::long_order(args) == Err::<Order, Seq<char>>(error),
            Ok(draft) => {
                &&& payment::long_order(args) is Ok <==> draft.wallet_path is Some
                    && draft.to is Some && draft.amount is Some
                &&& payment::long_order(args) matches Ok(order) ==> {
                    &&& Some(order.wallet_path) == draft.wallet_path
                    &&& Some(order.to) == draft.to
                    &&& Some(order.amount) == draft.amount
                    &&& order.fee == draft.fee
                    &&& order.nonce == draft.nonce
                    &&& order.rpc_addr == draft.rpc_addr
                    &&& order.submit == draft.submit
                }
            },
        },
        args.len() >= 2 && (args[0].len() == 0 || args[0][0] != '-') && (args[1].len() == 0
            || args[1][0] != '-') ==> payment::send_order(args) == payment::short_order(
            args,
            true,
            "unknown wallet send option `"@,
        ),
        args.len() < 2 || (args[0].len() > 0 && args[0][0] == '-') || (args[1].len() > 0
            && args[1][0] == '-') ==> payment::send_order(args) == payment::long_order(args),
{
}

/// Payment options are read from left to right: what the first of them set is
/// where the next begin, in the long form and in the short one.
pub proof fn payment_options_are_read_from_left_to_right(
    draft: Draft,
    order: Order,
    args: Seq<Seq<char>>,
    i: int,
    takes_nonce: bool,
    unknown: Seq<char>,
)
    requires
        0 <= i < args.len(),
    ensures
        match payment::option_read(draft, args, i) {
            Err(error) => payment::options_read(draft, args, i) == Err::<Draft, Seq<char>>(error),
            Ok((next, j)) => i < j <= i + 2 && payment::options_read(draft, args, i)
                == payment::options_read(next, args, j),
        },
        payment::options_read(draft, args, args.len() as int) == Ok::<Draft, Seq<char>>(draft),
        match payment::short_option_read(order, args, i, takes_nonce, unknown) {
            Err(error) => payment::short_options_read(order, args, i, takes_nonce, unknown)
                == Err::<Order, Seq<char>>(error),
            Ok(next) => payment::short_options_read(order, args, i, takes_nonce, unknown)
                == payment::short_options_read(next, args, i + 2, takes_nonce, unknown),
        },
        payment::short_options_read(order, args, args.len() as int, takes_nonce, unknown) == Ok::<
            Order,
            Seq<char>,
        >(order),
{
}

/// Addresses are read exactly if each is one, in their order.
pub proof fn addresses_are_read_one_for_one(list: Seq<AddressText>, words: Seq<char>)
    ensures
        run_config::sockets_in(list, words) is Ok <==> forall|i: int|
            0 <= i < list.len() ==> (#[trigger] list[i]).socket is Ok,
        run_config::sockets_in(list, words) matches Ok(out) ==> out.len() == list.len() && forall|
            i: int,
        |
            0 <= i < list.len() ==> list[i].socket->Ok_0 == #[trigger] out[i],
        peers_file::name_sockets(words, list) is Ok <==> forall|i: int|
            0 <= i < list.len() ==> (#[trigger] list[i]).socket is Ok,
        peers_file::name_sockets(words, list) matches Ok(out) ==> out.len() == list.len()
            && forall|i: int|
            0 <= i < list.len() ==> list[i].socket->Ok_0 == #[trigger] out[i],
    decreases list.len(),
{
    if list.len() > 0 {
        let short = list.drop_last();
        addresses_are_read_one_for_one(short, words);
        assert(list[list.len() - 1] == list.last());
        assert forall|i: int| 0 <= i < short.len() implies #[trigger] short[i] == list[i] by {}
        if forall|i: int| 0 <= i < list.len() ==> (#[trigger] list[i]).socket is Ok {
            assert forall|i: int| 0 <= i < short.len() implies (
            #[trigger] short[i]).socket is Ok by {
                assert(list[i].socket is Ok);
            }
        }
        if run_config::sockets_in(list, words) is Ok || peers_file::name_sockets(
            words,
            list,
        ) is Ok {
            assert forall|i: int| 0 <= i < list.len() implies (
            #[trigger] list[i]).socket is Ok by {
                if i < short.len() {
                    assert(short[i].socket is Ok);
                }
            }
        }
        match run_config::sockets_in(list, words) {
            Ok(out) => {
                let before = run_config::sockets_in(short, words)->Ok_0;
                assert forall|i: int| 0 <= i < list.len() implies list[i].socket->Ok_0
                    == #[trigger] out[i] by {
                    if i < short.len() {
                        assert(out[i] == before[i]);
                        assert(short[i].socket->Ok_0 == before[i]);
                    }
                }
            },
            Err(_) => {},
        }
        match peers_file::name_sockets(words, list) {
            Ok(out) => {
                let before = peers_file::name_sockets(words, short)->Ok_0;
                assert forall|i: int| 0 <= i < list.len() implies list[i].socket->Ok_0
                    == #[trigger] out[i] by {
                    if i < short.len() {
                        assert(out[i] == before[i]);
                        assert(short[i].socket->Ok_0 == before[i]);
                    }
                }
            },
            Err(_) => {},
        }
    }
}

/// The lines of a file are read exactly if each names an address, in their order;
/// else the first that does not is told by its number.
pub proof fn lines_are_read_one_for_one(path: Seq<char>, lines: Seq<ParsedLine>)
    ensures
        match peers_file::line_sockets(path, lines) {
            Ok(out) => out.len() == lines.len() && forall|i: int|
                0 <= i < lines.len() ==> lines[i].socket == Ok::<SocketAddress, String>(
                    #[trigger] out[i],
                ),
            Err(words) => exists|k: int|
                0 <= k < lines.len() && (#[trigger] lines[k]).socket is Err && words
                    == peers_file::invalid_line(
                    path,
                    lines[k].number as nat,
                    lines[k].socket->Err_0@,
                ) && forall|i: int| 0 <= i < k ==> (#[trigger] lines[i]).socket is Ok,
        },
    decreases lines.len(),
{
    if lines.len() > 0 {
        let short = lines.drop_last();
        lines_are_read_one_for_one(path, short);
        let last = lines.len() - 1;
        assert(lines[last] == lines.last());
        match peers_file::line_sockets(path, short) {
            Ok(before) => {
                assert forall|i: int| 0 <= i < last implies lines[i].socket == Ok::<
                    SocketAddress,
                    String,
                >(#[trigger] before[i]) by {
                    assert(short[i] == lines[i]);
                }
                match peers_file::line_sockets(path, lines) {
                    Ok(out) => {
                        assert forall|i: int| 0 <= i < lines.len() implies lines[i].socket == Ok::<
                            SocketAddress,
                            String,
                        >(#[trigger] out[i]) by {
                            if i < last {
                                assert(out[i] == before[i]);
                            }
                        }
                    },
                    Err(words) => {
                        assert forall|i: int| 0 <= i < last implies (
                        #[trigger] lines[i]).socket is Ok by {
                            assert(lines[i].socket == Ok::<SocketAddress, String>(before[i]));
                        }
                        assert(lines[last].socket is Err);
                    },
                }
            },
            Err(words) => {
                let k = choose|k: int|
                    0 <= k < short.len() && (#[trigger] short[k]).socket is Err && words
                        == peers_file::invalid_line(
                        path,
                        short[k].number as nat,
                        short[k].socket->Err_0@,
                    ) && forall|i: int| 0 <= i < k ==> (#[trigger] short[i]).socket is Ok;
                assert(lines[k] == short[k]);
                assert forall|i: int| 0 <= i < k implies (#[trigger] lines[i]).socket is Ok by {
                    assert(short[i] == lines[i]);
                }
            },
        }
    }
}

/// What a configuration file says holds for the node, within the least values; the
/// fees and times that it leaves out stay as they were. A wallet gives the miner
/// and its key, and a miner or a key that is named beside it takes its place.
pub proof fn a_file_sets_what_it_says(s: Settings, file: RunConfigFile, params: ChainParams)
    requires
        run_config::file_applied(s, file, params) is Ok,
    ensures
        ({
            let after = run_config::file_applied(s, file, params)->Ok_0;
            &&& after.db_path == file.db_path@
            &&& file.rpc_addr == Ok::<SocketAddress, String>(after.rpc_addr)
            &&& after.listen_addrs.len() == file.listen_addr.values().len()
            &&& forall|i: int|
                0 <= i < after.listen_addrs.len() ==> file.listen_addr.values()[i].socket->Ok_0
                    == #[trigger] after.listen_addrs[i]
            &&& after.peers.len() == file.peers@.len()
            &&& forall|i: int|
                0 <= i < after.peers.len() ==> file.peers@[i].socket->Ok_0
                    == #[trigger] after.peers[i]
            &&& file.public_addr is None ==> after.public_addrs.len() == 0
            &&& file.public_addr matches Some(given) ==> after.public_addrs.len()
                == given.values().len()
            &&& file.peers_file matches Some(path) ==> after.peers_file == Some(path@)
            &&& file.peers_file is None ==> after.peers_file is None
            &&& file.gateway_url matches Some(url) ==> after.gateway_url == Some(url@)
            &&& file.gateway_url is None ==> after.gateway_url is None
            &&& after.shutdown_file == file.shutdown_file@
            &&& file.gateway_heartbeat_secs > 0 ==> after.gateway_heartbeat
                == file.gateway_heartbeat_secs
            &&& file.gateway_heartbeat_secs == 0 ==> after.gateway_heartbeat == 1
            &&& file.max_peers > 0 ==> after.max_peers == file.max_peers
            &&& file.max_peers == 0 ==> after.max_peers == 1
            &&& file.min_relay_fee matches Some(fee) ==> (fee >= MIN_RELAY_FEE_FLOOR
                ==> after.min_relay_fee == fee) && (fee < MIN_RELAY_FEE_FLOOR
                ==> after.min_relay_fee == MIN_RELAY_FEE_FLOOR)
            &&& file.market_fee matches Some(fee) ==> after.market_fee == fee
            &&& file.market_fee is None ==> after.market_fee == s.market_fee
            &&& file.low_fee_expiry_secs matches Some(secs) ==> (secs > 0 ==> after.low_fee_expiry
                == secs) && (secs == 0 ==> after.low_fee_expiry == 1)
            &&& file.low_fee_expiry_secs is None ==> after.low_fee_expiry == s.low_fee_expiry
            &&& file.mempool_expiry_secs matches Some(secs) ==> (secs > 0 ==> after.mempool_expiry
                == secs) && (secs == 0 ==> after.mempool_expiry == 1)
            &&& file.mempool_expiry_secs is None ==> after.mempool_expiry == s.mempool_expiry
            &&& after.mine == file.mine
            &&& after.mine_interval == file.mine_interval_secs
            &&& after.mine_attempts == file.mine_attempts
            &&& file.miner_address matches Some(digits) ==> text::hex_bytes(digits@) == Some(
                after.miner_address,
            ) && after.miner_address.len() == 20
            &&& file.miner_address is None && file.wallet is Some ==> after.miner_address
                == file.wallet->Some_0->Ok_0.address.0@
            &&& file.miner_address is None && file.wallet is None ==> after.miner_address
                == s.miner_address
            &&& file.miner_secret_key matches Some(digits) ==> after.miner_secret_key
                == text::hex_bytes(digits@)
            &&& file.miner_secret_key is None && file.wallet is Some ==> after.miner_secret_key
                == Some(file.wallet->Some_0->Ok_0.secret_key@)
            &&& file.miner_secret_key is None && file.wallet is None ==> after.miner_secret_key
                == s.miner_secret_key
        }),
{
    addresses_are_read_one_for_one(file.listen_addr.values(), "invalid listen_addr `"@);
    addresses_are_read_one_for_one(file.peers@, "invalid peer `"@);
    addresses_are_read_one_for_one(run_config::public_values(file), "invalid public_addr `"@);
}

} // verus!
