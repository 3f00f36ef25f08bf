//! What the command line and the menu ask for.

use crate::parse;
use crate::payment::{self, Order, Payment};
use crate::run_config::{DEFAULT_CONFIG_FILE, DEFAULT_NODE_DB};
use crate::text;
use crate::types::Address;
use vstd::prelude::*;

verus! {

/// What a command line asks for.
#[derive(Debug, PartialEq, Eq)]
pub enum Command {
    Menu,
    Help,
    Version,
    WalletNew { show_secret: bool, output: Option<String> },
    WalletAddress { secret_key: Vec<u8> },
    WalletBalance { address: Address, db_path: String },
    WalletPay(Payment),
    NodeInit { db_path: String, miner_address: Address },
    NodeRun { args: Vec<String> },
    NodeConfig { path: String },
    NodeLibp2pInfo,
    NodeInfo,
}

/// The same, as it is spoken of.
#[verifier::ext_equal]
pub enum Request {
    Menu,
    Help,
    Version,
    WalletNew { show_secret: bool, output: Option<Seq<char>> },
    WalletAddress { secret_key: Seq<u8> },
    WalletBalance { address: Seq<u8>, db_path: Seq<char> },
    WalletPay(Order),
    NodeInit { db_path: Seq<char>, miner_address: Seq<u8> },
    NodeRun { args: Seq<Seq<char>> },
    NodeConfig { path: Seq<char> },
    NodeLibp2pInfo,
    NodeInfo,
}

impl View for Command {
    type V = Request;

    open spec fn view(&self) -> Request {
        match self {
            Command::Menu => Request::Menu,
            Command::Help => Request::Help,
            Command::Version => Request::Version,
            Command::WalletNew { show_secret, output } => Request::WalletNew {
                show_secret: *show_secret,
                output: match output {
                    Some(path) => Some(path@),
                    None => None,
                },
            },
            Command::WalletAddress { secret_key } => Request::WalletAddress {
                secret_key: secret_key@,
            },
            Command::WalletBalance { address, db_path } => Request::WalletBalance {
                address: address.0@,
                db_path: db_path@,
            },
            Command::WalletPay(payment) => Request::WalletPay(payment@),
            Command::NodeInit { db_path, miner_address } => Request::NodeInit {
                db_path: db_path@,
                miner_address: miner_address.0@,
            },
            Command::NodeRun { args } => Request::NodeRun { args: text::texts(args@) },
            Command::NodeConfig { path } => Request::NodeConfig { path: path@ },
            Command::NodeLibp2pInfo => Request::NodeLibp2pInfo,
            Command::NodeInfo => Request::NodeInfo,
        }
    }
}

/// The address that stands for a miner where none is named.
pub open spec fn nobody() -> Seq<u8> {
    Seq::new(20, |i: int| 9u8)
}

/// The argument at a place, or another text.
pub open spec fn arg_or(args: Seq<Seq<char>>, i: int, other: Seq<char>) -> Seq<char> {
    match payment::arg_at(args, i) {
        Some(value) => value,
        None => other,
    }
}

fn arg_or_default(args: &Vec<String>, i: usize, other: &str) -> (r: String)
    ensures
        r@ == arg_or(text::texts(args@), i as int, other@),
{
    if i < args.len() {
        args[i].clone()
    } else {
        text::owned(other)
    }
}

/// The arguments behind the first one.
fn args_behind(args: &Vec<String>) -> (r: Vec<String>)
    requires
        args@.len() > 0,
    ensures
        text::texts(r@) == text::texts(args@).skip(1),
{
    let mut out: Vec<String> = Vec::new();
    let mut i: usize = 1;
    while i < args.len()
        invariant
            1 <= i <= args@.len(),
            out@.len() == i - 1,
            forall|j: int| 0 <= j < out@.len() ==> (#[trigger] out@[j])@ == args@[j + 1]@,
        decreases args@.len() - i,
    {
        out.push(args[i].clone());
        i = i + 1;
    }
    assert(text::texts(out@) =~= text::texts(args@).skip(1));
    out
}

/// The first text from `i` on that does not open with a dash.
pub open spec fn first_plain(args: Seq<Seq<char>>, i: int) -> Option<Seq<char>>
    decreases args.len() - i,
{
    if i >= args.len() {
        None
    } else if !payment::dashed(args[i]) {
        Some(args[i])
    } else {
        first_plain(args, i + 1)
    }
}

fn first_plain_arg(args: &Vec<String>, from: usize) -> (r: Option<String>)
    ensures
        match r {
            Some(path) => first_plain(text::texts(args@), from as int) == Some(path@),
            None => first_plain(text::texts(args@), from as int) is None,
        },
{
    let mut i: usize = from;
    while i < args.len()
        invariant
            first_plain(text::texts(args@), i as int) == first_plain(
                text::texts(args@),
                from as int,
            ),
        decreases args@.len() - i,
    {
        if !text::starts_with_dash(args[i].as_str()) {
            return Some(args[i].clone());
        }
        i = i + 1;
    }
    None
}

fn has_arg(args: &Vec<String>, wanted: &str) -> (r: bool)
    ensures
        r == text::texts(args@).contains(wanted@),
{
    let mut i: usize = 0;
    while i < args.len()
        invariant
            i <= args@.len(),
            forall|j: int| 0 <= j < i ==> (#[trigger] text::texts(args@)[j]) != wanted@,
        decreases args@.len() - i,
    {
        assert(text::texts(args@)[i as int] == args@[i as int]@);
        if text::same_text(args[i].as_str(), wanted) {
            return true;
        }
        i = i + 1;
    }
    false
}

/// The words for arguments behind `wallet` that ask for nothing.
pub open spec fn wallet_usage() -> Seq<char> {
    "usage: paqus wallet <new|address|balance|pay|send> [options]"@
}

/// What the arguments behind `wallet` ask for.
pub open spec fn wallet_request(args: Seq<Seq<char>>, key_size: int) -> Result<
    Request,
    Seq<char>,
> {
    if args.len() == 0 {
        Err(wallet_usage())
    } else if args[0] == "new"@ {
        Ok(
            Request::WalletNew {
                show_secret: args.contains("--show-secret"@),
                output: first_plain(args, 1),
            },
        )
    } else if args[0] == "address"@ {
        match parse::secret_key_given(payment::arg_at(args, 1), key_size) {
            Ok(secret_key) => Ok(Request::WalletAddress { secret_key }),
            Err(error) => Err(error),
        }
    } else if args[0] == "balance"@ {
        match parse::address_given(payment::arg_at(args, 1)) {
            Ok(address) => Ok(
                Request::WalletBalance { address, db_path: arg_or(args, 2, DEFAULT_NODE_DB@) },
            ),
            Err(error) => Err(error),
        }
    } else if args[0] == "pay"@ {
        match payment::short_order(args.skip(1), false, "unknown wallet pay option `"@) {
            Ok(order) => Ok(Request::WalletPay(order)),
            Err(error) => Err(error),
        }
    } else if args[0] == "send"@ {
        match payment::send_order(args.skip(1)) {
            Ok(order) => Ok(Request::WalletPay(order)),
            Err(error) => Err(error),
        }
    } else {
        Err(wallet_usage())
    }
}

/// What the arguments behind `wallet` ask for.
pub fn wallet_command(args: &Vec<String>, key_size: usize) -> (r: Result<Command, String>)
    ensures
        match wallet_request(text::texts(args@), key_size as int) {
            Ok(request) => r matches Ok(command) && command@ == request,
            Err(error) => r matches Err(words) && words@ == error,
        },
{
    if args.len() == 0 {
        return Err(text::owned("usage: paqus wallet <new|address|balance|pay|send> [options]"));
    }
    let word = args[0].as_str();
    if text::same_text(word, "new") {
        Ok(
            Command::WalletNew {
                show_secret: has_arg(args, "--show-secret"),
                output: first_plain_arg(args, 1),
            },
        )
    } else if text::same_text(word, "address") {
        match parse::parse_secret_key(payment::arg(args, 1), key_size) {
            Ok(secret_key) => Ok(Command::WalletAddress { secret_key }),
            Err(error) => Err(error),
        }
    } else if text::same_text(word, "balance") {
        match parse::parse_address(payment::arg(args, 1)) {
            Ok(address) => Ok(
                Command::WalletBalance {
                    address,
                    db_path: arg_or_default(args, 2, DEFAULT_NODE_DB),
                },
            ),
            Err(error) => Err(error),
        }
    } else if text::same_text(word, "pay") {
        match payment::wallet_pay_command(&args_behind(args)) {
            Ok(payment) => Ok(Command::WalletPay(payment)),
            Err(error) => Err(error),
        }
    } else if text::same_text(word, "send") {
        match payment::wallet_send_command(&args_behind(args)) {
            Ok(payment) => Ok(Command::WalletPay(payment)),
            Err(error) => Err(error),
        }
    } else {
        Err(text::owned("usage: paqus wallet <new|address|balance|pay|send> [options]"))
    }
}

/// The words for arguments behind `node` that ask for nothing.
pub open spec fn node_usage() -> Seq<char> {
    "usage: paqus node <info|libp2p-info|init|config|run> [options]"@
}

/// What the arguments behind `node` ask for.
pub open spec fn node_request(args: Seq<Seq<char>>) -> Result<Request, Seq<char>> {
    if args.len() == 0 {
        Err(node_usage())
    } else if args[0] == "init"@ {
        if args.len() > 3 {
            Err("premine address is fixed by protocol and cannot be overridden"@)
        } else {
            Ok(
                Request::NodeInit {
                    db_path: arg_or(args, 1, DEFAULT_NODE_DB@),
                    miner_address: match parse::address_given(payment::arg_at(args, 2)) {
                        Ok(address) => address,
                        Err(_) => nobody(),
                    },
                },
            )
        }
    } else if args[0] == "run"@ {
        Ok(Request::NodeRun { args: args.skip(1) })
    } else if args[0] == "config"@ {
        Ok(Request::NodeConfig { path: arg_or(args, 1, DEFAULT_CONFIG_FILE@) })
    } else if args[0] == "libp2p-info"@ {
        Ok(Request::NodeLibp2pInfo)
    } else if args[0] == "info"@ {
        Ok(Request::NodeInfo)
    } else {
        Err(node_usage())
    }
}

/// What the arguments behind `node` ask for.
pub fn node_command(args: &Vec<String>) -> (r: Result<Command, String>)
    ensures
        match node_request(text::texts(args@)) {
            Ok(request) => r matches Ok(command) && command@ == request,
            Err(error) => r matches Err(words) && words@ == error,
        },
{
    if args.len() == 0 {
        return Err(text::owned("usage: paqus node <info|libp2p-info|init|config|run> [options]"));
    }
    let word = args[0].as_str();
    if text::same_text(word, "init") {
        if args.len() > 3 {
            return Err(
                text::owned("premine address is fixed by protocol and cannot be overridden"),
            );
        }
        let miner_address = match parse::parse_address(payment::arg(args, 2)) {
            Ok(address) => address,
            Err(_) => {
                let bytes: [u8; 20] = [9u8;20];
                assert(bytes@ =~= nobody());
                Address(bytes)
            },
        };
        Ok(
            Command::NodeInit { db_path: arg_or_default(args, 1, DEFAULT_NODE_DB), miner_address },
        )
    } else if text::same_text(word, "run") {
        Ok(Command::NodeRun { args: args_behind(args) })
    } else if text::same_text(word, "config") {
        Ok(Command::NodeConfig { path: arg_or_default(args, 1, DEFAULT_CONFIG_FILE) })
    } else if text::same_text(word, "libp2p-info") {
        Ok(Command::NodeLibp2pInfo)
    } else if text::same_text(word, "info") {
        Ok(Command::NodeInfo)
    } else {
        Err(text::owned("usage: paqus node <info|libp2p-info|init|config|run> [options]"))
    }
}

/// What a command line asks for.
pub open spec fn request_in(args: Seq<Seq<char>>, key_size: int) -> Result<Request, Seq<char>> {
    if args.len() == 0 {
        Ok(Request::Menu)
    } else if args[0] == "-h"@ || args[0] == "--help"@ || args[0] == "help"@ {
        Ok(Request::Help)
    } else if args[0] == "-V"@ || args[0] == "--version"@ || args[0] == "version"@ {
        Ok(Request::Version)
    } else if args[0] == "wallet"@ {
        wallet_request(args.skip(1), key_size)
    } else if args[0] == "node"@ {
        node_request(args.skip(1))
    } else if args[0] == "menu"@ || args[0] == "cli"@ {
        Ok(Request::Menu)
    } else {
        Err("unknown command `"@ + args[0] + "`. Try `paqus --help`."@)
    }
}

/// What a command line asks for; `key_size` is the length of a secret key.
pub fn parse_command(args: &Vec<String>, key_size: usize) -> (r: Result<Command, String>)
    ensures
        match request_in(text::texts(args@), key_size as int) {
            Ok(request) => r matches Ok(command) && command@ == request,
            Err(error) => r matches Err(words) && words@ == error,
        },
{
    if args.len() == 0 {
        return Ok(Command::Menu);
    }
    let word = args[0].as_str();
    if text::same_text(word, "-h") || text::same_text(word, "--help") || text::same_text(
        word,
        "help",
    ) {
        Ok(Command::Help)
    } else if text::same_text(word, "-V") || text::same_text(word, "--version") || text::same_text(
        word,
        "version",
    ) {
        Ok(Command::Version)
    } else if text::same_text(word, "wallet") {
        wallet_command(&args_behind(args), key_size)
    } else if text::same_text(word, "node") {
        node_command(&args_behind(args))
    } else if text::same_text(word, "menu") || text::same_text(word, "cli") {
        Ok(Command::Menu)
    } else {
        Err(text::join3("unknown command `", word, "`. Try `paqus --help`."))
    }
}

/// What a line of the menu asks for.
#[derive(Clone, Copy, Debug, PartialEq, Eq, Structural)]
pub enum MenuChoice {
    CreateWallet,
    ImportWallet,
    RunNode,
    CheckBalance,
    Send,
    Receive,
    Explorer,
    Exit,
}

/// The line of the menu with a number.
pub open spec fn menu_choice_in(s: Seq<char>) -> Option<MenuChoice> {
    if s == "1"@ {
        Some(MenuChoice::CreateWallet)
    } else if s == "2"@ {
        Some(MenuChoice::ImportWallet)
    } else if s == "3"@ {
        Some(MenuChoice::RunNode)
    } else if s == "4"@ {
        Some(MenuChoice::CheckBalance)
    } else if s == "5"@ {
        Some(MenuChoice::Send)
    } else if s == "6"@ {
        Some(MenuChoice::Receive)
    } else if s == "7"@ {
        Some(MenuChoice::Explorer)
    } else if s == "8"@ {
        Some(MenuChoice::Exit)
    } else {
        None
    }
}

/// The line of the menu with a number.
pub fn menu_choice(answer: &str) -> (r: Option<MenuChoice>)
    ensures
        r == menu_choice_in(answer@),
{
    if text::same_text(answer, "1") {
        Some(MenuChoice::CreateWallet)
    } else if text::same_text(answer, "2") {
        Some(MenuChoice::ImportWallet)
    } else if text::same_text(answer, "3") {
        Some(MenuChoice::RunNode)
    } else if text::same_text(answer, "4") {
        Some(MenuChoice::CheckBalance)
    } else if text::same_text(answer, "5") {
        Some(MenuChoice::Send)
    } else if text::same_text(answer, "6") {
        Some(MenuChoice::Receive)
    } else if text::same_text(answer, "7") {
        Some(MenuChoice::Explorer)
    } else if text::same_text(answer, "8") {
        Some(MenuChoice::Exit)
    } else {
        None
    }
}

/// An answer, or a default where it is empty.
pub fn answer_or(answer: String, default: &str) -> (r: String)
    ensures
        r@ == if answer@.len() == 0 {
            default@
        } else {
            answer@
        },
{
    if answer.as_str().unicode_len() == 0 {
        text::owned(default)
    } else {
        answer
    }
}

/// The answer is `y` or `yes`, in letters of either case.
pub open spec fn says_yes(s: Seq<char>) -> bool {
    &&& s.len() == 1 || s.len() == 3
    &&& s[0] == 'y' || s[0] == 'Y'
    &&& s.len() == 3 ==> (s[1] == 'e' || s[1] == 'E') && (s[2] == 's' || s[2] == 'S')
}

/// Whether an answer is yes.
pub fn is_yes(answer: &str) -> (r: bool)
    ensures
        r == says_yes(answer@),
{
    let n: usize = answer.unicode_len();
    if n != 1 && n != 3 {
        return false;
    }
    let first = answer.get_char(0);
    if first != 'y' && first != 'Y' {
        return false;
    }
    if n == 1 {
        return true;
    }
    let second = answer.get_char(1);
    let third = answer.get_char(2);
    (second == 'e' || second == 'E') && (third == 's' || third == 'S')
}

/// The place in a list that an answer picks by its number, which counts from
/// one.
pub open spec fn picked(s: Seq<char>, count: int) -> Result<int, Seq<char>> {
    match parse::number_in(
        s,
        usize::MAX as int,
        "invalid selection: "@ + text::usize_refusal(s),
    ) {
        Err(error) => Err(error),
        Ok(n) => if 1 <= n <= count {
            Ok(n - 1)
        } else {
            Err("invalid selection"@)
        },
    }
}

/// The place of the address that an answer picks among `count`.
pub fn pick_address(answer: &str, count: usize) -> (r: Result<usize, String>)
    ensures
        match picked(answer@, count as int) {
            Ok(i) => r matches Ok(place) && place == i,
            Err(error) => r matches Err(words) && words@ == error,
        },
{
    match text::parse_usize(answer) {
        Err(error) => Err(text::join2("invalid selection: ", error.as_str())),
        Ok(n) => if 1 <= n && n <= count {
            Ok(n - 1)
        } else {
            Err(text::owned("invalid selection"))
        },
    }
}

/// The wallet that an answer picks: the number behind the last one stands for
/// none of them, and nought for the first.
pub open spec fn wallet_picked(s: Seq<char>, count: int) -> Result<Option<int>, Seq<char>> {
    match parse::number_in(
        s,
        usize::MAX as int,
        "invalid selection: "@ + text::usize_refusal(s),
    ) {
        Err(error) => Err(error),
        Ok(n) => if n == count + 1 {
            Ok(None)
        } else if n <= count && count > 0 {
            Ok(
                Some(
                    if n == 0 {
                        0
                    } else {
                        n - 1
                    },
                ),
            )
        } else {
            Err("invalid selection"@)
        },
    }
}

/// The place of the wallet that an answer picks among `count`.
pub fn pick_wallet(answer: &str, count: usize) -> (r: Result<Option<usize>, String>)
    ensures
        match wallet_picked(answer@, count as int) {
            Ok(Some(i)) => r matches Ok(Some(place)) && place == i,
            Ok(None) => r == Ok::<Option<usize>, String>(None),
            Err(error) => r matches Err(words) && words@ == error,
        },
{
    match text::parse_usize(answer) {
        Err(error) => Err(text::join2("invalid selection: ", error.as_str())),
        Ok(n) => if n > 0 && n - 1 == count {
            Ok(None)
        } else if n <= count && count > 0 {
            if n == 0 {
                Ok(Some(0))
            } else {
                Ok(Some(n - 1))
            }
        } else {
            Err(text::owned("invalid selection"))
        },
    }
}

} // verus!
