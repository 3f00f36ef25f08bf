//! What the wallet commands are asked to pay.

use crate::params::DEFAULT_TRANSACTION_FEE;
use crate::parse;
use crate::text;
use crate::types::{Address, Amount, Nonce, Transaction};
use vstd::prelude::*;

verus! {

/// The wallet file unless another is named.
pub const DEFAULT_WALLET_FILE: &'static str = "wallet.json";

/// The address that a node answers wallets on unless another is named.
pub const DEFAULT_RPC_ADDR: &'static str = "127.0.0.1:6666";

/// A payment that a wallet command asks for. Without `submit` it is signed and
/// shown, and goes nowhere.
#[derive(Debug, PartialEq, Eq)]
pub struct Payment {
    pub wallet_path: String,
    pub to: Address,
    pub amount: Amount,
    pub fee: Amount,
    pub nonce: Option<Nonce>,
    pub rpc_addr: String,
    pub submit: bool,
}

/// The same, as it is spoken of.
#[verifier::ext_equal]
pub struct Order {
    pub wallet_path: Seq<char>,
    pub to: Seq<u8>,
    pub amount: u32,
    pub fee: u32,
    pub nonce: Option<u64>,
    pub rpc_addr: Seq<char>,
    pub submit: bool,
}

impl View for Payment {
    type V = Order;

    open spec fn view(&self) -> Order {
        Order {
            wallet_path: self.wallet_path@,
            to: self.to.0@,
            amount: self.amount.0,
            fee: self.fee.0,
            nonce: match self.nonce {
                Some(nonce) => Some(nonce.0),
                None => None,
            },
            rpc_addr: self.rpc_addr@,
            submit: self.submit,
        }
    }
}

/// The transaction that makes a payment: with the nonce that was asked for or,
/// without one, the sender's next.
pub fn transaction_of(payment: &Payment, sender: Address, next: Nonce, timestamp: u64) -> (r:
    Transaction)
    ensures
        r == (Transaction {
            from: sender,
            to: payment.to,
            amount: payment.amount,
            fee: payment.fee,
            nonce: (match payment.nonce {
                Some(nonce) => nonce,
                None => next,
            }),
            timestamp,
        }),
{
    let nonce = match payment.nonce {
        Some(nonce) => nonce,
        None => next,
    };
    Transaction {
        from: sender,
        to: payment.to,
        amount: payment.amount,
        fee: payment.fee,
        nonce,
        timestamp,
    }
}

/// The argument at a place, if there is one.
pub open spec fn arg_at(args: Seq<Seq<char>>, i: int) -> Option<Seq<char>> {
    if 0 <= i < args.len() {
        Some(args[i])
    } else {
        None
    }
}

pub(crate) fn arg(args: &Vec<String>, i: usize) -> (r: Option<&String>)
    ensures
        parse::text_of(r) == arg_at(text::texts(args@), i as int),
{
    if i < args.len() {
        Some(&args[i])
    } else {
        None
    }
}

/// What a payment option names.
#[derive(Clone, Copy, Debug, PartialEq, Eq, Structural)]
pub enum PayFlag {
    Wallet,
    To,
    Amount,
    Fee,
    Nonce,
    Rpc,
    Submit,
}

/// The payment option with a name.
pub open spec fn pay_flag_named(s: Seq<char>) -> Option<PayFlag> {
    if s == "--wallet"@ {
        Some(PayFlag::Wallet)
    } else if s == "--to"@ {
        Some(PayFlag::To)
    } else if s == "--amount"@ {
        Some(PayFlag::Amount)
    } else if s == "--fee"@ {
        Some(PayFlag::Fee)
    } else if s == "--nonce"@ {
        Some(PayFlag::Nonce)
    } else if s == "--rpc"@ || s == "--rpc-addr"@ {
        Some(PayFlag::Rpc)
    } else if s == "--submit"@ {
        Some(PayFlag::Submit)
    } else {
        None
    }
}

/// The payment option with a name.
pub fn pay_flag(s: &str) -> (r: Option<PayFlag>)
    ensures
        r == pay_flag_named(s@),
{
    if text::same_text(s, "--wallet") {
        Some(PayFlag::Wallet)
    } else if text::same_text(s, "--to") {
        Some(PayFlag::To)
    } else if text::same_text(s, "--amount") {
        Some(PayFlag::Amount)
    } else if text::same_text(s, "--fee") {
        Some(PayFlag::Fee)
    } else if text::same_text(s, "--nonce") {
        Some(PayFlag::Nonce)
    } else if text::same_text(s, "--rpc") || text::same_text(s, "--rpc-addr") {
        Some(PayFlag::Rpc)
    } else if text::same_text(s, "--submit") {
        Some(PayFlag::Submit)
    } else {
        None
    }
}

/// The option read at `i` for a payment whose receiver and amount came first.
/// Only a command that takes nonces knows `--nonce`; `unknown` opens the words
/// for an option that it does not know.
pub open spec fn short_option_read(
    order: Order,
    args: Seq<Seq<char>>,
    i: int,
    takes_nonce: bool,
    unknown: Seq<char>,
) -> Result<Order, Seq<char>> {
    let value = arg_at(args, i + 1);
    match pay_flag_named(args[i]) {
        Some(PayFlag::Wallet) => match value {
            Some(path) => Ok(Order { wallet_path: path, ..order }),
            None => Err("missing value for --wallet"@),
        },
        Some(PayFlag::Rpc) => match value {
            Some(addr) => Ok(Order { rpc_addr: addr, ..order }),
            None => Err("missing value for --rpc"@),
        },
        Some(PayFlag::Fee) => match parse::amount_given(value, "--fee"@) {
            Ok(fee) => Ok(Order { fee: fee as u32, ..order }),
            Err(error) => Err(error),
        },
        Some(PayFlag::Nonce) => if takes_nonce {
            match parse::nonce_given(value) {
                Ok(nonce) => Ok(Order { nonce: Some(nonce as u64), ..order }),
                Err(error) => Err(error),
            }
        } else {
            Err(unknown + args[i] + "`"@)
        },
        _ => Err(unknown + args[i] + "`"@),
    }
}

/// The options read from `i` on.
pub open spec fn short_options_read(
    order: Order,
    args: Seq<Seq<char>>,
    i: int,
    takes_nonce: bool,
    unknown: Seq<char>,
) -> Result<Order, Seq<char>>
    decreases args.len() - i,
{
    if i >= args.len() {
        Ok(order)
    } else {
        match short_option_read(order, args, i, takes_nonce, unknown) {
            Err(error) => Err(error),
            Ok(next) => short_options_read(next, args, i + 2, takes_nonce, unknown),
        }
    }
}

/// The payment that arguments with the receiver and the amount in front ask for.
pub open spec fn short_order(
    args: Seq<Seq<char>>,
    takes_nonce: bool,
    unknown: Seq<char>,
) -> Result<Order, Seq<char>> {
    match parse::address_given(arg_at(args, 0)) {
        Err(error) => Err(error),
        Ok(to) => match parse::amount_given(arg_at(args, 1), "amount"@) {
            Err(error) => Err(error),
            Ok(amount) => short_options_read(
                Order {
                    wallet_path: DEFAULT_WALLET_FILE@,
                    to,
                    amount: amount as u32,
                    fee: DEFAULT_TRANSACTION_FEE,
                    nonce: None,
                    rpc_addr: DEFAULT_RPC_ADDR@,
                    submit: true,
                },
                args,
                2,
                takes_nonce,
                unknown,
            ),
        },
    }
}

fn short_payment(args: &Vec<String>, takes_nonce: bool, unknown: &str) -> (r: Result<
    Payment,
    String,
>)
    ensures
        match short_order(text::texts(args@), takes_nonce, unknown@) {
            Ok(order) => r matches Ok(payment) && payment@ == order,
            Err(error) => r matches Err(words) && words@ == error,
        },
{
    let to = match parse::parse_address(arg(args, 0)) {
        Ok(to) => to,
        Err(error) => {
            return Err(error);
        },
    };
    let amount = match parse::parse_amount(arg(args, 1), "amount") {
        Ok(amount) => amount,
        Err(error) => {
            return Err(error);
        },
    };
    let mut payment = Payment {
        wallet_path: text::owned(DEFAULT_WALLET_FILE),
        to,
        amount,
        fee: Amount(DEFAULT_TRANSACTION_FEE),
        nonce: None,
        rpc_addr: text::owned(DEFAULT_RPC_ADDR),
        submit: true,
    };
    let ghost start = payment@;
    let mut index: usize = 2;
    while index < args.len()
        invariant
            short_order(text::texts(args@), takes_nonce, unknown@) == short_options_read(
                start,
                text::texts(args@),
                2,
                takes_nonce,
                unknown@,
            ),
            index <= args@.len() + 1,
            short_options_read(payment@, text::texts(args@), index as int, takes_nonce, unknown@)
                == short_options_read(start, text::texts(args@), 2, takes_nonce, unknown@),
        decreases args@.len() + 1 - index,
    {
        let value = arg(args, index + 1);
        match pay_flag(args[index].as_str()) {
            Some(PayFlag::Wallet) => match value {
                Some(path) => {
                    payment.wallet_path = path.clone();
                },
                None => {
                    return Err(text::owned("missing value for --wallet"));
                },
            },
            Some(PayFlag::Rpc) => match value {
                Some(addr) => {
                    payment.rpc_addr = addr.clone();
                },
                None => {
                    return Err(text::owned("missing value for --rpc"));
                },
            },
            Some(PayFlag::Fee) => match parse::parse_amount(value, "--fee") {
                Ok(fee) => {
                    payment.fee = fee;
                },
                Err(error) => {
                    return Err(error);
                },
            },
            Some(PayFlag::Nonce) => {
                if !takes_nonce {
                    return Err(text::join3(unknown, args[index].as_str(), "`"));
                }
                match parse::parse_nonce(value) {
                    Ok(nonce) => {
                        payment.nonce = Some(nonce);
                    },
                    Err(error) => {
                        return Err(error);
                    },
                }
            },
            _ => {
                return Err(text::join3(unknown, args[index].as_str(), "`"));
            },
        }
        if index + 1 >= args.len() {
            index = args.len();
        } else {
            index = index + 2;
        }
    }
    Ok(payment)
}

/// The payment that `wallet pay` asks for.
pub fn wallet_pay_command(args: &Vec<String>) -> (r: Result<Payment, String>)
    ensures
        match short_order(text::texts(args@), false, "unknown wallet pay option `"@) {
            Ok(order) => r matches Ok(payment) && payment@ == order,
            Err(error) => r matches Err(words) && words@ == error,
        },
{
    short_payment(args, false, "unknown wallet pay option `")
}

/// What the options of a payment have named so far.
#[verifier::ext_equal]
pub struct Draft {
    pub wallet_path: Option<Seq<char>>,
    pub to: Option<Seq<u8>>,
    pub amount: Option<u32>,
    pub fee: u32,
    pub nonce: Option<u64>,
    pub rpc_addr: Seq<char>,
    pub submit: bool,
}

/// The option read at `i`, and where the next one stands.
pub open spec fn option_read(draft: Draft, args: Seq<Seq<char>>, i: int) -> Result<
    (Draft, int),
    Seq<char>,
> {
    let value = arg_at(args, i + 1);
    match pay_flag_named(args[i]) {
        Some(PayFlag::Wallet) => Ok((Draft { wallet_path: value, ..draft }, i + 2)),
        Some(PayFlag::To) => match parse::address_given(value) {
            Ok(to) => Ok((Draft { to: Some(to), ..draft }, i + 2)),
            Err(error) => Err(error),
        },
        Some(PayFlag::Amount) => match parse::amount_given(value, "--amount"@) {
            Ok(amount) => Ok((Draft { amount: Some(amount as u32), ..draft }, i + 2)),
            Err(error) => Err(error),
        },
        Some(PayFlag::Fee) => match parse::amount_given(value, "--fee"@) {
            Ok(fee) => Ok((Draft { fee: fee as u32, ..draft }, i + 2)),
            Err(error) => Err(error),
        },
        Some(PayFlag::Nonce) => match parse::nonce_given(value) {
            Ok(nonce) => Ok((Draft { nonce: Some(nonce as u64), ..draft }, i + 2)),
            Err(error) => Err(error),
        },
        Some(PayFlag::Rpc) => match value {
            Some(addr) => Ok((Draft { rpc_addr: addr, ..draft }, i + 2)),
            None => Err("missing value for --rpc"@),
        },
        Some(PayFlag::Submit) => Ok((Draft { submit: true, ..draft }, i + 1)),
        None => Err("unknown wallet send option `"@ + args[i] + "`"@),
    }
}

/// The options read from `i` on.
pub open spec fn options_read(draft: Draft, args: Seq<Seq<char>>, i: int) -> Result<Draft, Seq<char>>
    decreases args.len() + 1 - i,
{
    if i >= args.len() {
        Ok(draft)
    } else {
        match option_read(draft, args, i) {
            Err(error) => Err(error),
            Ok((next, j)) => if j > i {
                options_read(next, args, j)
            } else {
                Ok(next)
            },
        }
    }
}

/// A payment before any option.
pub open spec fn empty_draft() -> Draft {
    Draft {
        wallet_path: None,
        to: None,
        amount: None,
        fee: DEFAULT_TRANSACTION_FEE,
        nonce: None,
        rpc_addr: DEFAULT_RPC_ADDR@,
        submit: false,
    }
}

/// The payment that options alone ask for: they have to name the wallet, the
/// receiver and the amount.
pub open spec fn long_order(args: Seq<Seq<char>>) -> Result<Order, Seq<char>> {
    match options_read(empty_draft(), args, 0) {
        Err(error) => Err(error),
        Ok(draft) => match draft.wallet_path {
            None => Err("missing --wallet path"@),
            Some(wallet_path) => match draft.to {
                None => Err("missing --to address"@),
                Some(to) => match draft.amount {
                    None => Err("missing --amount"@),
                    Some(amount) => Ok(
                        Order {
                            wallet_path,
                            to,
                            amount,
                            fee: draft.fee,
                            nonce: draft.nonce,
                            rpc_addr: draft.rpc_addr,
                            submit: draft.submit,
                        },
                    ),
                },
            },
        },
    }
}

fn long_payment(args: &Vec<String>) -> (r: Result<Payment, String>)
    ensures
        match long_order(text::texts(args@)) {
            Ok(order) => r matches Ok(payment) && payment@ == order,
            Err(error) => r matches Err(words) && words@ == error,
        },
{
    let mut wallet_path: Option<String> = None;
    let mut to: Option<Address> = None;
    let mut amount: Option<Amount> = None;
    let mut fee = Amount(DEFAULT_TRANSACTION_FEE);
    let mut nonce: Option<Nonce> = None;
    let mut rpc_addr = text::owned(DEFAULT_RPC_ADDR);
    let mut submit = false;
    let ghost mut draft = empty_draft();
    let mut index: usize = 0;
    while index < args.len()
        invariant
            index <= args@.len(),
            draft.wallet_path == (match wallet_path {
                Some(path) => Some(path@),
                None => None,
            }),
            draft.to == (match to {
                Some(to) => Some(to.0@),
                None => None,
            }),
            draft.amount == (match amount {
                Some(amount) => Some(amount.0),
                None => None,
            }),
            draft.fee == fee.0,
            draft.nonce == (match nonce {
                Some(nonce) => Some(nonce.0),
                None => None,
            }),
            draft.rpc_addr == rpc_addr@,
            draft.submit == submit,
            options_read(draft, text::texts(args@), index as int) == options_read(empty_draft(), text::texts(args@), 0),
        decreases args@.len() - index,
    {
        let value = arg(args, index + 1);
        let mut step: usize = 2;
        match pay_flag(args[index].as_str()) {
            Some(PayFlag::Wallet) => {
                wallet_path = match value {
                    Some(path) => Some(path.clone()),
                    None => None,
                };
                proof {
                    draft = Draft { wallet_path: arg_at(text::texts(args@), index + 1), ..draft };
                }
            },
            Some(PayFlag::To) => match parse::parse_address(value) {
                Ok(address) => {
                    to = Some(address);
                    proof {
                        draft = Draft { to: Some(address.0@), ..draft };
                    }
                },
                Err(error) => {
                    return Err(error);
                },
            },
            Some(PayFlag::Amount) => match parse::parse_amount(value, "--amount") {
                Ok(n) => {
                    amount = Some(n);
                    proof {
                        draft = Draft { amount: Some(n.0), ..draft };
                    }
                },
                Err(error) => {
                    return Err(error);
                },
            },
            Some(PayFlag::Fee) => match parse::parse_amount(value, "--fee") {
                Ok(n) => {
                    fee = n;
                    proof {
                        draft = Draft { fee: n.0, ..draft };
                    }
                },
                Err(error) => {
                    return Err(error);
                },
            },
            Some(PayFlag::Nonce) => match parse::parse_nonce(value) {
                Ok(n) => {
                    nonce = Some(n);
                    proof {
                        draft = Draft { nonce: Some(n.0), ..draft };
                    }
                },
                Err(error) => {
                    return Err(error);
                },
            },
            Some(PayFlag::Rpc) => match value {
                Some(addr) => {
                    rpc_addr = addr.clone();
                    proof {
                        draft = Draft { rpc_addr: addr@, ..draft };
                    }
                },
                None => {
                    return Err(text::owned("missing value for --rpc"));
                },
            },
            Some(PayFlag::Submit) => {
                submit = true;
                step = 1;
                proof {
                    draft = Draft { submit: true, ..draft };
                }
            },
            None => {
                return Err(
                    text::join3("unknown wallet send option `", args[index].as_str(), "`"),
                );
            },
        }
        if args.len() - index < step {
            proof {
                reveal_with_fuel(options_read, 2);
            }
            index = args.len();
        } else {
            index = index + step;
        }
    }
    match wallet_path {
        None => Err(text::owned("missing --wallet path")),
        Some(wallet_path) => match to {
            None => Err(text::owned("missing --to address")),
            Some(to) => match amount {
                None => Err(text::owned("missing --amount")),
                Some(amount) => Ok(
                    Payment { wallet_path, to, amount, fee, nonce, rpc_addr, submit },
                ),
            },
        },
    }
}

/// A text opens with a dash.
pub open spec fn dashed(s: Seq<char>) -> bool {
    s.len() > 0 && s[0] == '-'
}

/// The payment that `wallet send` asks for: with two plain arguments in front
/// they are the receiver and the amount, and it is submitted; else options name
/// all of it.
pub open spec fn send_order(args: Seq<Seq<char>>) -> Result<Order, Seq<char>> {
    if args.len() >= 2 && !dashed(args[0]) && !dashed(args[1]) {
        short_order(args, true, "unknown wallet send option `"@)
    } else {
        long_order(args)
    }
}

/// The payment that `wallet send` asks for.
pub fn wallet_send_command(args: &Vec<String>) -> (r: Result<Payment, String>)
    ensures
        match send_order(text::texts(args@)) {
            Ok(order) => r matches Ok(payment) && payment@ == order,
            Err(error) => r matches Err(words) && words@ == error,
        },
{
    let short_form = args.len() >= 2 && !text::starts_with_dash(args[0].as_str())
        && !text::starts_with_dash(args[1].as_str());
    if short_form {
        short_payment(args, true, "unknown wallet send option `")
    } else {
        long_payment(args)
    }
}

} // verus!
