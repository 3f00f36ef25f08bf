//! The node's answers to requests: what is asked for, or why it is not given.

use crate::display;
use crate::errors;
use crate::mempool;
use crate::node::{self, Node, NodeError, PendingBalance};
use crate::parse;
use crate::peers::PeerTable;
use crate::rpc::{self, TxResponse, TxShown};
use crate::storage;
use crate::tables::Rows;
use crate::text;
use crate::types::{Account, Address, Block, Digest, Height, SignedTransaction};
use vstd::prelude::*;
use vstd::string::*;

verus! {

/// What is asked for, or why it is not given: the question is wrong, there is no
/// such thing, or the node failed.
#[derive(Debug, PartialEq, Eq)]
pub enum Reply<T> {
    Given(T),
    BadRequest(String),
    NotFound(&'static str),
    Failed(String),
}

/// The balance of the address with the given digits.
pub fn rpc_balance(node: &Node, address: &str) -> (r: Reply<String>)
    requires
        node.wf(),
    ensures
        match parse::address_in(address@) {
            Err(error) => r matches Reply::BadRequest(words) && words@ == error,
            Ok(bytes) => r matches Reply::Given(balance) && forall|a: Address|
                a.0@ == bytes ==> balance@ == #[trigger] rpc::balance_words(*node, a),
        },
{
    match parse::parse_address_hex(address) {
        Err(error) => Reply::BadRequest(error),
        Ok(address) => {
            proof {
                assert forall|a: Address| a.0@ == address.0@ implies a == address by {
                    assert(a.0 =~= address.0);
                }
            }
            Reply::Given(rpc::balance_json(node, &address))
        },
    }
}

/// The blocks at a height and below it, down to another, that can be read.
pub open spec fn blocks_down(rows: Rows, height: int, down_to: int) -> Result<
    Seq<Block>,
    Seq<char>,
>
    decreases height + 1 - down_to,
{
    if height < down_to {
        Ok(Seq::empty())
    } else {
        match storage::block_at(rows, Height(height as u64)) {
            Err(error) => Err(rpc::load_failure(error)),
            Ok(None) => blocks_down(rows, height - 1, down_to),
            Ok(Some(block)) => match blocks_down(rows, height - 1, down_to) {
                Err(error) => Err(error),
                Ok(below) => Ok(seq![block] + below),
            },
        }
    }
}

/// The last ten blocks, the latest first.
pub fn rpc_latest_blocks(node: &Node) -> (r: Reply<Vec<Block>>)
    requires
        node.wf(),
    ensures
        match blocks_down(
            node.storage@,
            node.height_spec() as int,
            rpc::minus(node.height_spec(), 9) as int,
        ) {
            Ok(blocks) => r matches Reply::Given(list) && list@ == blocks,
            Err(error) => r matches Reply::Failed(words) && words@ == error,
        },
{
    let tip: u64 = node.height();
    let start: u64 = tip.saturating_sub(9);
    let ghost whole = blocks_down(node.storage@, tip as int, start as int);
    let mut blocks: Vec<Block> = Vec::new();
    let mut left: u64 = tip - start + 1;
    proof {
        match whole {
            Ok(all) => {
                assert(Seq::<Block>::empty() + all =~= all);
            },
            Err(_) => {},
        }
    }
    while left > 0
        invariant
            node.wf(),
            tip == node.height_spec(),
            start == rpc::minus(tip, 9),
            left <= tip - start + 1,
            whole == blocks_down(node.storage@, tip as int, start as int),
            match blocks_down(node.storage@, start + left - 1, start as int) {
                Ok(below) => whole == Ok::<Seq<Block>, Seq<char>>(blocks@ + below),
                Err(error) => whole == Err::<Seq<Block>, Seq<char>>(error),
            },
        decreases left,
    {
        let height: u64 = start + (left - 1);
        match node.storage.load_block_by_height(Height(height)) {
            Err(error) => {
                return Reply::Failed(
                    text::join2("failed to load block: ", error.message().as_str()),
                );
            },
            Ok(None) => {},
            Ok(Some(block)) => {
                let ghost before = blocks@;
                blocks.push(block);
                proof {
                    match blocks_down(node.storage@, start + left - 2, start as int) {
                        Ok(below) => {
                            assert(before + (seq![block] + below) =~= blocks@ + below);
                        },
                        Err(_) => {},
                    }
                }
            },
        }
        left = left - 1;
    }
    proof {
        assert(blocks@ + Seq::<Block>::empty() =~= blocks@);
    }
    Reply::Given(blocks)
}

/// What a look for a block gives.
pub open spec fn block_found(
    outcome: Result<Option<Block>, storage::StorageError>,
    r: Reply<Block>,
) -> bool {
    match outcome {
        Ok(Some(block)) => r == Reply::Given(block),
        Ok(None) => r matches Reply::NotFound(words) && words@ == "block_not_found"@,
        Err(error) => r matches Reply::Failed(words) && words@ == rpc::load_failure(error),
    }
}

fn block_reply(outcome: Result<Option<Block>, storage::StorageError>) -> (r: Reply<Block>)
    ensures
        block_found(outcome, r),
{
    match outcome {
        Ok(Some(block)) => Reply::Given(block),
        Ok(None) => Reply::NotFound("block_not_found"),
        Err(error) => Reply::Failed(
            text::join2("failed to load block: ", error.message().as_str()),
        ),
    }
}

/// The block at a height.
pub fn rpc_block_by_height(node: &Node, height: u64) -> (r: Reply<Block>)
    requires
        node.wf(),
    ensures
        block_found(storage::block_at(node.storage@, Height(height)), r),
{
    block_reply(node.storage.load_block_by_height(Height(height)))
}

/// The block with the given hash, in digits.
pub fn rpc_block_by_hash(node: &Node, hash: &str) -> (r: Reply<Block>)
    requires
        node.wf(),
    ensures
        match parse::hash_in(hash@) {
            Err(error) => r matches Reply::BadRequest(words) && words@ == error,
            Ok(bytes) => forall|h: Digest|
                h.0@ == bytes ==> block_found(#[trigger] storage::block_with(node.storage@, h), r),
        },
{
    match parse::parse_hash_hex(hash) {
        Err(error) => Reply::BadRequest(error),
        Ok(hash) => {
            proof {
                assert forall|h: Digest| h.0@ == hash.0@ implies h == hash by {
                    assert(h.0 =~= hash.0);
                }
            }
            block_reply(node.storage.load_block_by_hash(&hash))
        },
    }
}

/// What a look for a transaction gives.
pub open spec fn tx_found(outcome: Result<Option<TxShown>, Seq<char>>, r: Reply<TxResponse>) -> bool {
    match outcome {
        Ok(Some(shown)) => r matches Reply::Given(t) && t@ == shown,
        Ok(None) => r matches Reply::NotFound(words) && words@ == "transaction_not_found"@,
        Err(error) => r matches Reply::Failed(words) && words@ == error,
    }
}

/// The transaction with the given hash, in digits.
pub fn rpc_tx(node: &Node, hash: &str) -> (r: Reply<TxResponse>)
    requires
        node.wf(),
    ensures
        match parse::hash_in(hash@) {
            Err(error) => r matches Reply::BadRequest(words) && words@ == error,
            Ok(bytes) => forall|h: Digest|
                h.0@ == bytes ==> tx_found(#[trigger] rpc::found(*node, h), r),
        },
{
    match parse::parse_hash_hex(hash) {
        Err(error) => Reply::BadRequest(error),
        Ok(hash) => {
            proof {
                assert forall|h: Digest| h.0@ == hash.0@ implies h == hash by {
                    assert(h.0 =~= hash.0);
                }
            }
            match rpc::find_transaction(node, &hash) {
                Ok(Some(t)) => Reply::Given(t),
                Ok(None) => Reply::NotFound("transaction_not_found"),
                Err(error) => Reply::Failed(error),
            }
        },
    }
}

/// An address as it is shown: its digits, its balance in words, and its
/// transactions.
#[derive(Debug, PartialEq, Eq)]
pub struct AddressResponse {
    pub address: String,
    pub balance: String,
    pub transactions: Vec<TxResponse>,
}

/// What a look at an address gives.
pub open spec fn address_found(node: Node, a: Address, r: Reply<AddressResponse>) -> bool {
    match rpc::touching(node, a) {
        Ok(shown) => r matches Reply::Given(response) && response.address@ == text::hex_text(a.0@)
            && response.balance@ == rpc::balance_words(node, a) && rpc::shown_in(
            response.transactions@,
        ) == shown,
        Err(error) => r matches Reply::Failed(words) && words@ == error,
    }
}

/// The address with the given digits.
pub fn rpc_address(node: &Node, address: &str) -> (r: Reply<AddressResponse>)
    requires
        node.wf(),
    ensures
        match parse::address_in(address@) {
            Err(error) => r matches Reply::BadRequest(words) && words@ == error,
            Ok(bytes) => forall|a: Address| a.0@ == bytes ==> #[trigger] address_found(*node, a, r),
        },
{
    match parse::parse_address_hex(address) {
        Err(error) => Reply::BadRequest(error),
        Ok(address) => {
            proof {
                assert forall|a: Address| a.0@ == address.0@ implies a == address by {
                    assert(a.0 =~= address.0);
                }
            }
            match rpc::address_transactions(node, &address) {
                Ok(transactions) => Reply::Given(
                    AddressResponse {
                        address: parse::address_to_string(&address),
                        balance: rpc::balance_json(node, &address),
                        transactions,
                    },
                ),
                Err(error) => Reply::Failed(error),
            }
        },
    }
}

/// An account as it is shown.
#[derive(Debug, PartialEq, Eq)]
pub struct AccountResponse {
    pub address: String,
    pub confirmed: u32,
    pub available: u32,
    pub unspendable: u32,
    pub pending_incoming: u32,
    pub pending_outgoing: u32,
    pub nonce: u64,
    pub credits: usize,
}

/// The same, as it is spoken of.
#[verifier::ext_equal]
pub struct AccountShown {
    pub address: Seq<char>,
    pub confirmed: u32,
    pub available: u32,
    pub unspendable: u32,
    pub pending_incoming: u32,
    pub pending_outgoing: u32,
    pub nonce: u64,
    pub credits: usize,
}

impl View for AccountResponse {
    type V = AccountShown;

    open spec fn view(&self) -> AccountShown {
        AccountShown {
            address: self.address@,
            confirmed: self.confirmed,
            available: self.available,
            unspendable: self.unspendable,
            pending_incoming: self.pending_incoming,
            pending_outgoing: self.pending_outgoing,
            nonce: self.nonce,
            credits: self.credits,
        }
    }
}

/// An account with its pending balance as it is shown.
pub open spec fn account_shown(account: Account, pending: PendingBalance) -> AccountShown {
    AccountShown {
        address: text::hex_text(account.address.0@),
        confirmed: account.balance.0,
        available: account.available.0,
        unspendable: account.unspendable.0,
        pending_incoming: pending.incoming.0,
        pending_outgoing: pending.outgoing.0,
        nonce: account.nonce.0,
        credits: account.credits,
    }
}

/// All accounts in the order of their addresses.
pub fn rpc_accounts(node: &Node) -> (r: Vec<AccountResponse>)
    requires
        node.wf(),
    ensures
        r@.len() == node.ledger.accounts.rows().len(),
        forall|i: int|
            0 <= i < r@.len() ==> (#[trigger] r@[i])@ == account_shown(
                node.ledger.accounts.rows()[i].1,
                node::pending_sum(
                    mempool::pending_transactions(node.mempool@.entries),
                    node.ledger.accounts.rows()[i].1.address,
                ),
            ),
{
    let mut out: Vec<AccountResponse> = Vec::new();
    let mut i: usize = 0;
    while i < node.ledger.accounts.len()
        invariant
            node.wf(),
            i <= node.ledger.accounts.rows().len(),
            out@.len() == i,
            forall|j: int|
                0 <= j < i ==> (#[trigger] out@[j])@ == account_shown(
                    node.ledger.accounts.rows()[j].1,
                    node::pending_sum(
                        mempool::pending_transactions(node.mempool@.entries),
                        node.ledger.accounts.rows()[j].1.address,
                    ),
                ),
        decreases node.ledger.accounts.rows().len() - i,
    {
        let account = node.ledger.accounts.value(i);
        let pending = node.pending_balance(&account.address);
        out.push(
            AccountResponse {
                address: parse::address_to_string(&account.address),
                confirmed: account.balance.0,
                available: account.available.0,
                unspendable: account.unspendable.0,
                pending_incoming: pending.incoming.0,
                pending_outgoing: pending.outgoing.0,
                nonce: account.nonce.0,
                credits: account.credits,
            },
        );
        i = i + 1;
    }
    out
}

/// The pending transactions as they are shown.
pub fn rpc_mempool(node: &Node) -> (r: Vec<TxResponse>)
    requires
        node.wf(),
    ensures
        ({
            let list = mempool::pending_transactions(node.mempool@.entries);
            rpc::shown_in(r@) == Seq::new(list.len(), |i: int| rpc::pending(list[i]))
        }),
{
    let list = node.mempool.transactions();
    let mut out: Vec<TxResponse> = Vec::new();
    let mut i: usize = 0;
    while i < list.len()
        invariant
            i <= list@.len(),
            out@.len() == i,
            forall|j: int| 0 <= j < i ==> (#[trigger] out@[j])@ == rpc::pending(list@[j]),
        decreases list@.len() - i,
    {
        out.push(rpc::tx_response(&list[i], None, None, "pending"));
        i = i + 1;
    }
    assert(rpc::shown_in(out@) =~= Seq::new(list@.len(), |i: int| rpc::pending(list@[i])));
    out
}

/// Another node as it is shown.
#[derive(Debug, PartialEq, Eq)]
pub struct PeerResponse {
    pub addr: String,
    pub failures: u32,
    pub last_tip: Option<u64>,
}

/// The other nodes in the order of their addresses.
pub fn rpc_peers(peers: &PeerTable) -> (r: Vec<PeerResponse>)
    requires
        peers.wf(),
    ensures
        r@.len() == peers.rows().len(),
        forall|i: int|
            0 <= i < r@.len() ==> (#[trigger] r@[i]).addr@ == peers.rows()[i].1.name@
                && r@[i].failures == peers.rows()[i].1.failures && r@[i].last_tip == (
            match peers.rows()[i].1.last_tip {
                Some(height) => Some(height.0),
                None => None,
            }),
{
    let mut out: Vec<PeerResponse> = Vec::new();
    let mut i: usize = 0;
    proof {
        peers.is_in_order();
    }
    while i < peers.len()
        invariant
            peers.wf(),
            peers.rows().len() == peers@.dom().len(),
            i <= peers.rows().len(),
            out@.len() == i,
            forall|j: int|
                0 <= j < i ==> (#[trigger] out@[j]).addr@ == peers.rows()[j].1.name@
                    && out@[j].failures == peers.rows()[j].1.failures && out@[j].last_tip == (
                match peers.rows()[j].1.last_tip {
                    Some(height) => Some(height.0),
                    None => None,
                }),
        decreases peers.rows().len() - i,
    {
        let peer = peers.peer_at(i);
        out.push(
            PeerResponse {
                addr: peer.name.clone(),
                failures: peer.failures,
                last_tip: match peer.last_tip {
                    Some(height) => Some(height.0),
                    None => None,
                },
            },
        );
        i = i + 1;
    }
    out
}

/// The state of the node as it is shown.
#[derive(Debug, PartialEq, Eq)]
pub struct StatusResponse {
    pub protocol_version: u8,
    pub height: u64,
    pub tip_hash: String,
    pub peers: usize,
    pub mining: bool,
}

/// The state of the node as it is shown.
pub fn rpc_status(node: &Node, peers: &PeerTable, mining: bool) -> (r: StatusResponse)
    requires
        peers.wf(),
    ensures
        r.protocol_version == node.params.protocol_version,
        r.height == node.height_spec(),
        r.tip_hash@ == display::hash_words(node.ledger.tip_hash_spec()),
        r.peers == peers@.dom().len(),
        r.mining == mining,
{
    StatusResponse {
        protocol_version: node.params.protocol_version,
        height: node.height(),
        tip_hash: display::format_hash(node.tip_hash()),
        peers: peers.len(),
        mining,
    }
}

/// Why a transaction that was handed in was not taken: the pool refused it, or
/// the ledger could not be written down.
#[derive(Debug, PartialEq, Eq)]
pub enum SubmitFailure {
    Refused(NodeError),
    NotFlushed(NodeError),
}

/// Takes a transaction that was handed in at the time `now`, and gives its hash
/// in digits.
pub fn rpc_submit_tx(node: &mut Node, t: SignedTransaction, now: u64) -> (r: Result<
    String,
    SubmitFailure,
>)
    requires
        old(node).wf(),
    ensures
        final(node).wf(),
        storage::journaled(old(node).storage, final(node).storage),
        *final(node) == (Node {
            mempool: final(node).mempool,
            storage: final(node).storage,
            ..*old(node)
        }),
        final(node).mempool.limits() == old(node).mempool.limits(),
        final(node).mempool.chain() == old(node).mempool.chain(),
        ({
            let inserted = mempool::validated_insertion(
                old(node).mempool@,
                old(node).mempool.limits(),
                old(node).mempool.chain(),
                old(node).ledger,
                t,
                now,
            );
            &&& final(node).mempool@ == inserted.0
            &&& match inserted.1 {
                Err(error) => final(node).storage@ == old(node).storage@ && r == Err::<
                    String,
                    SubmitFailure,
                >(SubmitFailure::Refused(NodeError::Mempool(error))),
                Ok(_) => final(node).storage@ == storage::with_ledger(
                    old(node).storage@,
                    old(node).ledger,
                ).0 && if storage::with_ledger(old(node).storage@, old(node).ledger).1 {
                    r matches Ok(hash) && hash@ == text::hex_text(t.hash.0@)
                } else {
                    r == Err::<String, SubmitFailure>(
                        SubmitFailure::NotFlushed(
                            NodeError::Storage(
                                storage::StorageError::Integrity("transaction index exceeds u32"),
                            ),
                        ),
                    )
                },
            }
        }),
{
    proof {
        storage::journaled_reflexive(node.storage);
    }
    match node.submit_transaction_at(t, now) {
        Err(error) => Err(SubmitFailure::Refused(error)),
        Ok(_) => match node.flush_to_storage() {
            Err(error) => Err(SubmitFailure::NotFlushed(error)),
            Ok(()) => Ok(parse::bytes_to_hex(t.hash.0.as_slice())),
        },
    }
}

impl SubmitFailure {
    /// Whether the one who handed the transaction in is to blame.
    pub fn is_bad_request(&self) -> (r: bool)
        ensures
            r == (*self is Refused),
    {
        match self {
            SubmitFailure::Refused(_) => true,
            SubmitFailure::NotFlushed(_) => false,
        }
    }

    /// The failure in words; `inner` are the words of the error that the node
    /// error carries.
    pub fn message(&self, inner: &str) -> (r: String)
        ensures
            r@ == (match *self {
                SubmitFailure::Refused(error) => "failed to submit transaction: "@
                    + errors::node_words(error, inner@),
                SubmitFailure::NotFlushed(error) => "failed to flush transaction: "@
                    + errors::node_words(error, inner@),
            }),
    {
        match self {
            SubmitFailure::Refused(error) => text::join2(
                "failed to submit transaction: ",
                error.message(inner).as_str(),
            ),
            SubmitFailure::NotFlushed(error) => text::join2(
                "failed to flush transaction: ",
                error.message(inner).as_str(),
            ),
        }
    }
}

} // verus!
