//! Wallets, and what they sign.

use crate::order::{self, Rank};
use crate::parse;
use crate::sort::{self, SortOrder};
use crate::text;
use crate::types::{Address, Digest, SignedTransaction, Transaction, TransactionError};
use vstd::prelude::*;
use vstd::string::*;

verus! {

/// Why a wallet does not sign.
#[derive(Clone, Copy, Debug, PartialEq, Eq, Structural)]
pub enum WalletError {
    SenderAddressMismatch,
}

impl WalletError {
    /// The error in words.
    pub fn message(&self) -> (r: &'static str)
        ensures
            r@ == "transaction sender does not match wallet address"@,
    {
        "transaction sender does not match wallet address"
    }
}

/// A pair of keys and the address that goes with it.
#[derive(Clone, Debug, PartialEq, Eq)]
pub struct Wallet {
    pub public_key: Vec<u8>,
    pub secret_key: Vec<u8>,
    pub address: Address,
}

/// What a signature makes of a transaction: its hash, its length in bytes, and
/// whether it is found valid.
#[derive(Clone, Copy, Debug, PartialEq, Eq)]
pub struct Signature {
    pub hash: Digest,
    pub size: usize,
    pub signed: Result<(), TransactionError>,
}

impl Wallet {
    /// The address in hexadecimal digits.
    pub fn wallet_address(&self) -> (r: String)
        ensures
            r@ == text::hex_text(self.address.0@),
    {
        parse::address_to_string(&self.address)
    }

    /// Fails where the transaction is not sent from the address of the wallet.
    pub fn check_sender(&self, transaction: &Transaction) -> (r: Result<(), WalletError>)
        ensures
            r == (if transaction.from == self.address {
                Ok::<(), WalletError>(())
            } else {
                Err(WalletError::SenderAddressMismatch)
            }),
    {
        if transaction.from.same(&self.address) {
            Ok(())
        } else {
            Err(WalletError::SenderAddressMismatch)
        }
    }

    /// The transaction with the signature that the secret key gave it.
    pub fn sign_transaction(&self, transaction: Transaction, signature: Signature) -> (r: Result<
        SignedTransaction,
        WalletError,
    >)
        ensures
            r == (if transaction.from == self.address {
                Ok(
                    SignedTransaction {
                        transaction,
                        hash: signature.hash,
                        size: signature.size,
                        signed: signature.signed,
                    },
                )
            } else {
                Err(WalletError::SenderAddressMismatch)
            }),
    {
        match self.check_sender(&transaction) {
            Ok(()) => Ok(
                SignedTransaction {
                    transaction,
                    hash: signature.hash,
                    size: signature.size,
                    signed: signature.signed,
                },
            ),
            Err(error) => Err(error),
        }
    }
}

/// The address and the secret key in a wallet file.
pub fn wallet_file_keys(address: &String, secret_key: &String, key_size: usize) -> (r: Result<
    (Address, Vec<u8>),
    String,
>)
    ensures
        match parse::address_in(address@) {
            Err(error) => r matches Err(words) && words@ == error,
            Ok(a) => match parse::secret_key_in(secret_key@, key_size as int) {
                Err(error) => r matches Err(words) && words@ == error,
                Ok(key) => r matches Ok(keys) && keys.0.0@ == a && keys.1@ == key,
            },
        },
{
    let address = match parse::parse_address(Some(address)) {
        Ok(address) => address,
        Err(error) => {
            return Err(error);
        },
    };
    match parse::parse_secret_key(Some(secret_key), key_size) {
        Ok(key) => Ok((address, key)),
        Err(error) => Err(error),
    }
}

/// The wallet of a file's secret key, if its address is the one in the file.
pub fn matching_wallet(wallet: Wallet, address: Address) -> (r: Result<Wallet, String>)
    ensures
        if wallet.address == address {
            r == Ok::<Wallet, String>(wallet)
        } else {
            r matches Err(words) && words@ == "wallet address does not match secret key"@
        },
{
    if wallet.address.same(&address) {
        Ok(wallet)
    } else {
        Err(text::owned("wallet address does not match secret key"))
    }
}

/// A wallet and the file that it came from.
#[derive(Debug, PartialEq, Eq)]
pub struct WalletEntry {
    pub path: String,
    pub wallet: Wallet,
}

/// The order of wallets by the bytes of their paths.
pub struct ByPath;

impl SortOrder<WalletEntry> for ByPath {
    open spec fn before(a: WalletEntry, b: WalletEntry) -> bool {
        order::lex_less(vstd::utf8::encode_utf8(a.path@), vstd::utf8::encode_utf8(b.path@))
    }

    proof fn irreflexive(a: WalletEntry) {
    }

    proof fn transitive(a: WalletEntry, b: WalletEntry, c: WalletEntry) {
        order::lex_less_transitive(
            vstd::utf8::encode_utf8(a.path@),
            vstd::utf8::encode_utf8(b.path@),
            vstd::utf8::encode_utf8(c.path@),
        );
    }

    proof fn negatively_transitive(a: WalletEntry, b: WalletEntry, c: WalletEntry) {
        let x = vstd::utf8::encode_utf8(a.path@);
        let y = vstd::utf8::encode_utf8(b.path@);
        let z = vstd::utf8::encode_utf8(c.path@);
        if order::lex_less(x, z) {
            if x != y {
                order::lex_less_total(x, y);
                if y != z {
                    order::lex_less_transitive(y, x, z);
                }
            }
        }
    }

    fn is_before(a: &WalletEntry, b: &WalletEntry) -> (r: bool) {
        let left = a.path.as_str().as_bytes();
        let right = b.path.as_str().as_bytes();
        match order::rank(left, right) {
            Rank::Before => true,
            Rank::Same => {
                proof {
                    order::lex_less_irreflexive(left@);
                }
                false
            },
            Rank::After => {
                proof {
                    order::lex_less_asymmetric(right@, left@);
                }
                false
            },
        }
    }
}

/// The first of each run of wallets from one path.
pub open spec fn runs_joined(s: Seq<WalletEntry>) -> Seq<WalletEntry>
    decreases s.len(),
{
    if s.len() == 0 {
        Seq::empty()
    } else {
        let before = runs_joined(s.drop_last());
        if before.len() > 0 && before.last().path@ == s.last().path@ {
            before
        } else {
            before.push(s.last())
        }
    }
}

/// The wallets that were found, by their paths, one for each path.
pub fn listed_wallets(found: Vec<WalletEntry>) -> (r: Vec<WalletEntry>)
    ensures
        r@ == runs_joined(sort::stable_sorted::<WalletEntry, ByPath>(found@)),
{
    let mut left = sort::stable_sort::<WalletEntry, ByPath>(found);
    let ghost all = left@;
    let mut out: Vec<WalletEntry> = Vec::new();
    let ghost mut done: int = 0;
    assert(all.take(0) =~= Seq::empty());
    assert(all.skip(0) =~= all);
    while left.len() > 0
        invariant
            0 <= done <= all.len(),
            left@ == all.skip(done),
            out@ == runs_joined(all.take(done)),
        decreases left@.len(),
    {
        let entry = left.remove(0);
        proof {
            assert(all.take(done + 1).drop_last() =~= all.take(done));
            assert(all.skip(done).remove(0) =~= all.skip(done + 1));
            done = done + 1;
        }
        if out.len() > 0 && text::same_text(out[out.len() - 1].path.as_str(), entry.path.as_str()) {
        } else {
            out.push(entry);
        }
    }
    assert(all.take(done) =~= all);
    out
}

/// Joining the runs of a sorted list leaves each path once, in strict order, and
/// no path is lost.
proof fn joined_runs_are_strict(s: Seq<WalletEntry>)
    requires
        sort::sorted::<WalletEntry, ByPath>(s),
    ensures
        ({
            let r = runs_joined(s);
            &&& forall|i: int, j: int|
                0 <= i < j < r.len() ==> ByPath::before(#[trigger] r[i], #[trigger] r[j])
            &&& forall|i: int|
                0 <= i < s.len() ==> exists|j: int|
                    0 <= j < r.len() && (#[trigger] r[j]).path@ == (#[trigger] s[i]).path@
            &&& s.len() > 0 ==> r.len() > 0 && r.last().path@ == s.last().path@
        }),
    decreases s.len(),
{
    if s.len() > 0 {
        let short = s.drop_last();
        let before = runs_joined(short);
        let r = runs_joined(s);
        joined_runs_are_strict(short);
        assert forall|i: int| 0 <= i < s.len() implies exists|j: int|
            0 <= j < r.len() && (#[trigger] r[j]).path@ == (#[trigger] s[i]).path@ by {
            if i < short.len() {
                assert(short[i] == s[i]);
                let j = choose|j: int|
                    0 <= j < before.len() && (#[trigger] before[j]).path@ == short[i].path@;
                assert(r[j] == before[j]);
            } else {
                assert(r[r.len() - 1].path@ == s[i].path@);
            }
        }
        if before.len() > 0 && before.last().path@ != s.last().path@ {
            let x = vstd::utf8::encode_utf8(before.last().path@);
            let y = vstd::utf8::encode_utf8(s.last().path@);
            assert(!ByPath::before(s[s.len() - 1], s[short.len() - 1]));
            vstd::utf8::encode_utf8_decode_utf8(before.last().path@);
            vstd::utf8::encode_utf8_decode_utf8(s.last().path@);
            assert(x != y);
            order::lex_less_total(x, y);
            assert forall|i: int, j: int| 0 <= i < j < r.len() implies ByPath::before(
                #[trigger] r[i],
                #[trigger] r[j],
            ) by {
                if j < before.len() {
                    assert(before[i] == r[i] && before[j] == r[j]);
                } else if i < before.len() - 1 {
                    assert(ByPath::before(before[i], before[before.len() - 1]));
                    ByPath::transitive(before[i], before.last(), s.last());
                }
            }
        }
    }
}

/// The listed wallets stand in the strict order of their paths, so each path
/// comes once; and no path is left out.
pub proof fn listed_wallets_come_once(found: Seq<WalletEntry>)
    ensures
        ({
            let r = runs_joined(sort::stable_sorted::<WalletEntry, ByPath>(found));
            &&& forall|i: int, j: int|
                0 <= i < j < r.len() ==> ByPath::before(#[trigger] r[i], #[trigger] r[j])
            &&& forall|i: int|
                0 <= i < found.len() ==> exists|j: int|
                    0 <= j < r.len() && (#[trigger] r[j]).path@ == (#[trigger] found[i]).path@
        }),
{
    let s = sort::stable_sorted::<WalletEntry, ByPath>(found);
    let r = runs_joined(s);
    sort::stable_sorted_is_sorted::<WalletEntry, ByPath>(found);
    sort::stable_sorted_is_permutation::<WalletEntry, ByPath>(found);
    joined_runs_are_strict(s);
    assert forall|i: int| 0 <= i < found.len() implies exists|j: int|
        0 <= j < r.len() && (#[trigger] r[j]).path@ == (#[trigger] found[i]).path@ by {
        broadcast use vstd::seq_lib::group_to_multiset_ensures;

        assert(found.contains(found[i]));
        assert(found.to_multiset().count(found[i]) > 0);
        assert(s.contains(found[i]));
        let k = choose|k: int| 0 <= k < s.len() && s[k] == found[i];
        assert(s[k].path@ == found[i].path@);
    }
}

/// A pending transaction as a node lists it.
#[derive(Debug, PartialEq, Eq)]
pub struct PendingNonce {
    pub from: String,
    pub nonce: u64,
}

/// The nonce is pending for an address, which is given in hexadecimal digits.
pub open spec fn is_pending(pending: Seq<PendingNonce>, address: Seq<char>, nonce: u64) -> bool {
    exists|i: int|
        0 <= i < pending.len() && (#[trigger] pending[i]).from@ == address && pending[i].nonce
            == nonce
}

/// The ascending order of numbers.
pub struct Ascending;

impl SortOrder<u64> for Ascending {
    open spec fn before(a: u64, b: u64) -> bool {
        a < b
    }

    proof fn irreflexive(a: u64) {
    }

    proof fn transitive(a: u64, b: u64, c: u64) {
    }

    proof fn negatively_transitive(a: u64, b: u64, c: u64) {
    }

    fn is_before(a: &u64, b: &u64) -> (r: bool) {
        *a < *b
    }
}

/// The nonces that are pending for an address, as they are listed.
fn pending_nonces(pending: &Vec<PendingNonce>, address: &str) -> (r: Vec<u64>)
    ensures
        forall|n: u64| #[trigger] r@.contains(n) <==> is_pending(pending@, address@, n),
{
    let mut out: Vec<u64> = Vec::new();
    let mut i: usize = 0;
    while i < pending.len()
        invariant
            i <= pending@.len(),
            forall|j: int|
                0 <= j < i && (#[trigger] pending@[j]).from@ == address@ ==> out@.contains(
                    pending@[j].nonce,
                ),
            forall|j: int|
                0 <= j < out@.len() ==> is_pending(pending@, address@, #[trigger] out@[j]),
        decreases pending@.len() - i,
    {
        let ghost before = out@;
        if text::same_text(pending[i].from.as_str(), address) {
            out.push(pending[i].nonce);
            proof {
                assert(is_pending(pending@, address@, pending@[i as int].nonce));
                assert(out@[out@.len() - 1] == pending@[i as int].nonce);
                assert forall|j: int|
                    0 <= j < i && (#[trigger] pending@[j]).from@ == address@ implies out@.contains(
                    pending@[j].nonce,
                ) by {
                    let k = choose|k: int|
                        0 <= k < before.len() && before[k] == pending@[j].nonce;
                    assert(out@[k] == pending@[j].nonce);
                }
            }
        }
        i = i + 1;
    }
    out
}

/// The nonce for the next transaction of an address: the first from its account's
/// nonce on that is not pending, or the last nonce there is.
pub fn resolve_wallet_nonce(
    address: &Address,
    account_nonce: Option<u64>,
    pending: &Vec<PendingNonce>,
) -> (r: u64)
    ensures
        ({
            let start = match account_nonce {
                Some(nonce) => nonce,
                None => 0u64,
            };
            let digits = text::hex_text(address.0@);
            &&& start <= r
            &&& forall|n: u64| start <= n < r ==> #[trigger] is_pending(pending@, digits, n)
            &&& r < u64::MAX ==> !is_pending(pending@, digits, r)
        }),
{
    let digits = parse::address_to_string(address);
    let start: u64 = match account_nonce {
        Some(nonce) => nonce,
        None => 0,
    };
    let mut next: u64 = start;
    let listed = pending_nonces(pending, digits.as_str());
    let ghost raw = listed@;
    let nonces = sort::stable_sort::<u64, Ascending>(listed);
    proof {
        assert forall|n: u64| nonces@.contains(n) <==> is_pending(pending@, digits@, n) by {
            broadcast use vstd::seq_lib::group_to_multiset_ensures;

            assert(raw.contains(n) <==> raw.to_multiset().count(n) > 0);
            assert(nonces@.contains(n) <==> nonces@.to_multiset().count(n) > 0);
        }
    }
    let mut i: usize = 0;
    while i < nonces.len()
        invariant
            i <= nonces@.len(),
            start == (match account_nonce {
                Some(nonce) => nonce,
                None => 0u64,
            }),
            digits@ == text::hex_text(address.0@),
            start <= next,
            sort::sorted::<u64, Ascending>(nonces@),
            forall|n: u64| nonces@.contains(n) <==> is_pending(pending@, digits@, n),
            forall|n: u64| start <= n < next ==> #[trigger] is_pending(pending@, digits@, n),
            forall|j: int| 0 <= j < i ==> #[trigger] nonces@[j] < next || next == u64::MAX,
        decreases nonces@.len() - i,
    {
        let nonce: u64 = nonces[i];
        if nonce == next {
            assert(nonces@.contains(next));
            if next < u64::MAX {
                next = next + 1;
            }
        } else if nonce > next {
            proof {
                if is_pending(pending@, digits@, next) {
                    assert(nonces@.contains(next));
                    let k = choose|k: int| 0 <= k < nonces@.len() && nonces@[k] == next;
                    assert(k > i);
                    assert(!Ascending::before(nonces@[k], nonces@[i as int]));
                }
            }
            return next;
        }
        i = i + 1;
    }
    proof {
        if next < u64::MAX && is_pending(pending@, digits@, next) {
            assert(nonces@.contains(next));
        }
    }
    next
}

/// The text of a wallet file: the address and the two keys in hexadecimal digits.
pub open spec fn file_text(wallet: Wallet) -> Seq<char> {
    "{\n  \"address\": \""@ + text::hex_text(wallet.address.0@) + "\",\n  \"public_key\": \""@
        + text::hex_text(wallet.public_key@) + "\",\n  \"secret_key\": \""@ + text::hex_text(
        wallet.secret_key@,
    ) + "\"\n}"@
}

/// The text of a wallet file.
pub fn wallet_file_text(wallet: &Wallet) -> (r: String)
    ensures
        r@ == file_text(*wallet),
{
    let mut out = text::join4(
        "{\n  \"address\": \"",
        wallet.wallet_address().as_str(),
        "\",\n  \"public_key\": \"",
        parse::bytes_to_hex(wallet.public_key.as_slice()).as_str(),
    );
    out.append("\",\n  \"secret_key\": \"");
    out.append(parse::bytes_to_hex(wallet.secret_key.as_slice()).as_str());
    out.append("\"\n}");
    out
}

/// The body that hands a signed transaction, in hexadecimal digits, to a node.
pub fn submit_body(tx_hex: &str) -> (r: String)
    ensures
        r@ == "{\"tx\":\""@ + tx_hex@ + "\"}"@,
{
    text::join3("{\"tx\":\"", tx_hex, "\"}")
}

/// What is shown of a transaction that was signed and goes nowhere.
pub open spec fn shown(t: SignedTransaction, tx_hex: Seq<char>) -> Seq<char> {
    "{\"tx\":\""@ + tx_hex + "\",\"hash\":\""@ + text::hex_text(t.hash.0@) + "\",\"from\":\""@
        + text::hex_text(t.transaction.from.0@) + "\",\"to\":\""@ + text::hex_text(
        t.transaction.to.0@,
    ) + "\",\"amount\":"@ + text::decimal(t.transaction.amount.0 as nat) + ",\"fee\":"@
        + text::decimal(t.transaction.fee.0 as nat) + ",\"nonce\":"@ + text::decimal(
        t.transaction.nonce.0 as nat,
    ) + ",\"timestamp\":"@ + text::decimal(t.transaction.timestamp as nat) + "}"@
}

/// What is shown of a transaction that was signed and goes nowhere.
pub fn shown_transaction(t: &SignedTransaction, tx_hex: &str) -> (r: String)
    ensures
        r@ == shown(*t, tx_hex@),
{
    let mut out = text::join2("{\"tx\":\"", tx_hex);
    out.append("\",\"hash\":\"");
    out.append(parse::bytes_to_hex(t.hash.0.as_slice()).as_str());
    out.append("\",\"from\":\"");
    out.append(parse::address_to_string(&t.transaction.from).as_str());
    out.append("\",\"to\":\"");
    out.append(parse::address_to_string(&t.transaction.to).as_str());
    out.append("\",\"amount\":");
    out.append(text::decimal_text(t.transaction.amount.0 as u64).as_str());
    out.append(",\"fee\":");
    out.append(text::decimal_text(t.transaction.fee.0 as u64).as_str());
    out.append(",\"nonce\":");
    out.append(text::decimal_text(t.transaction.nonce.0).as_str());
    out.append(",\"timestamp\":");
    out.append(text::decimal_text(t.transaction.timestamp).as_str());
    out.append("}");
    out
}

} // verus!
