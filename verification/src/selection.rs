//! Which pending transactions go into a block, and in what order.

use crate::mempool::{self, Mempool, MempoolEntry};
use crate::order::{self, OrderedKey};
use crate::ordered_map;
use crate::sort::{self, SortOrder};
use crate::types::{self, Digest, SignedTransaction};
use vstd::prelude::*;

verus! {

/// Transactions by sender, those of one sender by nonce, those of one nonce by
/// hash.
pub struct BySender;

impl SortOrder<SignedTransaction> for BySender {
    open spec fn before(a: SignedTransaction, b: SignedTransaction) -> bool {
        ||| a.transaction.from.precedes(b.transaction.from)
        ||| a.transaction.from == b.transaction.from && (a.transaction.nonce.0
            < b.transaction.nonce.0 || (a.transaction.nonce.0 == b.transaction.nonce.0
            && a.hash.precedes(b.hash)))
    }

    proof fn irreflexive(a: SignedTransaction) {
        order::lex_less_irreflexive(a.transaction.from.0@);
        order::lex_less_irreflexive(a.hash.0@);
    }

    proof fn transitive(a: SignedTransaction, b: SignedTransaction, c: SignedTransaction) {
        let (f, g, h) = (a.transaction.from.0@, b.transaction.from.0@, c.transaction.from.0@);
        if order::lex_less(f, g) && order::lex_less(g, h) {
            order::lex_less_transitive(f, g, h);
        }
        if order::lex_less(a.hash.0@, b.hash.0@) && order::lex_less(b.hash.0@, c.hash.0@) {
            order::lex_less_transitive(a.hash.0@, b.hash.0@, c.hash.0@);
        }
    }

    proof fn negatively_transitive(
        a: SignedTransaction,
        b: SignedTransaction,
        c: SignedTransaction,
    ) {
        if Self::before(a, c) {
            by_sender_is_total(a, b);
            by_sender_is_total(b, c);
            if Self::before(b, a) {
                Self::transitive(b, a, c);
            } else {
                if Self::before(c, b) {
                    Self::transitive(a, c, b);
                }
            }
        }
    }

    fn is_before(a: &SignedTransaction, b: &SignedTransaction) -> (r: bool) {
        proof {
            order::lex_less_irreflexive(a.transaction.from.0@);
        }
        match a.transaction.from.rank(&b.transaction.from) {
            order::Rank::Before => true,
            order::Rank::After => {
                proof {
                    order::lex_less_asymmetric(b.transaction.from.0@, a.transaction.from.0@);
                }
                false
            },
            order::Rank::Same => {
                if a.transaction.nonce.0 < b.transaction.nonce.0 {
                    true
                } else if b.transaction.nonce.0 < a.transaction.nonce.0 {
                    false
                } else {
                    match a.hash.rank(&b.hash) {
                        order::Rank::Before => true,
                        _ => false,
                    }
                }
            },
        }
    }
}

/// Two transactions are ordered unless sender, nonce and hash agree.
proof fn by_sender_is_total(a: SignedTransaction, b: SignedTransaction)
    ensures
        BySender::before(a, b) || BySender::before(b, a) || (a.transaction.from
            == b.transaction.from && a.transaction.nonce == b.transaction.nonce && a.hash
            == b.hash),
{
    types::address_is_its_bytes(a.transaction.from, b.transaction.from);
    types::hash_is_its_bytes(a.hash, b.hash);
    if a.transaction.from != b.transaction.from {
        order::lex_less_total(a.transaction.from.0@, b.transaction.from.0@);
    } else if a.hash != b.hash {
        order::lex_less_total(a.hash.0@, b.hash.0@);
    }
}

/// The pending transactions by sender, nonce and hash.
pub open spec fn by_sender(entries: Map<Digest, MempoolEntry>) -> Seq<SignedTransaction> {
    sort::stable_sorted::<SignedTransaction, BySender>(mempool::pending_transactions(entries))
}

/// Transaction `i` is the first of its sender.
pub open spec fn is_head(queue: Seq<SignedTransaction>, i: int) -> bool {
    &&& 0 <= i < queue.len()
    &&& i == 0 || queue[i - 1].transaction.from != queue[i].transaction.from
}

/// `a` is taken rather than `b`: its fee is higher or, at the same fee, its
/// nonce lower or, at the same nonce, its hash smaller.
pub open spec fn outranks(a: SignedTransaction, b: SignedTransaction) -> bool {
    ||| a.transaction.fee.0 > b.transaction.fee.0
    ||| a.transaction.fee.0 == b.transaction.fee.0 && (a.transaction.nonce.0
        < b.transaction.nonce.0 || (a.transaction.nonce.0 == b.transaction.nonce.0
        && a.hash.precedes(b.hash)))
}

/// Of the transactions that are first of their senders, `i` is taken.
pub open spec fn is_best(queue: Seq<SignedTransaction>, i: int) -> bool {
    &&& is_head(queue, i)
    &&& forall|j: int| #[trigger] is_head(queue, j) && j != i ==> outranks(queue[i], queue[j])
}

/// Up to `limit` transactions of a queue by sender: again and again the best of
/// those that are first of their senders.
pub open spec fn selection(queue: Seq<SignedTransaction>, limit: nat) -> Seq<SignedTransaction>
    decreases limit,
{
    if limit == 0 || queue.len() == 0 {
        Seq::empty()
    } else {
        let i = choose|i: int| is_best(queue, i);
        seq![queue[i]] + selection(queue.remove(i), (limit - 1) as nat)
    }
}

/// No two transactions have one hash.
pub open spec fn distinct(queue: Seq<SignedTransaction>) -> bool {
    forall|i: int, j: int|
        0 <= i < j < queue.len() ==> (#[trigger] queue[i]).hash != (#[trigger] queue[j]).hash
}

proof fn outranks_transitive(a: SignedTransaction, b: SignedTransaction, c: SignedTransaction)
    requires
        outranks(a, b),
        outranks(b, c),
    ensures
        outranks(a, c),
{
    if order::lex_less(a.hash.0@, b.hash.0@) && order::lex_less(b.hash.0@, c.hash.0@) {
        order::lex_less_transitive(a.hash.0@, b.hash.0@, c.hash.0@);
    }
}

proof fn outranks_asymmetric(a: SignedTransaction, b: SignedTransaction)
    requires
        outranks(a, b),
    ensures
        !outranks(b, a),
{
    if order::lex_less(a.hash.0@, b.hash.0@) {
        order::lex_less_asymmetric(a.hash.0@, b.hash.0@);
    }
}

proof fn best_is_unique(queue: Seq<SignedTransaction>, i: int, j: int)
    requires
        is_best(queue, i),
        is_best(queue, j),
    ensures
        i == j,
{
    if i != j {
        assert(is_head(queue, i) && is_head(queue, j));
        outranks_asymmetric(queue[i], queue[j]);
    }
}

/// Of two transactions with different hashes one outranks the other.
proof fn outranks_total(a: SignedTransaction, b: SignedTransaction)
    requires
        a.hash != b.hash,
    ensures
        outranks(a, b) || outranks(b, a),
{
    types::hash_is_its_bytes(a.hash, b.hash);
    order::lex_less_total(a.hash.0@, b.hash.0@);
}

/// The best of the first `k` transactions that are first of their senders.
proof fn best_exists_upto(queue: Seq<SignedTransaction>, k: int) -> (i: int)
    requires
        distinct(queue),
        0 < k <= queue.len(),
    ensures
        0 <= i < k,
        is_head(queue, i),
        forall|j: int| #[trigger]
            is_head(queue, j) && j != i && j < k ==> outranks(queue[i], queue[j]),
    decreases k,
{
    if k == 1 {
        0
    } else {
        let b = best_exists_upto(queue, k - 1);
        let n = k - 1;
        if is_head(queue, n) && outranks(queue[n], queue[b]) {
            assert forall|j: int| #[trigger] is_head(queue, j) && j != n && j
                < k implies outranks(queue[n], queue[j]) by {
                if j != b {
                    outranks_transitive(queue[n], queue[b], queue[j]);
                }
            }
            n
        } else {
            if is_head(queue, n) {
                assert(queue[b].hash != queue[n].hash);
                outranks_total(queue[b], queue[n]);
            }
            b
        }
    }
}

/// A queue that is not empty has a best transaction.
pub proof fn best_exists(queue: Seq<SignedTransaction>)
    requires
        distinct(queue),
        queue.len() > 0,
    ensures
        is_best(queue, choose|i: int| is_best(queue, i)),
{
    let i = best_exists_upto(queue, queue.len() as int);
    assert(is_best(queue, i));
}

proof fn distinct_without(queue: Seq<SignedTransaction>, i: int)
    requires
        distinct(queue),
        0 <= i < queue.len(),
    ensures
        distinct(queue.remove(i)),
{
    let rest = queue.remove(i);
    assert forall|a: int, b: int| 0 <= a < b < rest.len() implies (#[trigger] rest[a]).hash != (
    #[trigger] rest[b]).hash by {
        let p = if a < i { a } else { a + 1 };
        let q = if b < i { b } else { b + 1 };
        assert(rest[a] == queue[p] && rest[b] == queue[q]);
    }
}

proof fn sorted_without(queue: Seq<SignedTransaction>, i: int)
    requires
        sort::sorted::<SignedTransaction, BySender>(queue),
        0 <= i < queue.len(),
    ensures
        sort::sorted::<SignedTransaction, BySender>(queue.remove(i)),
{
    let rest = queue.remove(i);
    assert forall|a: int, b: int| 0 <= a < b < rest.len() implies !BySender::before(
        #[trigger] rest[b],
        #[trigger] rest[a],
    ) by {
        let p = if a < i { a } else { a + 1 };
        let q = if b < i { b } else { b + 1 };
        assert(rest[a] == queue[p] && rest[b] == queue[q]);
    }
}

/// As many transactions are selected as the limit and the queue admit.
pub proof fn selection_fills_the_block(queue: Seq<SignedTransaction>, limit: nat)
    requires
        distinct(queue),
    ensures
        selection(queue, limit).len() == if limit < queue.len() {
            limit
        } else {
            queue.len()
        },
    decreases limit,
{
    if limit > 0 && queue.len() > 0 {
        let i = choose|i: int| is_best(queue, i);
        best_exists(queue);
        distinct_without(queue, i);
        selection_fills_the_block(queue.remove(i), (limit - 1) as nat);
    }
}

/// What is selected comes from the queue, each transaction once.
pub proof fn selection_comes_from_the_queue(queue: Seq<SignedTransaction>, limit: nat)
    requires
        distinct(queue),
    ensures
        forall|k: int|
            0 <= k < selection(queue, limit).len() ==> queue.contains(
                #[trigger] selection(queue, limit)[k],
            ),
        distinct(selection(queue, limit)),
    decreases limit,
{
    if limit > 0 && queue.len() > 0 {
        let i = choose|i: int| is_best(queue, i);
        best_exists(queue);
        distinct_without(queue, i);
        let rest = queue.remove(i);
        let tail = selection(rest, (limit - 1) as nat);
        let out = selection(queue, limit);
        selection_comes_from_the_queue(rest, (limit - 1) as nat);
        assert forall|k: int| 0 <= k < out.len() implies queue.contains(#[trigger] out[k]) by {
            if k == 0 {
                assert(out[k] == queue[i]);
            } else {
                assert(out[k] == tail[k - 1]);
                assert(rest.contains(tail[k - 1]));
                let a = choose|a: int| 0 <= a < rest.len() && rest[a] == tail[k - 1];
                let p = if a < i { a } else { a + 1 };
                assert(queue[p] == out[k]);
            }
        }
        assert forall|a: int, b: int| 0 <= a < b < out.len() implies (#[trigger] out[a]).hash != (
        #[trigger] out[b]).hash by {
            assert(out[b] == tail[b - 1]);
            if a == 0 {
                assert(rest.contains(tail[b - 1]));
                let c = choose|c: int| 0 <= c < rest.len() && rest[c] == tail[b - 1];
                let p = if c < i { c } else { c + 1 };
                assert(queue[p] == out[b]);
                assert(out[a] == queue[i]);
                if p < i {
                    assert(queue[p].hash != queue[i].hash);
                } else {
                    assert(queue[i].hash != queue[p].hash);
                }
            } else {
                assert(out[a] == tail[a - 1]);
            }
        }
    }
}

/// `x` stands in `s` before position `k`.
pub open spec fn occurs_before(s: Seq<SignedTransaction>, x: SignedTransaction, k: int) -> bool {
    exists|j: int| 0 <= j < k && j < s.len() && #[trigger] s[j] == x
}

/// Before a sender's transaction is selected, all earlier ones of that sender
/// are: the selection never breaks the order of a sender's nonces.
pub proof fn selection_keeps_nonce_order(
    queue: Seq<SignedTransaction>,
    limit: nat,
    k: int,
    p: int,
)
    requires
        distinct(queue),
        sort::sorted::<SignedTransaction, BySender>(queue),
        0 <= k < selection(queue, limit).len(),
        0 <= p < queue.len(),
        queue[p].transaction.from == selection(queue, limit)[k].transaction.from,
        BySender::before(queue[p], selection(queue, limit)[k]),
    ensures
        occurs_before(selection(queue, limit), queue[p], k),
    decreases limit,
{
    let i = choose|i: int| is_best(queue, i);
    best_exists(queue);
    distinct_without(queue, i);
    sorted_without(queue, i);
    let rest = queue.remove(i);
    let tail = selection(rest, (limit - 1) as nat);
    let out = selection(queue, limit);
    assert(out[0] == queue[i]);
    if k == 0 {
        if i < p {
            assert(!BySender::before(queue[p], queue[i]));
        } else if p < i {
            let m = queue[i - 1];
            if p < i - 1 {
                assert(!BySender::before(m, queue[p]));
            }
            assert(!BySender::before(queue[i], m));
            if m.transaction.from != queue[i].transaction.from {
                types::address_is_its_bytes(m.transaction.from, queue[i].transaction.from);
                order::lex_less_total(m.transaction.from.0@, queue[i].transaction.from.0@);
            }
        } else {
            BySender::irreflexive(queue[i]);
        }
        assert(false);
    } else if p == i {
        assert(out[0] == queue[p]);
    } else {
        assert(out[k] == tail[k - 1]);
        let a = if p < i { p } else { p - 1 };
        assert(rest[a] == queue[p]);
        selection_keeps_nonce_order(rest, (limit - 1) as nat, k - 1, a);
        let j = choose|j: int|
            0 <= j < k - 1 && j < tail.len() && #[trigger] tail[j] == queue[p];
        assert(out[j + 1] == queue[p]);
    }
}

/// A transaction whose earlier ones by the same sender are all selected is
/// passed over only for one with a higher fee or, at the same fee, with a lower
/// nonce or, at the same nonce, with a smaller hash.
pub proof fn selection_prefers_fees(queue: Seq<SignedTransaction>, limit: nat, h: int, k: int)
    requires
        distinct(queue),
        0 <= h < queue.len(),
        0 <= k < selection(queue, limit).len(),
        forall|p: int|
            0 <= p < h && (#[trigger] queue[p]).transaction.from == queue[h].transaction.from
                ==> occurs_before(selection(queue, limit), queue[p], k),
        !occurs_before(selection(queue, limit), queue[h], k),
    ensures
        selection(queue, limit)[k] == queue[h] || outranks(selection(queue, limit)[k], queue[h]),
        ({
            let (taken, passed) = (selection(queue, limit)[k], queue[h]);
            &&& taken.transaction.fee.0 >= passed.transaction.fee.0
            &&& taken.transaction.fee.0 == passed.transaction.fee.0
                ==> taken.transaction.nonce.0 <= passed.transaction.nonce.0
            &&& taken.transaction.fee.0 == passed.transaction.fee.0
                && taken.transaction.nonce.0 == passed.transaction.nonce.0 && taken != passed
                ==> order::lex_less(taken.hash.0@, passed.hash.0@)
        }),
    decreases limit,
{
    let i = choose|i: int| is_best(queue, i);
    best_exists(queue);
    distinct_without(queue, i);
    let rest = queue.remove(i);
    let tail = selection(rest, (limit - 1) as nat);
    let out = selection(queue, limit);
    assert(out[0] == queue[i]);
    if k == 0 {
        assert(is_head(queue, h)) by {
            if h > 0 {
                assert(!occurs_before(out, queue[h - 1], 0));
            }
        }
    } else {
        assert(out[k] == tail[k - 1]);
        assert(i != h) by {
            if i == h {
                assert(out[0] == queue[h]);
            }
        }
        let a = if h < i { h } else { h - 1 };
        assert(rest[a] == queue[h]);
        assert forall|p: int|
            0 <= p < a && (#[trigger] rest[p]).transaction.from
                == rest[a].transaction.from implies occurs_before(tail, rest[p], k - 1) by {
            let q = if p < i { p } else { p + 1 };
            assert(rest[p] == queue[q]);
            assert(occurs_before(out, queue[q], k));
            let j = choose|j: int| 0 <= j < k && j < out.len() && #[trigger] out[j] == queue[q];
            assert(queue[q].hash != queue[i].hash) by {
                if q < i {
                    assert(queue[q].hash != queue[i].hash);
                } else {
                    assert(queue[i].hash != queue[q].hash);
                }
            }
            assert(out[j] == tail[j - 1]);
        }
        assert(!occurs_before(tail, queue[h], k - 1)) by {
            if occurs_before(tail, queue[h], k - 1) {
                let j = choose|j: int|
                    0 <= j < k - 1 && j < tail.len() && #[trigger] tail[j] == queue[h];
                assert(out[j + 1] == queue[h]);
            }
        }
        selection_prefers_fees(rest, (limit - 1) as nat, a, k - 1);
    }
}

/// What is selected from a pool is pending, comes once, and fills the block as far
/// as there is anything to fill it with.
pub proof fn a_block_is_filled_from_the_pool(pool: &Mempool, limit: nat)
    requires
        pool.wf(),
    ensures
        ({
            let out = selection(by_sender(pool@.entries), limit);
            let pending = pool@.entries.dom().len();
            &&& out.len() <= limit && out.len() <= pending
            &&& out.len() == limit || out.len() == pending
            &&& forall|k: int|
                0 <= k < out.len() ==> pool@.entries.contains_key((#[trigger] out[k]).hash)
                    && pool@.entries[out[k].hash].transaction == out[k]
            &&& forall|j: int, k: int|
                0 <= j < k < out.len() ==> (#[trigger] out[j]).hash != (#[trigger] out[k]).hash
        }),
{
    let queue = by_sender(pool@.entries);
    by_sender_is_distinct(pool);
    selection_fills_the_block(queue, limit);
    selection_comes_from_the_queue(queue, limit);
    let out = selection(queue, limit);
    assert forall|k: int| 0 <= k < out.len() implies pool@.entries.contains_key(
        (#[trigger] out[k]).hash,
    ) && pool@.entries[out[k].hash].transaction == out[k] by {
        assert(queue.contains(out[k]));
    }
}

/// Where two pending transactions have one sender, the one with the lower nonce
/// is selected before the other is.
pub proof fn a_block_keeps_the_order_of_nonces(
    pool: &Mempool,
    limit: nat,
    first: Digest,
    k: int,
)
    requires
        pool.wf(),
        pool@.entries.contains_key(first),
        0 <= k < selection(by_sender(pool@.entries), limit).len(),
        ({
            let early = pool@.entries[first].transaction.transaction;
            let late = selection(by_sender(pool@.entries), limit)[k].transaction;
            early.from == late.from && early.nonce.0 < late.nonce.0
        }),
    ensures
        occurs_before(
            selection(by_sender(pool@.entries), limit),
            pool@.entries[first].transaction,
            k,
        ),
{
    let queue = by_sender(pool@.entries);
    let early = pool@.entries[first].transaction;
    pool.keeps_its_limits();
    by_sender_is_distinct(pool);
    assert(queue.contains(early));
    let p = choose|p: int| 0 <= p < queue.len() && queue[p] == early;
    selection_keeps_nonce_order(queue, limit, k, p);
}

/// A pending transaction that could follow, because all pending ones of its
/// sender with the same or a lower nonce are selected, is passed over only for
/// one whose fee is at least as high.
pub proof fn a_block_prefers_high_fees(pool: &Mempool, limit: nat, passed: Digest, k: int)
    requires
        pool.wf(),
        pool@.entries.contains_key(passed),
        0 <= k < selection(by_sender(pool@.entries), limit).len(),
        !occurs_before(
            selection(by_sender(pool@.entries), limit),
            pool@.entries[passed].transaction,
            k,
        ),
        forall|h: Digest| #[trigger]
            pool@.entries.contains_key(h) && h != passed
                && pool@.entries[h].transaction.transaction.from
                == pool@.entries[passed].transaction.transaction.from
                && pool@.entries[h].transaction.transaction.nonce.0
                <= pool@.entries[passed].transaction.transaction.nonce.0 ==> occurs_before(
                selection(by_sender(pool@.entries), limit),
                pool@.entries[h].transaction,
                k,
            ),
    ensures
        selection(by_sender(pool@.entries), limit)[k].transaction.fee.0
            >= pool@.entries[passed].transaction.transaction.fee.0,
{
    let entries = pool@.entries;
    let queue = by_sender(entries);
    let t = entries[passed].transaction;
    pool.keeps_its_limits();
    by_sender_is_distinct(pool);
    assert(queue.contains(t));
    let h = choose|h: int| 0 <= h < queue.len() && queue[h] == t;
    assert forall|p: int|
        0 <= p < h && (#[trigger] queue[p]).transaction.from
            == queue[h].transaction.from implies occurs_before(
        selection(queue, limit),
        queue[p],
        k,
    ) by {
        assert(!BySender::before(queue[h], queue[p]));
        assert(queue.contains(queue[p]));
        assert(queue[p].hash != queue[h].hash);
        assert(entries.contains_key(queue[p].hash));
    }
    selection_prefers_fees(queue, limit, h, k);
}

/// A pool's transactions by sender have different hashes.
pub proof fn by_sender_is_distinct(pool: &Mempool)
    requires
        pool.wf(),
    ensures
        distinct(by_sender(pool@.entries)),
        sort::sorted::<SignedTransaction, BySender>(by_sender(pool@.entries)),
        by_sender(pool@.entries).len() == pool@.entries.dom().len(),
        forall|t: SignedTransaction| #[trigger]
            by_sender(pool@.entries).contains(t) <==> pool@.entries.contains_key(t.hash)
                && pool@.entries[t.hash].transaction == t,
{
    let entries = pool@.entries;
    let rows = pool.rows();
    let pending = mempool::pending_transactions(entries);
    let queue = by_sender(entries);
    pool.keeps_its_limits();
    ordered_map::rows_are_entries(rows);
    sort::stable_sorted_is_sorted::<SignedTransaction, BySender>(pending);
    sort::stable_sorted_is_permutation::<SignedTransaction, BySender>(pending);
    assert forall|t: SignedTransaction| #[trigger] queue.contains(t) <==> entries.contains_key(
        t.hash,
    ) && entries[t.hash].transaction == t by {
        assert(queue.contains(t) <==> pending.contains(t));
        if pending.contains(t) {
            let i = choose|i: int| 0 <= i < pending.len() && pending[i] == t;
            assert(rows[i].1.transaction == t);
            assert(entries.contains_key(rows[i].0));
        }
        if entries.contains_key(t.hash) && entries[t.hash].transaction == t {
            assert(ordered_map::has_key(rows, t.hash));
            let i = choose|i: int| ordered_map::key_at(rows, t.hash, i);
            assert(entries[rows[i].0] == rows[i].1);
            assert(pending[i] == t);
        }
    }
    assert(pending.no_duplicates()) by {
        assert forall|i: int, j: int| 0 <= i < j < pending.len() implies pending[i]
            != pending[j] by {
            assert(entries.contains_key(rows[i].0) && entries.contains_key(rows[j].0));
            assert(entries[rows[i].0] == rows[i].1 && entries[rows[j].0] == rows[j].1);
            assert(rows[i].0 != rows[j].0);
        }
    }
    pending.lemma_multiset_has_no_duplicates();
    queue.lemma_multiset_has_no_duplicates_conv();
    assert forall|i: int, j: int| 0 <= i < j < queue.len() implies (#[trigger] queue[i]).hash != (
    #[trigger] queue[j]).hash by {
        if queue[i].hash == queue[j].hash {
            assert(queue.contains(queue[i]) && queue.contains(queue[j]));
            assert(queue[i] == queue[j]);
        }
    }
}

/// Tests whether `a` is taken rather than `b`.
fn is_outranking(a: &SignedTransaction, b: &SignedTransaction) -> (r: bool)
    ensures
        r == outranks(*a, *b),
{
    if a.transaction.fee.0 != b.transaction.fee.0 {
        a.transaction.fee.0 > b.transaction.fee.0
    } else if a.transaction.nonce.0 != b.transaction.nonce.0 {
        a.transaction.nonce.0 < b.transaction.nonce.0
    } else {
        match a.hash.rank(&b.hash) {
            order::Rank::Before => true,
            _ => false,
        }
    }
}

/// The best of the transactions that are first of their senders.
fn best_head(queue: &Vec<SignedTransaction>) -> (best: usize)
    requires
        distinct(queue@),
        queue@.len() > 0,
    ensures
        is_best(queue@, best as int),
{
    let mut best: usize = 0;
    let mut k: usize = 1;
    while k < queue.len()
        invariant
            distinct(queue@),
            0 < k <= queue@.len(),
            best < k,
            is_head(queue@, best as int),
            forall|j: int| #[trigger]
                is_head(queue@, j) && j != best && j < k ==> outranks(
                    queue@[best as int],
                    queue@[j],
                ),
        decreases queue@.len() - k,
    {
        let head = !queue[k - 1].transaction.from.same(&queue[k].transaction.from);
        assert(head == is_head(queue@, k as int));
        if head {
            if is_outranking(&queue[k], &queue[best]) {
                proof {
                    assert forall|j: int| #[trigger] is_head(queue@, j) && j != k && j
                        < k + 1 implies outranks(queue@[k as int], queue@[j]) by {
                        if j != best {
                            outranks_transitive(queue@[k as int], queue@[best as int], queue@[j]);
                        }
                    }
                }
                best = k;
            } else {
                proof {
                    assert(queue@[best as int].hash != queue@[k as int].hash);
                    outranks_total(queue@[best as int], queue@[k as int]);
                }
            }
        }
        k = k + 1;
    }
    best
}

impl Mempool {
    /// Up to `limit` pending transactions for a block. Of the transactions that
    /// are first of their senders the one with the highest fee is taken, then
    /// again of those that are now first, and so on.
    pub fn select_for_block(&self, limit: usize) -> (r: Vec<SignedTransaction>)
        requires
            self.wf(),
        ensures
            r@ == selection(by_sender(self@.entries), limit as nat),
    {
        proof {
            by_sender_is_distinct(self);
        }
        let mut queue: Vec<SignedTransaction> = sort::stable_sort::<SignedTransaction, BySender>(
            self.transactions(),
        );
        let ghost all = queue@;
        let mut selected: Vec<SignedTransaction> = Vec::new();
        while selected.len() < limit && queue.len() > 0
            invariant
                distinct(queue@),
                selected@.len() <= limit,
                selection(all, limit as nat) == selected@ + selection(
                    queue@,
                    (limit - selected@.len()) as nat,
                ),
            decreases queue@.len(),
        {
            let best: usize = best_head(&queue);
            let ghost before = queue@;
            let ghost chosen = selected@;
            proof {
                let i = choose|i: int| is_best(before, i);
                best_is_unique(before, best as int, i);
                distinct_without(before, best as int);
            }
            let transaction = queue.remove(best);
            selected.push(transaction);
            proof {
                let left = (limit - chosen.len()) as nat;
                assert(chosen + selection(before, left) =~= selected@ + selection(
                    queue@,
                    (left - 1) as nat,
                ));
            }
        }
        proof {
            assert(selected@ + Seq::<SignedTransaction>::empty() =~= selected@);
        }
        selected
    }
}

} // verus!
