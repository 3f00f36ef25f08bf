//! What holds of the pool of pending transactions as a whole.

use crate::ledger::Ledger;
use crate::mempool::{
    self, ByNonce, Mempool, MempoolConfig, MempoolEntry, MempoolError, PoolState,
};
use crate::order::OrderedKey;
use crate::ordered_map;
use crate::params::{ChainParams, MAX_RELAY_TRANSACTION_AGE_SECS, MIN_RELAY_FEE_FLOOR};
use crate::sort::{self, SortOrder};
use crate::types::{Address, Digest, SignedTransaction, TransactionError};
use vstd::prelude::*;

verus! {

/// The lowest fee that the pool admits: at least the floor, whatever its limits
/// say.
pub open spec fn lowest_fee(config: MempoolConfig) -> u32 {
    if config.min_relay_fee < MIN_RELAY_FEE_FLOOR {
        MIN_RELAY_FEE_FLOOR
    } else {
        config.min_relay_fee
    }
}

/// A fee below the lowest is refused, with or without a look at the ledger, and
/// for that reason if the signature and the time are in order. So no
/// transaction without a fee gets in.
pub proof fn low_fee_is_refused(
    state: PoolState,
    config: MempoolConfig,
    params: ChainParams,
    ledger: Ledger,
    t: SignedTransaction,
    now: u64,
)
    requires
        t.transaction.fee.0 < lowest_fee(config) || t.transaction.fee.0 == 0,
    ensures
        mempool::insertion(state, config, params, t, now).1 is Err,
        mempool::validated_insertion(state, config, params, ledger, t, now).1 is Err,
        t.signed is Ok && now <= t.transaction.timestamp + MAX_RELAY_TRANSACTION_AGE_SECS
            && t.transaction.timestamp <= now + params.block_time ==> {
            &&& mempool::insertion(state, config, params, t, now).1 == Err::<Digest, MempoolError>(
                MempoolError::FeeTooLow,
            )
            &&& mempool::validated_insertion(state, config, params, ledger, t, now).1 == Err::<
                Digest,
                MempoolError,
            >(MempoolError::FeeTooLow)
        },
{
}

/// A refused transaction leaves no trace: the pool is what is left of it after
/// the entries that have outlived their time are gone.
pub proof fn refused_leaves_no_trace(
    state: PoolState,
    config: MempoolConfig,
    params: ChainParams,
    ledger: Ledger,
    t: SignedTransaction,
    now: u64,
)
    ensures
        mempool::insertion(state, config, params, t, now).1 is Err ==> mempool::insertion(
            state,
            config,
            params,
            t,
            now,
        ).0 == mempool::pruned(state, config, now),
        mempool::validated_insertion(state, config, params, ledger, t, now).1 is Err
            ==> mempool::validated_insertion(state, config, params, ledger, t, now).0
            == mempool::pruned(state, config, now),
{
}

/// Pruning goes by the fee: an entry whose fee lies below the market's stays for
/// the shorter time, any other for the longer, and no longer.
pub proof fn pruning_goes_by_the_fee(
    state: PoolState,
    config: MempoolConfig,
    now: u64,
    hash: Digest,
)
    requires
        state.entries.contains_key(hash),
    ensures
        ({
            let entry = state.entries[hash];
            let age = now - entry.inserted_at;
            let kept = mempool::pruned(state, config, now).entries.contains_key(hash);
            &&& entry.transaction.transaction.fee.0 < config.market_fee ==> (kept <==> age
                <= config.low_fee_ttl_secs)
            &&& entry.transaction.transaction.fee.0 >= config.market_fee ==> (kept <==> age
                <= config.transaction_ttl_secs)
            &&& kept ==> mempool::pruned(state, config, now).entries[hash] == entry
        }),
{
}

/// A transaction that is taken is pending from then on, and answered with its
/// hash. Of the others that had not outlived their time all stay, but for one
/// of the same sender under the same nonce with a lower fee, whose place it
/// takes.
pub proof fn accepted_is_pending(
    before: Mempool,
    ledger: Ledger,
    t: SignedTransaction,
    now: u64,
    other: Digest,
)
    requires
        before.wf(),
        mempool::validated_insertion(
            before@,
            before.limits(),
            before.chain(),
            ledger,
            t,
            now,
        ).1 is Ok,
        other != t.hash,
    ensures
        ({
            let fresh = mempool::pruned(before@, before.limits(), now).entries;
            let (after, answer) = mempool::validated_insertion(
                before@,
                before.limits(),
                before.chain(),
                ledger,
                t,
                now,
            );
            &&& answer == Ok::<Digest, MempoolError>(t.hash)
            &&& !fresh.contains_key(t.hash)
            &&& after.entries.contains_key(t.hash)
            &&& after.entries[t.hash] == (MempoolEntry { transaction: t, inserted_at: now })
            &&& after.entries.contains_key(other) ==> fresh.contains_key(other)
                && after.entries[other] == fresh[other]
            &&& fresh.contains_key(other) && !after.entries.contains_key(other) ==> {
                let gone = fresh[other].transaction.transaction;
                &&& gone.from == t.transaction.from
                &&& gone.nonce == t.transaction.nonce
                &&& gone.fee.0 < t.transaction.fee.0
            }
        }),
{
    let fresh = mempool::pruned(before@, before.limits(), now);
    survivors_have_rows(before, now);
    replaced_is_cheaper(fresh.entries, t);
    added_keeps_the_others(
        fresh,
        before.limits(),
        t,
        now,
        mempool::replacement(fresh.entries, t)->Ok_0,
        other,
    );
}

/// What survives in a pool has rows in the order of hashes.
proof fn survivors_have_rows(pool: Mempool, now: u64)
    requires
        pool.wf(),
    ensures
        ({
            let fresh = mempool::pruned(pool@, pool.limits(), now).entries;
            &&& ordered_map::ascending(ordered_map::rows_of(fresh))
            &&& ordered_map::rows_map(ordered_map::rows_of(fresh)) == fresh
        }),
{
    let fresh = mempool::pruned(pool@, pool.limits(), now).entries;
    pool.keeps_its_limits();
    ordered_map::rows_are_entries(pool.rows());
    let alive = part_has_rows(pool.rows(), fresh);
    ordered_map::rows_are_rows_of(alive);
}

/// The transaction that gives way is one of the same sender under the same nonce
/// with a lower fee.
pub(crate) proof fn replaced_is_cheaper(entries: Map<Digest, MempoolEntry>, t: SignedTransaction)
    requires
        ordered_map::ascending(ordered_map::rows_of(entries)),
        ordered_map::rows_map(ordered_map::rows_of(entries)) == entries,
    ensures
        match mempool::replacement(entries, t) {
            Ok(Some(hash)) => entries.contains_key(hash)
                && entries[hash].transaction.transaction.from == t.transaction.from
                && entries[hash].transaction.transaction.nonce == t.transaction.nonce
                && entries[hash].transaction.transaction.fee.0 < t.transaction.fee.0,
            _ => true,
        },
{
    match mempool::replacement(entries, t) {
        Ok(Some(hash)) => {
            let i = replaced_row(entries, t, hash);
            row_is_entry(ordered_map::rows_of(entries), i);
        },
        _ => {},
    }
}

/// The row of the transaction that gives way.
pub(crate) proof fn replaced_row(entries: Map<Digest, MempoolEntry>, t: SignedTransaction, hash: Digest) -> (i:
    int)
    requires
        mempool::replacement(entries, t) == Ok::<Option<Digest>, MempoolError>(Some(hash)),
    ensures
        ({
            let rows = ordered_map::rows_of(entries);
            &&& 0 <= i < rows.len()
            &&& rows[i].0 == hash
            &&& rows[i].1.transaction.transaction.from == t.transaction.from
            &&& rows[i].1.transaction.transaction.nonce == t.transaction.nonce
            &&& rows[i].1.transaction.transaction.fee.0 < t.transaction.fee.0
        }),
{
    let rows = ordered_map::rows_of(entries);
    first_conflict_is_one(rows, t);
    mempool::first_conflict(rows, t)->Some_0
}

/// A row is an entry of the map.
pub(crate) proof fn row_is_entry(rows: Seq<(Digest, MempoolEntry)>, i: int)
    requires
        ordered_map::ascending(rows),
        0 <= i < rows.len(),
    ensures
        ordered_map::rows_map(rows).contains_key(rows[i].0),
        ordered_map::rows_map(rows)[rows[i].0] == rows[i].1,
{
    ordered_map::rows_are_entries(rows);
}

/// A key of the map has a row.
proof fn entry_has_row(rows: Seq<(Digest, MempoolEntry)>, key: Digest) -> (i: int)
    requires
        ordered_map::ascending(rows),
        ordered_map::rows_map(rows).contains_key(key),
    ensures
        0 <= i < rows.len(),
        rows[i].0 == key,
        rows[i].1 == ordered_map::rows_map(rows)[key],
{
    ordered_map::rows_are_entries(rows);
    assert(ordered_map::has_key(rows, key));
    let i = choose|i: int| ordered_map::key_at(rows, key, i);
    assert(rows[i].0 == key);
    i
}

/// What comes in changes nothing but itself and what gives way.
proof fn added_keeps_the_others(
    state: PoolState,
    config: MempoolConfig,
    t: SignedTransaction,
    now: u64,
    replaced: Option<Digest>,
    other: Digest,
)
    requires
        mempool::added(state, config, t, now, replaced) is Ok,
        other != t.hash,
    ensures
        ({
            let after = mempool::added(state, config, t, now, replaced)->Ok_0;
            &&& !state.entries.contains_key(t.hash)
            &&& after.entries.contains_key(t.hash)
            &&& after.entries[t.hash] == (MempoolEntry { transaction: t, inserted_at: now })
            &&& after.entries.contains_key(other) ==> state.entries.contains_key(other)
                && after.entries[other] == state.entries[other]
            &&& state.entries.contains_key(other) && !after.entries.contains_key(other)
                ==> replaced == Some(other)
        }),
{
}

/// The first conflict is one.
proof fn first_conflict_is_one(rows: Seq<(Digest, MempoolEntry)>, t: SignedTransaction)
    ensures
        match mempool::first_conflict(rows, t) {
            Some(i) => mempool::conflicts(rows, t, i),
            None => true,
        },
{
    if exists|i: int| mempool::conflicts(rows, t, i) {
        let i = choose|i: int| mempool::conflicts(rows, t, i);
        least_conflict(rows, t, i);
    }
}

proof fn least_conflict(rows: Seq<(Digest, MempoolEntry)>, t: SignedTransaction, i: int)
    requires
        mempool::conflicts(rows, t, i),
    ensures
        exists|k: int|
            mempool::conflicts(rows, t, k) && forall|j: int|
                0 <= j < k ==> !mempool::conflicts(rows, t, j),
    decreases i,
{
    if exists|j: int| 0 <= j < i && mempool::conflicts(rows, t, j) {
        let j = choose|j: int| 0 <= j < i && mempool::conflicts(rows, t, j);
        least_conflict(rows, t, j);
    } else {
        assert(mempool::conflicts(rows, t, i) && forall|j: int|
            0 <= j < i ==> !mempool::conflicts(rows, t, j));
    }
}

/// A part of what ascending rows hold has ascending rows of its own.
pub(crate) proof fn part_has_rows(rows: Seq<(Digest, MempoolEntry)>, part: Map<Digest, MempoolEntry>) -> (r:
    Seq<(Digest, MempoolEntry)>)
    requires
        ordered_map::ascending(rows),
        forall|k: Digest| #[trigger]
            part.contains_key(k) ==> ordered_map::rows_map(rows).contains_key(k)
                && ordered_map::rows_map(rows)[k] == part[k],
    ensures
        ordered_map::ascending(r),
        ordered_map::rows_map(r) == part,
        forall|i: int| 0 <= i < r.len() ==> ordered_map::has_key(rows, (#[trigger] r[i]).0),
    decreases rows.len(),
{
    ordered_map::rows_are_entries(rows);
    if rows.len() == 0 {
        assert(ordered_map::rows_map(rows) =~= part);
        rows
    } else {
        let short = rows.drop_last();
        let (key, value) = rows.last();
        ordered_map::rows_without_last(rows);
        ordered_map::rows_are_entries(short);
        assert(rows[rows.len() - 1].0 == key);
        let less = part.remove(key);
        let s = part_has_rows(short, less);
        ordered_map::rows_are_entries(s);
        assert forall|i: int| 0 <= i < s.len() implies ordered_map::has_key(
            rows,
            (#[trigger] s[i]).0,
        ) && s[i].0.precedes(key) && s[i].0 != key by {
            assert(ordered_map::has_key(short, s[i].0));
            let j = choose|j: int| ordered_map::key_at(short, s[i].0, j);
            assert(ordered_map::key_at(rows, s[i].0, j));
            assert(rows[j] == short[j]);
            assert(rows[j].0.precedes(rows[rows.len() - 1].0));
        }
        if part.contains_key(key) {
            let r = s.push((key, value));
            assert(ordered_map::ascending(r)) by {
                assert forall|i: int, j: int|
                    #![trigger r[i], r[j]]
                    0 <= i < j < r.len() implies r[i].0.precedes(r[j].0) && r[i].0 != r[j].0 by {
                    assert(r[i] == s[i]);
                    if j < s.len() {
                        assert(r[j] == s[j]);
                    }
                }
            }
            ordered_map::rows_without_last(r);
            ordered_map::rows_are_entries(r);
            assert(r.drop_last() =~= s);
            assert(r[r.len() - 1] == (key, value));
            let m = ordered_map::rows_map(r);
            assert(m.contains_key(key) && m[key] == value);
            assert(m =~= m.remove(key).insert(key, value));
            assert(part[key] == ordered_map::rows_map(rows)[key]);
            assert(part =~= less.insert(key, value));
            assert(ordered_map::key_at(rows, key, rows.len() - 1));
            r
        } else {
            assert(less =~= part);
            s
        }
    }
}

/// Leaving a row out is taking it away.
proof fn excluded_is_removed(rows: Seq<(Digest, MempoolEntry)>, from: Address, i: int)
    requires
        ordered_map::ascending(rows),
        0 <= i < rows.len(),
    ensures
        mempool::pending_from(rows, from, Some(rows[i].0)) == mempool::pending_from(
            rows.remove(i),
            from,
            None,
        ),
    decreases rows.len(),
{
    let short = rows.drop_last();
    let last = rows.len() - 1;
    if i == last {
        assert(rows.remove(i) =~= short);
        no_key_no_exclusion(short, from, rows[i].0);
    } else {
        assert(short[i] == rows[i]);
        excluded_is_removed(short, from, i);
        assert(rows.remove(i).drop_last() =~= short.remove(i));
        assert(rows.remove(i).last() == rows[last]);
        assert(rows[i].0 != rows[last].0);
    }
}

/// Leaving out what is not there changes nothing.
proof fn no_key_no_exclusion(rows: Seq<(Digest, MempoolEntry)>, from: Address, key: Digest)
    requires
        forall|i: int| 0 <= i < rows.len() ==> (#[trigger] rows[i]).0 != key,
    ensures
        mempool::pending_from(rows, from, Some(key)) == mempool::pending_from(rows, from, None),
    decreases rows.len(),
{
    if rows.len() > 0 {
        no_key_no_exclusion(rows.drop_last(), from, key);
        assert(rows[rows.len() - 1].0 != key);
    }
}

/// One more row of the sender is one more pending transaction.
proof fn inserted_is_counted(
    rows: Seq<(Digest, MempoolEntry)>,
    k: int,
    row: (Digest, MempoolEntry),
    from: Address,
)
    requires
        0 <= k <= rows.len(),
        row.1.transaction.transaction.from == from,
    ensures
        mempool::pending_from(rows.insert(k, row), from, None).to_multiset()
            =~= mempool::pending_from(rows, from, None).to_multiset().insert(row.1.transaction),
    decreases rows.len(),
{
    broadcast use vstd::seq_lib::group_to_multiset_ensures;

    let more = rows.insert(k, row);
    if k == rows.len() {
        assert(more.drop_last() =~= rows);
    } else {
        assert(more.drop_last() =~= rows.drop_last().insert(k, row));
        assert(more.last() == rows.last());
        inserted_is_counted(rows.drop_last(), k, row, from);
    }
}

/// The nonces of a queue that an account admits follow one another, as long as
/// the last is not the last there is.
proof fn admitted_nonces_follow(queue: Seq<SignedTransaction>, nonce: u64, funds: u32)
    requires
        queue.len() > 0,
        mempool::spend_all(queue, nonce, funds) is Ok,
        queue.last().transaction.nonce.0 < u64::MAX,
    ensures
        forall|i: int|
            0 <= i < queue.len() ==> (#[trigger] queue[i]).transaction.nonce.0 == nonce + i,
        mempool::spend_all(queue, nonce, funds)->Ok_0.0 == nonce + queue.len(),
    decreases queue.len(),
{
    let short = queue.drop_last();
    if short.len() > 0 {
        let before = mempool::spend_all(short, nonce, funds)->Ok_0.0;
        assert(before == queue.last().transaction.nonce.0);
        last_nonce_is_below(short, nonce, funds);
        admitted_nonces_follow(short, nonce, funds);
        assert forall|i: int| 0 <= i < queue.len() implies (
        #[trigger] queue[i]).transaction.nonce.0 == nonce + i by {
            if i < short.len() {
                assert(queue[i] == short[i]);
            }
        }
    } else {
        assert(mempool::spend_all(short, nonce, funds) == Ok::<
            (u64, u32),
            crate::types::StateError,
        >((nonce, funds)));
    }
}

/// What an account expects after a queue is one more than the queue's last nonce,
/// unless that is the last there is.
proof fn last_nonce_is_below(queue: Seq<SignedTransaction>, nonce: u64, funds: u32)
    requires
        queue.len() > 0,
        mempool::spend_all(queue, nonce, funds) is Ok,
        mempool::spend_all(queue, nonce, funds)->Ok_0.0 < u64::MAX,
    ensures
        queue.last().transaction.nonce.0 < u64::MAX,
{
}

/// A list in the strict order of nonces is the only ordered list of its
/// transactions.
proof fn strict_order_is_the_only_one(a: Seq<SignedTransaction>, b: Seq<SignedTransaction>)
    requires
        forall|i: int, j: int|
            0 <= i < j < a.len() ==> (#[trigger] a[i]).transaction.nonce.0 < (
            #[trigger] a[j]).transaction.nonce.0,
        sort::sorted::<SignedTransaction, ByNonce>(b),
        a.to_multiset() == b.to_multiset(),
    ensures
        a == b,
    decreases a.len(),
{
    broadcast use vstd::seq_lib::group_to_multiset_ensures;

    assert(a.len() == a.to_multiset().len());
    assert(b.len() == b.to_multiset().len());
    if a.len() > 0 {
        let x = a.last();
        let y = b.last();
        assert(a.contains(x)) by {
            assert(a[a.len() - 1] == x);
        }
        assert(b.contains(y)) by {
            assert(b[b.len() - 1] == y);
        }
        assert(b.to_multiset().count(x) > 0);
        assert(b.contains(x));
        assert(a.to_multiset().count(y) > 0);
        assert(a.contains(y));
        let i = choose|i: int| 0 <= i < b.len() && b[i] == x;
        let j = choose|j: int| 0 <= j < a.len() && a[j] == y;
        if i < b.len() - 1 {
            assert(!ByNonce::before(b[b.len() - 1], b[i]));
        }
        if j < a.len() - 1 {
            assert(a[j].transaction.nonce.0 < a[a.len() - 1].transaction.nonce.0);
        }
        assert(x == y);
        let (p, q) = (a.drop_last(), b.drop_last());
        assert(p.push(x) =~= a);
        assert(q.push(y) =~= b);
        assert(p.to_multiset().insert(x) =~= a.to_multiset());
        assert(q.to_multiset().insert(y) =~= b.to_multiset());
        assert(p.to_multiset() =~= a.to_multiset().remove(x));
        assert(q.to_multiset() =~= b.to_multiset().remove(y));
        assert forall|i: int, j: int| 0 <= i < j < p.len() implies (
        #[trigger] p[i]).transaction.nonce.0 < (#[trigger] p[j]).transaction.nonce.0 by {
            assert(p[i] == a[i] && p[j] == a[j]);
        }
        assert(sort::sorted::<SignedTransaction, ByNonce>(q)) by {
            assert forall|i: int, j: int| 0 <= i < j < q.len() implies !ByNonce::before(
                #[trigger] q[j],
                #[trigger] q[i],
            ) by {
                assert(q[i] == b[i] && q[j] == b[j]);
            }
        }
        strict_order_is_the_only_one(p, q);
    } else {
        assert(a =~= b);
    }
}

/// Once a transaction is taken that the ledger admits, all that is pending from
/// its sender can be spent, one after the other in the order of nonces, and the
/// new one comes last. Left out is the last nonce there is: an account that has
/// used it expects it again.
pub proof fn accepted_queue_is_spendable(
    before: Mempool,
    after: Mempool,
    ledger: Ledger,
    t: SignedTransaction,
    now: u64,
)
    requires
        before.wf(),
        after.wf(),
        mempool::validated_insertion(
            before@,
            before.limits(),
            before.chain(),
            ledger,
            t,
            now,
        ).1 is Ok,
        after@ == mempool::validated_insertion(
            before@,
            before.limits(),
            before.chain(),
            ledger,
            t,
            now,
        ).0,
        t.transaction.nonce.0 < u64::MAX,
    ensures
        ({
            let from = t.transaction.from;
            let queue = mempool::sender_queue(after@.entries, from, None);
            &&& ledger.account_spec(from) is Some
            &&& queue.len() > 0 && queue.last() == t
            &&& mempool::spend_all(
                queue,
                ledger.account_spec(from)->Some_0.nonce.0,
                ledger.account_spec(from)->Some_0.available.0,
            ) is Ok
        }),
{
    let fresh = mempool::pruned(before@, before.limits(), now);
    let replaced = mempool::replacement(fresh.entries, t)->Ok_0;
    after.keeps_its_limits();
    survivors_have_rows(before, now);
    let alive = ordered_map::rows_of(fresh.entries);
    replaced_is_cheaper(fresh.entries, t);
    added_entries(fresh, before.limits(), t, now, replaced);
    let rest = match replaced {
        Some(hash) => fresh.entries.remove(hash),
        None => fresh.entries,
    };
    let kept = one_more_pending(after.rows(), rest, t, now);
    pending_without_replaced(alive, kept, fresh.entries, t, replaced);
    queue_is_spendable(
        mempool::pending_from(alive, t.transaction.from, replaced),
        mempool::pending_from(after.rows(), t.transaction.from, None),
        ledger.account_spec(t.transaction.from)->Some_0.nonce.0,
        ledger.account_spec(t.transaction.from)->Some_0.available.0,
        t,
    );
}

/// With one more entry there is one more pending transaction.
proof fn one_more_pending(
    all: Seq<(Digest, MempoolEntry)>,
    rest: Map<Digest, MempoolEntry>,
    t: SignedTransaction,
    now: u64,
) -> (kept: Seq<(Digest, MempoolEntry)>)
    requires
        ordered_map::ascending(all),
        !rest.contains_key(t.hash),
        ordered_map::rows_map(all) == rest.insert(
            t.hash,
            MempoolEntry { transaction: t, inserted_at: now },
        ),
    ensures
        ordered_map::ascending(kept),
        ordered_map::rows_map(kept) == rest,
        mempool::pending_from(all, t.transaction.from, None).to_multiset()
            == mempool::pending_from(kept, t.transaction.from, None).to_multiset().insert(t),
{
    let entry = MempoolEntry { transaction: t, inserted_at: now };
    let k = entry_has_row(all, t.hash);
    ordered_map::rows_removed(all, k);
    let kept = all.remove(k);
    assert(ordered_map::rows_map(kept) =~= rest);
    assert(kept.insert(k, (t.hash, entry)) =~= all);
    inserted_is_counted(kept, k, (t.hash, entry), t.transaction.from);
    kept
}

/// What is pending from the sender without what gives way.
proof fn pending_without_replaced(
    alive: Seq<(Digest, MempoolEntry)>,
    kept: Seq<(Digest, MempoolEntry)>,
    entries: Map<Digest, MempoolEntry>,
    t: SignedTransaction,
    replaced: Option<Digest>,
)
    requires
        ordered_map::ascending(alive),
        ordered_map::ascending(kept),
        ordered_map::rows_of(entries) == alive,
        ordered_map::rows_map(alive) == entries,
        mempool::replacement(entries, t) == Ok::<Option<Digest>, MempoolError>(replaced),
        ordered_map::rows_map(kept) == (match replaced {
            Some(hash) => entries.remove(hash),
            None => entries,
        }),
    ensures
        mempool::pending_from(alive, t.transaction.from, replaced) == mempool::pending_from(
            kept,
            t.transaction.from,
            None,
        ),
{
    match replaced {
        Some(hash) => {
            let i = replaced_row(entries, t, hash);
            same_pending_without(alive, kept, t.transaction.from, i);
        },
        None => {
            ordered_map::rows_are_determined(alive, kept);
        },
    }
}

/// The entries after a transaction came in.
pub(crate) proof fn added_entries(
    state: PoolState,
    config: MempoolConfig,
    t: SignedTransaction,
    now: u64,
    replaced: Option<Digest>,
)
    requires
        mempool::added(state, config, t, now, replaced) is Ok,
        replaced matches Some(hash) ==> state.entries.contains_key(hash),
    ensures
        ({
            let rest = match replaced {
                Some(hash) => state.entries.remove(hash),
                None => state.entries,
            };
            &&& !rest.contains_key(t.hash)
            &&& mempool::added(state, config, t, now, replaced)->Ok_0.entries == rest.insert(
                t.hash,
                MempoolEntry { transaction: t, inserted_at: now },
            )
        }),
{
}

/// What is pending from a sender but for a row is what is pending without the
/// row.
proof fn same_pending_without(
    alive: Seq<(Digest, MempoolEntry)>,
    kept: Seq<(Digest, MempoolEntry)>,
    from: Address,
    i: int,
)
    requires
        ordered_map::ascending(alive),
        ordered_map::ascending(kept),
        0 <= i < alive.len(),
        ordered_map::rows_map(kept) == ordered_map::rows_map(alive).remove(alive[i].0),
    ensures
        mempool::pending_from(alive, from, Some(alive[i].0)) == mempool::pending_from(
            kept,
            from,
            None,
        ),
{
    excluded_is_removed(alive, from, i);
    ordered_map::rows_removed(alive, i);
    ordered_map::rows_are_determined(alive.remove(i), kept);
}

/// A queue that an account admits with one more transaction at its end is what
/// is pending after that transaction came in.
proof fn queue_is_spendable(
    old_pending: Seq<SignedTransaction>,
    new_pending: Seq<SignedTransaction>,
    nonce: u64,
    funds: u32,
    t: SignedTransaction,
)
    requires
        new_pending.to_multiset() == old_pending.to_multiset().insert(t),
        mempool::spend_all(
            sort::stable_sorted::<SignedTransaction, ByNonce>(old_pending).push(t),
            nonce,
            funds,
        ) is Ok,
        t.transaction.nonce.0 < u64::MAX,
    ensures
        sort::stable_sorted::<SignedTransaction, ByNonce>(new_pending) == sort::stable_sorted::<
            SignedTransaction,
            ByNonce,
        >(old_pending).push(t),
{
    let old_queue = sort::stable_sorted::<SignedTransaction, ByNonce>(old_pending);
    let new_queue = sort::stable_sorted::<SignedTransaction, ByNonce>(new_pending);
    let expected = old_queue.push(t);
    sort::stable_sorted_is_permutation::<SignedTransaction, ByNonce>(old_pending);
    sort::stable_sorted_is_permutation::<SignedTransaction, ByNonce>(new_pending);
    sort::stable_sorted_is_sorted::<SignedTransaction, ByNonce>(new_pending);
    assert(expected.to_multiset() =~= new_queue.to_multiset()) by {
        broadcast use vstd::seq_lib::group_to_multiset_ensures;

    }
    admitted_nonces_follow(expected, nonce, funds);
    assert forall|i: int, j: int| 0 <= i < j < expected.len() implies (
    #[trigger] expected[i]).transaction.nonce.0 < (
    #[trigger] expected[j]).transaction.nonce.0 by {}
    strict_order_is_the_only_one(expected, new_queue);
}

/// The plain sum of what the rows' transactions from an address take from its
/// account: the amounts and the fees.
pub open spec fn outgoing(rows: Seq<(Digest, MempoolEntry)>, from: Address) -> int
    decreases rows.len(),
{
    if rows.len() == 0 {
        0
    } else {
        let t = rows.last().1.transaction.transaction;
        outgoing(rows.drop_last(), from) + if t.from == from {
            t.amount.0 + t.fee.0
        } else {
            0
        }
    }
}

/// The same sum over a list of transactions.
spec fn cost(list: Seq<SignedTransaction>) -> int
    decreases list.len(),
{
    if list.len() == 0 {
        0
    } else {
        cost(list.drop_last()) + list.last().transaction.amount.0 + list.last().transaction.fee.0
    }
}

proof fn outgoing_is_cost(rows: Seq<(Digest, MempoolEntry)>, from: Address)
    ensures
        outgoing(rows, from) == cost(mempool::pending_from(rows, from, None)),
    decreases rows.len(),
{
    if rows.len() > 0 {
        outgoing_is_cost(rows.drop_last(), from);
        let earlier = mempool::pending_from(rows.drop_last(), from, None);
        let t = rows.last().1.transaction;
        assert(earlier.push(t).drop_last() =~= earlier);
        assert(earlier.push(t).last() == t);
    }
}

proof fn cost_without(list: Seq<SignedTransaction>, k: int)
    requires
        0 <= k < list.len(),
    ensures
        cost(list) == cost(list.remove(k)) + list[k].transaction.amount.0
            + list[k].transaction.fee.0,
    decreases list.len(),
{
    if k == list.len() - 1 {
        assert(list.remove(k) =~= list.drop_last());
    } else {
        cost_without(list.drop_last(), k);
        assert(list.remove(k).drop_last() =~= list.drop_last().remove(k));
        assert(list.remove(k).last() == list.last());
    }
}

/// The order of a list does not matter to its sum.
proof fn cost_goes_by_what_is_there(a: Seq<SignedTransaction>, b: Seq<SignedTransaction>)
    requires
        a.to_multiset() == b.to_multiset(),
    ensures
        cost(a) == cost(b),
    decreases a.len(),
{
    broadcast use vstd::seq_lib::group_to_multiset_ensures;

    assert(a.len() == a.to_multiset().len() && b.len() == b.to_multiset().len());
    if a.len() > 0 {
        let x = a.last();
        assert(a.contains(x));
        assert(a.to_multiset().count(x) > 0);
        assert(b.contains(x));
        let k = choose|k: int| 0 <= k < b.len() && b[k] == x;
        cost_without(b, k);
        assert(a.remove(a.len() - 1) =~= a.drop_last());
        assert(a.remove(a.len() - 1).to_multiset() =~= a.to_multiset().remove(x));
        assert(b.remove(k).to_multiset() =~= b.to_multiset().remove(x));
        cost_goes_by_what_is_there(a.drop_last(), b.remove(k));
    }
}

/// What an account admits costs no more than it has, and what is left is the
/// difference.
proof fn admitted_is_paid(queue: Seq<SignedTransaction>, nonce: u64, funds: u32)
    requires
        mempool::spend_all(queue, nonce, funds) is Ok,
    ensures
        cost(queue) + mempool::spend_all(queue, nonce, funds)->Ok_0.1 == funds,
    decreases queue.len(),
{
    if queue.len() > 0 {
        admitted_is_paid(queue.drop_last(), nonce, funds);
    }
}

/// Once a transaction is taken that the ledger admits, all that is pending from
/// its sender, amounts and fees together, is no more than the sender's account
/// has available.
pub proof fn pending_never_exceeds_the_account(
    before: Mempool,
    after: Mempool,
    ledger: Ledger,
    t: SignedTransaction,
    now: u64,
)
    requires
        before.wf(),
        after.wf(),
        mempool::validated_insertion(
            before@,
            before.limits(),
            before.chain(),
            ledger,
            t,
            now,
        ).1 is Ok,
        after@ == mempool::validated_insertion(
            before@,
            before.limits(),
            before.chain(),
            ledger,
            t,
            now,
        ).0,
    ensures
        ledger.account_spec(t.transaction.from) matches Some(account) && outgoing(
            ordered_map::rows_of(after@.entries),
            t.transaction.from,
        ) <= account.available.0,
{
    let from = t.transaction.from;
    let fresh = mempool::pruned(before@, before.limits(), now);
    let replaced = mempool::replacement(fresh.entries, t)->Ok_0;
    after.keeps_its_limits();
    survivors_have_rows(before, now);
    let alive = ordered_map::rows_of(fresh.entries);
    replaced_is_cheaper(fresh.entries, t);
    added_entries(fresh, before.limits(), t, now, replaced);
    let rest = match replaced {
        Some(hash) => fresh.entries.remove(hash),
        None => fresh.entries,
    };
    let kept = one_more_pending(after.rows(), rest, t, now);
    pending_without_replaced(alive, kept, fresh.entries, t, replaced);
    let old_pending = mempool::pending_from(alive, from, replaced);
    let new_pending = mempool::pending_from(after.rows(), from, None);
    let queue = sort::stable_sorted::<SignedTransaction, ByNonce>(old_pending).push(t);
    sort::stable_sorted_is_permutation::<SignedTransaction, ByNonce>(old_pending);
    assert(queue.to_multiset() =~= new_pending.to_multiset()) by {
        broadcast use vstd::seq_lib::group_to_multiset_ensures;

    }
    cost_goes_by_what_is_there(queue, new_pending);
    outgoing_is_cost(after.rows(), from);
    let account = ledger.account_spec(from)->Some_0;
    admitted_is_paid(queue, account.nonce.0, account.available.0);
}

/// Row `i` is pending from the sender.
pub open spec fn sent(rows: Seq<(Digest, MempoolEntry)>, from: Address, i: int) -> bool {
    0 <= i < rows.len() && rows[i].1.transaction.transaction.from == from
}

/// Row `i` is pending from the sender under the nonce.
pub open spec fn sent_under(
    rows: Seq<(Digest, MempoolEntry)>,
    from: Address,
    nonce: u64,
    i: int,
) -> bool {
    sent(rows, from, i) && rows[i].1.transaction.transaction.nonce.0 == nonce
}

/// Something is pending from the sender under the nonce.
pub open spec fn is_taken(rows: Seq<(Digest, MempoolEntry)>, from: Address, nonce: u64) -> bool {
    exists|i: int| sent_under(rows, from, nonce, i)
}

/// What is pending from the sender takes each nonce from `low` on and below
/// `high`, each once, and no other.
pub open spec fn runs(
    rows: Seq<(Digest, MempoolEntry)>,
    from: Address,
    low: int,
    high: int,
) -> bool {
    &&& forall|i: int| #[trigger]
        sent(rows, from, i) ==> low <= rows[i].1.transaction.transaction.nonce.0 < high
    &&& forall|i: int, j: int| #[trigger]
        sent(rows, from, i) && #[trigger] sent(rows, from, j) && i != j
            ==> rows[i].1.transaction.transaction.nonce != rows[j].1.transaction.transaction.nonce
    &&& forall|n: u64| low <= n < high ==> #[trigger] is_taken(rows, from, n)
}

/// What is pending from a sender is in the rows.
proof fn pending_is_sent(rows: Seq<(Digest, MempoolEntry)>, from: Address, k: int) -> (i: int)
    requires
        0 <= k < mempool::pending_from(rows, from, None).len(),
    ensures
        sent(rows, from, i),
        rows[i].1.transaction == mempool::pending_from(rows, from, None)[k],
    decreases rows.len(),
{
    let short = rows.drop_last();
    let earlier = mempool::pending_from(short, from, None);
    if k < earlier.len() {
        let i = pending_is_sent(short, from, k);
        assert(rows[i] == short[i]);
        i
    } else {
        rows.len() - 1
    }
}

/// What the rows hold of a sender is pending.
proof fn sent_is_pending(rows: Seq<(Digest, MempoolEntry)>, from: Address, i: int) -> (k: int)
    requires
        sent(rows, from, i),
    ensures
        0 <= k < mempool::pending_from(rows, from, None).len(),
        rows[i].1.transaction == mempool::pending_from(rows, from, None)[k],
    decreases rows.len(),
{
    let short = rows.drop_last();
    let earlier = mempool::pending_from(short, from, None);
    if i < rows.len() - 1 {
        assert(short[i] == rows[i]);
        let k = sent_is_pending(short, from, i);
        k
    } else {
        earlier.len() as int
    }
}

/// Once a transaction is taken that the ledger admits, what is pending from its
/// sender runs without a gap from the nonce that the account expects up to the
/// new one, each nonce once. Left out is the last nonce there is: an account
/// that has used it expects it again.
pub proof fn pending_nonces_run_from_the_account(
    before: Mempool,
    after: Mempool,
    ledger: Ledger,
    t: SignedTransaction,
    now: u64,
)
    requires
        before.wf(),
        after.wf(),
        mempool::validated_insertion(
            before@,
            before.limits(),
            before.chain(),
            ledger,
            t,
            now,
        ).1 is Ok,
        after@ == mempool::validated_insertion(
            before@,
            before.limits(),
            before.chain(),
            ledger,
            t,
            now,
        ).0,
        t.transaction.nonce.0 < u64::MAX,
    ensures
        ledger.account_spec(t.transaction.from) matches Some(account) && runs(
            ordered_map::rows_of(after@.entries),
            t.transaction.from,
            account.nonce.0 as int,
            t.transaction.nonce.0 + 1,
        ),
{
    accepted_queue_is_spendable(before, after, ledger, t, now);
    after.keeps_its_limits();
    let from = t.transaction.from;
    let rows = after.rows();
    let account = ledger.account_spec(from)->Some_0;
    let list = mempool::pending_from(rows, from, None);
    let queue = mempool::sender_queue(after@.entries, from, None);
    sort::stable_sorted_is_permutation::<SignedTransaction, ByNonce>(list);
    admitted_nonces_follow(queue, account.nonce.0, account.available.0);
    ordered_map::rows_are_entries(rows);
    assert forall|i: int| #[trigger] sent(rows, from, i) implies account.nonce.0
        <= rows[i].1.transaction.transaction.nonce.0 < t.transaction.nonce.0 + 1 by {
        let q = place_in_queue(rows, from, i, queue);
        assert(queue[queue.len() - 1] == queue.last());
    }
    assert forall|i: int, j: int| #[trigger]
        sent(rows, from, i) && #[trigger] sent(rows, from, j) && i
            != j implies rows[i].1.transaction.transaction.nonce
        != rows[j].1.transaction.transaction.nonce by {
        let p = place_in_queue(rows, from, i, queue);
        let q = place_in_queue(rows, from, j, queue);
        assert(after@.entries[rows[i].0] == rows[i].1);
        assert(after@.entries[rows[j].0] == rows[j].1);
        assert(rows[i].0 != rows[j].0);
        assert(rows[i].1.transaction.hash != rows[j].1.transaction.hash);
        assert(p != q);
    }
    assert forall|n: u64|
        account.nonce.0 <= n < t.transaction.nonce.0 + 1 implies #[trigger] is_taken(
        rows,
        from,
        n,
    ) by {
        assert(queue[queue.len() - 1] == queue.last());
        let q = n - account.nonce.0;
        assert(queue.contains(queue[q]));
        assert(list.contains(queue[q]));
        let k = choose|k: int| 0 <= k < list.len() && list[k] == queue[q];
        let i = pending_is_sent(rows, from, k);
        assert(sent_under(rows, from, n, i));
    }
}

proof fn place_in_queue(
    rows: Seq<(Digest, MempoolEntry)>,
    from: Address,
    i: int,
    queue: Seq<SignedTransaction>,
) -> (q: int)
    requires
        sent(rows, from, i),
        queue == sort::stable_sorted::<SignedTransaction, ByNonce>(
            mempool::pending_from(rows, from, None),
        ),
    ensures
        0 <= q < queue.len(),
        queue[q] == rows[i].1.transaction,
{
    let list = mempool::pending_from(rows, from, None);
    let k = sent_is_pending(rows, from, i);
    sort::stable_sorted_is_permutation::<SignedTransaction, ByNonce>(list);
    assert(list.contains(list[k]));
    assert(queue.contains(list[k]));
    choose|q: int| 0 <= q < queue.len() && queue[q] == list[k]
}

/// No two of the sender's rows have the same nonce.
spec fn apart(rows: Seq<(Digest, MempoolEntry)>, from: Address) -> bool {
    forall|i: int, j: int| #[trigger]
        sent(rows, from, i) && #[trigger] sent(rows, from, j) && i != j
            ==> rows[i].1.transaction.transaction.nonce != rows[j].1.transaction.transaction.nonce
}

proof fn pending_is_apart(rows: Seq<(Digest, MempoolEntry)>, from: Address)
    requires
        apart(rows, from),
    ensures
        ({
            let list = mempool::pending_from(rows, from, None);
            forall|i: int, j: int|
                0 <= i < j < list.len() ==> (#[trigger] list[i]).transaction.nonce
                    != (#[trigger] list[j]).transaction.nonce
        }),
    decreases rows.len(),
{
    if rows.len() > 0 {
        let short = rows.drop_last();
        assert forall|i: int, j: int| #[trigger]
            sent(short, from, i) && #[trigger] sent(short, from, j) && i
                != j implies short[i].1.transaction.transaction.nonce
            != short[j].1.transaction.transaction.nonce by {
            assert(sent(rows, from, i) && sent(rows, from, j));
        }
        pending_is_apart(short, from);
        let earlier = mempool::pending_from(short, from, None);
        let list = mempool::pending_from(rows, from, None);
        assert forall|i: int, j: int| 0 <= i < j < list.len() implies (
        #[trigger] list[i]).transaction.nonce != (#[trigger] list[j]).transaction.nonce by {
            assert(list[i] == earlier[i]);
            if j < earlier.len() {
                assert(list[j] == earlier[j]);
            } else {
                let r = pending_is_sent(short, from, i);
                assert(sent(rows, from, r));
                assert(sent(rows, from, rows.len() - 1));
            }
        }
    }
}

/// What a sender has pending without a gap stands in its queue under one nonce
/// after the other.
proof fn a_run_is_a_queue(
    rows: Seq<(Digest, MempoolEntry)>,
    from: Address,
    low: u64,
    high: u64,
    queue: Seq<SignedTransaction>,
)
    requires
        low <= high,
        runs(rows, from, low as int, high as int),
        queue == sort::stable_sorted::<SignedTransaction, ByNonce>(
            mempool::pending_from(rows, from, None),
        ),
    ensures
        queue.len() == high - low,
        forall|k: int|
            0 <= k < queue.len() ==> (#[trigger] queue[k]).transaction.nonce.0 == low + k,
{
    let list = mempool::pending_from(rows, from, None);
    pending_is_apart(rows, from);
    sort::stable_sorted_is_permutation::<SignedTransaction, ByNonce>(list);
    sort::stable_sorted_is_sorted::<SignedTransaction, ByNonce>(list);
    assert(list.no_duplicates());
    list.lemma_multiset_has_no_duplicates();
    queue.lemma_multiset_has_no_duplicates_conv();
    assert forall|i: int, j: int| 0 <= i < j < queue.len() implies (
    #[trigger] queue[i]).transaction.nonce.0 < (#[trigger] queue[j]).transaction.nonce.0 by {
        assert(!ByNonce::before(queue[j], queue[i]));
        assert(queue.contains(queue[i]) && queue.contains(queue[j]));
        assert(list.contains(queue[i]) && list.contains(queue[j]));
        let p = choose|p: int| 0 <= p < list.len() && list[p] == queue[i];
        let q = choose|q: int| 0 <= q < list.len() && list[q] == queue[j];
        assert(p != q);
        assert(list[p].transaction.nonce != list[q].transaction.nonce);
    }
    assert forall|k: int| 0 <= k < queue.len() implies low <= (
    #[trigger] queue[k]).transaction.nonce.0 < high by {
        assert(queue.contains(queue[k]));
        assert(list.contains(queue[k]));
        let p = choose|p: int| 0 <= p < list.len() && list[p] == queue[k];
        let i = pending_is_sent(rows, from, p);
        assert(sent(rows, from, i));
    }
    assert forall|n: u64| low <= n < high implies #[trigger] stands_in(queue, n) by {
        assert(is_taken(rows, from, n));
        let i = choose|i: int| sent_under(rows, from, n, i);
        let q = place_in_queue(rows, from, i, queue);
        assert(queue[q].transaction.nonce.0 == n);
    }
    no_gap(queue, low, high, queue.len() as int);
    if queue.len() < high - low {
        let n = (low + queue.len()) as u64;
        assert(stands_in(queue, n));
        let q = choose|q: int| 0 <= q < queue.len() && queue[q].transaction.nonce.0 == n;
    }
    if queue.len() > high - low {
        assert(queue[high - low].transaction.nonce.0 == high);
    }
}

spec fn stands_in(queue: Seq<SignedTransaction>, n: u64) -> bool {
    exists|q: int| 0 <= q < queue.len() && (#[trigger] queue[q]).transaction.nonce.0 == n
}

proof fn no_gap(queue: Seq<SignedTransaction>, low: u64, high: u64, upto: int)
    requires
        0 <= upto <= queue.len(),
        forall|i: int, j: int|
            0 <= i < j < queue.len() ==> (#[trigger] queue[i]).transaction.nonce.0 < (
            #[trigger] queue[j]).transaction.nonce.0,
        forall|k: int|
            0 <= k < queue.len() ==> low <= (#[trigger] queue[k]).transaction.nonce.0 < high,
        forall|n: u64| low <= n < high ==> #[trigger] stands_in(queue, n),
    ensures
        forall|k: int| 0 <= k < upto ==> (#[trigger] queue[k]).transaction.nonce.0 == low + k,
    decreases upto,
{
    if upto > 0 {
        no_gap(queue, low, high, upto - 1);
        let k = upto - 1;
        if k > 0 {
            assert(queue[k - 1].transaction.nonce.0 < queue[k].transaction.nonce.0);
        }
        let n = (low + k) as u64;
        if queue[k].transaction.nonce.0 > low + k {
            assert(stands_in(queue, n));
            let q = choose|q: int| 0 <= q < queue.len() && queue[q].transaction.nonce.0 == n;
            assert(queue[q].transaction.nonce.0 == n);
        }
    }
}

proof fn cost_is_no_debt(queue: Seq<SignedTransaction>)
    ensures
        cost(queue) >= 0,
    decreases queue.len(),
{
    if queue.len() > 0 {
        cost_is_no_debt(queue.drop_last());
    }
}

/// A queue under one nonce after the other that the funds cover is admitted.
proof fn covered_is_admitted(queue: Seq<SignedTransaction>, nonce: u64, funds: u32)
    requires
        forall|k: int|
            0 <= k < queue.len() ==> (#[trigger] queue[k]).transaction.nonce.0 == nonce + k,
        cost(queue) <= funds,
        nonce + queue.len() <= u64::MAX,
    ensures
        mempool::spend_all(queue, nonce, funds) == Ok::<(u64, u32), crate::types::StateError>(
            ((nonce + queue.len()) as u64, (funds - cost(queue)) as u32),
        ),
    decreases queue.len(),
{
    if queue.len() > 0 {
        let short = queue.drop_last();
        assert forall|k: int| 0 <= k < short.len() implies (
        #[trigger] short[k]).transaction.nonce.0 == nonce + k by {
            assert(short[k] == queue[k]);
        }
        cost_is_no_debt(short);
        covered_is_admitted(short, nonce, funds);
        assert(queue[queue.len() - 1] == queue.last());
    }
}

/// Above a run of nonces there is no conflict.
proof fn no_conflict_above_a_run(
    rows: Seq<(Digest, MempoolEntry)>,
    t: SignedTransaction,
    low: int,
)
    requires
        runs(rows, t.transaction.from, low, t.transaction.nonce.0 as int),
    ensures
        mempool::first_conflict(rows, t) is None,
{
    if exists|i: int| mempool::conflicts(rows, t, i) {
        let i = choose|i: int| mempool::conflicts(rows, t, i);
        assert(sent(rows, t.transaction.from, i));
    }
}

/// The account admits what follows on a run of nonces that it covers.
proof fn admitted_above_a_run(
    entries: Map<Digest, MempoolEntry>,
    ledger: Ledger,
    t: SignedTransaction,
)
    requires
        t.signed is Ok,
        ({
            let rows = ordered_map::rows_of(entries);
            let from = t.transaction.from;
            ledger.account_spec(from) matches Some(account) && {
                &&& account.nonce.0 <= t.transaction.nonce.0
                &&& runs(rows, from, account.nonce.0 as int, t.transaction.nonce.0 as int)
                &&& outgoing(rows, from) + t.transaction.amount.0 + t.transaction.fee.0
                    <= account.available.0
            }
        }),
    ensures
        mempool::ledger_verdict(entries, ledger, t, None) is Ok,
{
    let from = t.transaction.from;
    let rows = ordered_map::rows_of(entries);
    let account = ledger.account_spec(from)->Some_0;
    let list = mempool::pending_from(rows, from, None);
    let queue = mempool::sender_queue(entries, from, None);
    a_run_is_a_queue(rows, from, account.nonce.0, t.transaction.nonce.0, queue);
    sort::stable_sorted_is_permutation::<SignedTransaction, ByNonce>(list);
    cost_goes_by_what_is_there(queue, list);
    outgoing_is_cost(rows, from);
    cost_is_no_debt(queue);
    covered_is_admitted(queue, account.nonce.0, account.available.0);
    assert(queue.push(t).drop_last() =~= queue);
    assert(queue.push(t).last() == t);
}

/// What may be relayed, has no conflict, is admitted and has room is taken.
proof fn taken_at_its_end(
    state: PoolState,
    config: MempoolConfig,
    params: ChainParams,
    ledger: Ledger,
    t: SignedTransaction,
    now: u64,
)
    requires
        mempool::admissible(config, params, t, now) is Ok,
        ({
            let fresh = mempool::pruned(state, config, now);
            let rows = ordered_map::rows_of(fresh.entries);
            &&& mempool::first_conflict(rows, t) is None
            &&& mempool::ledger_verdict(fresh.entries, ledger, t, None) is Ok
            &&& !fresh.entries.contains_key(t.hash)
            &&& fresh.entries.dom().len() < config.max_transactions
            &&& mempool::size_sum(rows) + t.size <= config.max_bytes
        }),
    ensures
        ({
            let fresh = mempool::pruned(state, config, now);
            let (after, answer) = mempool::validated_insertion(
                state,
                config,
                params,
                ledger,
                t,
                now,
            );
            &&& answer == Ok::<Digest, MempoolError>(t.hash)
            &&& after.entries == fresh.entries.insert(
                t.hash,
                MempoolEntry { transaction: t, inserted_at: now },
            )
        }),
{
    mempool::size_sum_nonnegative(
        ordered_map::rows_of(mempool::pruned(state, config, now).entries),
    );
}

/// A transaction is taken, and is pending from then on beside all that had not
/// outlived its time, if its signature holds, its time is neither too old nor
/// too far ahead, its fee is no lower than the lowest, its hash is not pending,
/// the pool has room for it, it follows without a gap on what is pending from
/// its sender, and the sender's account covers all of that with it.
#[verifier::spinoff_prover]
pub proof fn a_covered_transaction_is_taken(
    state: PoolState,
    config: MempoolConfig,
    params: ChainParams,
    ledger: Ledger,
    t: SignedTransaction,
    now: u64,
)
    requires
        t.signed is Ok,
        now <= t.transaction.timestamp + MAX_RELAY_TRANSACTION_AGE_SECS,
        t.transaction.timestamp <= now + params.block_time,
        t.transaction.fee.0 >= lowest_fee(config),
        ({
            let fresh = mempool::survivors(state.entries, config, now);
            let rows = ordered_map::rows_of(fresh);
            let from = t.transaction.from;
            &&& !fresh.contains_key(t.hash)
            &&& fresh.dom().len() < config.max_transactions
            &&& mempool::size_sum(rows) + t.size <= config.max_bytes
            &&& ledger.account_spec(from) matches Some(account) && {
                &&& account.nonce.0 <= t.transaction.nonce.0
                &&& runs(rows, from, account.nonce.0 as int, t.transaction.nonce.0 as int)
                &&& outgoing(rows, from) + t.transaction.amount.0 + t.transaction.fee.0
                    <= account.available.0
            }
        }),
    ensures
        ({
            let fresh = mempool::survivors(state.entries, config, now);
            let (after, answer) = mempool::validated_insertion(
                state,
                config,
                params,
                ledger,
                t,
                now,
            );
            &&& answer == Ok::<Digest, MempoolError>(t.hash)
            &&& after.entries == fresh.insert(
                t.hash,
                MempoolEntry { transaction: t, inserted_at: now },
            )
        }),
{
    let fresh = mempool::pruned(state, config, now);
    let rows = ordered_map::rows_of(fresh.entries);
    let account = ledger.account_spec(t.transaction.from)->Some_0;
    no_conflict_above_a_run(rows, t, account.nonce.0 as int);
    admitted_above_a_run(fresh.entries, ledger, t);
    taken_at_its_end(state, config, params, ledger, t, now);
}

/// What is taken may be relayed: its signature holds, it is no older than a
/// transaction may be and no further ahead of the clock than a block takes, its
/// fee reaches the lowest, its hash was not pending, and with it the pool holds no
/// more transactions than it may, unless one gives way, and no more bytes.
pub proof fn only_what_may_be_relayed_is_taken(
    state: PoolState,
    config: MempoolConfig,
    params: ChainParams,
    ledger: Ledger,
    t: SignedTransaction,
    now: u64,
)
    ensures
        ({
            let fresh = mempool::survivors(state.entries, config, now);
            let in_time = t.signed is Ok && now <= t.transaction.timestamp
                + MAX_RELAY_TRANSACTION_AGE_SECS && t.transaction.timestamp <= now
                + params.block_time && t.transaction.fee.0 >= lowest_fee(config)
                && !fresh.contains_key(t.hash);
            let (plain, taken) = mempool::insertion(state, config, params, t, now);
            let (next, answer) = mempool::validated_insertion(
                state,
                config,
                params,
                ledger,
                t,
                now,
            );
            &&& taken is Ok ==> in_time && fresh.dom().len() < config.max_transactions
                && plain.total_bytes <= config.max_bytes && plain.entries == fresh.insert(
                t.hash,
                MempoolEntry { transaction: t, inserted_at: now },
            )
            &&& answer is Ok ==> in_time && next.total_bytes <= config.max_bytes
                && ledger.account_spec(t.transaction.from) is Some
            &&& taken is Err ==> plain.entries == fresh
            &&& answer is Err ==> next.entries == fresh
        }),
{
}

/// What may not be relayed is refused for the first reason that holds: its
/// signature, its age, its time ahead, and its fee; with or without a look at the
/// ledger.
pub proof fn what_may_not_be_relayed_is_told_why(
    state: PoolState,
    config: MempoolConfig,
    params: ChainParams,
    ledger: Ledger,
    t: SignedTransaction,
    now: u64,
)
    ensures
        ({
            let answer = mempool::validated_insertion(
                state,
                config,
                params,
                ledger,
                t,
                now,
            ).1;
            let taken = mempool::insertion(state, config, params, t, now).1;
            let old = now > t.transaction.timestamp + MAX_RELAY_TRANSACTION_AGE_SECS;
            let ahead = t.transaction.timestamp > now + params.block_time;
            &&& t.signed matches Err(error) ==> answer == Err::<Digest, MempoolError>(
                MempoolError::InvalidTransaction(error),
            ) && taken == answer
            &&& t.signed is Ok && old ==> answer == Err::<Digest, MempoolError>(
                MempoolError::InvalidTransaction(TransactionError::Expired),
            ) && taken == answer
            &&& t.signed is Ok && !old && ahead ==> answer == Err::<Digest, MempoolError>(
                MempoolError::InvalidTransaction(TransactionError::FromFuture),
            ) && taken == answer
        }),
{
}

/// Without a look at the ledger what may be relayed is refused exactly if it is
/// pending, and told so, or the pool is full of transactions or of bytes.
pub proof fn what_may_be_relayed_is_refused_by_a_full_pool(
    state: PoolState,
    config: MempoolConfig,
    params: ChainParams,
    t: SignedTransaction,
    now: u64,
)
    requires
        t.signed is Ok,
        now <= t.transaction.timestamp + MAX_RELAY_TRANSACTION_AGE_SECS,
        t.transaction.timestamp <= now + params.block_time,
        t.transaction.fee.0 >= lowest_fee(config),
        config.max_bytes < usize::MAX,
    ensures
        ({
            let fresh = mempool::survivors(state.entries, config, now);
            let taken = mempool::insertion(state, config, params, t, now).1;
            let full = fresh.dom().len() >= config.max_transactions || mempool::size_sum(
                ordered_map::rows_of(fresh),
            ) + t.size > config.max_bytes;
            &&& fresh.contains_key(t.hash) <==> taken == Err::<Digest, MempoolError>(
                MempoolError::DuplicateTransaction,
            )
            &&& !fresh.contains_key(t.hash) && full <==> taken == Err::<Digest, MempoolError>(
                MempoolError::MempoolFull,
            )
            &&& !fresh.contains_key(t.hash) && !full <==> taken == Ok::<Digest, MempoolError>(
                t.hash,
            )
        }),
{
    mempool::size_sum_nonnegative(
        ordered_map::rows_of(mempool::survivors(state.entries, config, now)),
    );
}

/// A fee is too low to take a place only where one that is pending from the same
/// sender under the same nonce pays no less.
pub proof fn a_place_is_kept_by_a_fee_as_high(
    entries: Map<Digest, MempoolEntry>,
    t: SignedTransaction,
) -> (i: int)
    requires
        mempool::replacement(entries, t) is Err,
    ensures
        ({
            let rows = ordered_map::rows_of(entries);
            &&& mempool::replacement(entries, t) == Err::<Option<Digest>, MempoolError>(
                MempoolError::ReplacementFeeTooLow,
            )
            &&& sent(rows, t.transaction.from, i)
            &&& rows[i].1.transaction.transaction.nonce == t.transaction.nonce
            &&& rows[i].1.transaction.transaction.fee.0 >= t.transaction.fee.0
        }),
{
    let rows = ordered_map::rows_of(entries);
    first_conflict_is_one(rows, t);
    mempool::first_conflict(rows, t)->Some_0
}

/// Nothing outlives its time in the pool: what is pending came in no longer ago
/// than a transaction with its fee may wait, and what came in since then waits.
pub proof fn nothing_waits_longer_than_it_may(
    state: PoolState,
    config: MempoolConfig,
    now: u64,
    h: Digest,
)
    ensures
        ({
            let fresh = mempool::survivors(state.entries, config, now);
            &&& fresh.contains_key(h) <==> state.entries.contains_key(h) && now
                <= state.entries[h].inserted_at + (
            if state.entries[h].transaction.transaction.fee.0 < config.market_fee {
                config.low_fee_ttl_secs
            } else {
                config.transaction_ttl_secs
            })
            &&& fresh.contains_key(h) ==> fresh[h] == state.entries[h]
        }),
{
}

proof fn outgoing_without(rows: Seq<(Digest, MempoolEntry)>, from: Address, i: int)
    requires
        sent(rows, from, i),
    ensures
        outgoing(rows, from) == outgoing(rows.remove(i), from)
            + rows[i].1.transaction.transaction.amount.0
            + rows[i].1.transaction.transaction.fee.0,
    decreases rows.len(),
{
    let rest = rows.remove(i);
    if i == rows.len() - 1 {
        assert(rest =~= rows.drop_last());
    } else {
        let short = rows.drop_last();
        assert(short[i] == rows[i]);
        outgoing_without(short, from, i);
        assert(rest.drop_last() =~= short.remove(i));
        assert(rest.last() == rows.last());
    }
}

/// Without its last transaction a run of nonces ends one earlier.
proof fn a_run_without_its_last(
    rows: Seq<(Digest, MempoolEntry)>,
    from: Address,
    low: int,
    high: u64,
    i: int,
)
    requires
        runs(rows, from, low, high + 1),
        sent_under(rows, from, high, i),
    ensures
        runs(rows.remove(i), from, low, high as int),
{
    let rest = rows.remove(i);
    assert forall|k: int| #[trigger] sent(rest, from, k) implies low
        <= rest[k].1.transaction.transaction.nonce.0 < high by {
        let p = if k < i { k } else { k + 1 };
        assert(rest[k] == rows[p]);
        assert(sent(rows, from, p) && sent(rows, from, i));
    }
    assert forall|j: int, k: int| #[trigger]
        sent(rest, from, j) && #[trigger] sent(rest, from, k) && j
            != k implies rest[j].1.transaction.transaction.nonce
        != rest[k].1.transaction.transaction.nonce by {
        let p = if j < i { j } else { j + 1 };
        let q = if k < i { k } else { k + 1 };
        assert(rest[j] == rows[p] && rest[k] == rows[q]);
        assert(sent(rows, from, p) && sent(rows, from, q));
    }
    assert forall|n: u64| low <= n < high implies #[trigger] is_taken(rest, from, n) by {
        assert(is_taken(rows, from, n));
        let p = choose|p: int| sent_under(rows, from, n, p);
        let k = if p < i { p } else { p - 1 };
        assert(rest[k] == rows[p]);
        assert(sent_under(rest, from, n, k));
    }
}

/// The entries have rows in the order of hashes.
#[verifier::opaque]
spec fn in_rows(entries: Map<Digest, MempoolEntry>) -> bool {
    &&& ordered_map::ascending(ordered_map::rows_of(entries))
    &&& ordered_map::rows_map(ordered_map::rows_of(entries)) == entries
}

proof fn survivors_are_in_rows(pool: Mempool, now: u64)
    requires
        pool.wf(),
    ensures
        in_rows(mempool::pruned(pool@, pool.limits(), now).entries),
{
    reveal(in_rows);
    survivors_have_rows(pool, now);
}

/// In a run of nonces there is one conflict.
proof fn the_conflict_is_the_one(
    rows: Seq<(Digest, MempoolEntry)>,
    t: SignedTransaction,
    low: int,
    i: int,
)
    requires
        runs(rows, t.transaction.from, low, t.transaction.nonce.0 + 1),
        sent_under(rows, t.transaction.from, t.transaction.nonce.0, i),
    ensures
        mempool::first_conflict(rows, t) == Some(i),
{
    let from = t.transaction.from;
    assert(mempool::conflicts(rows, t, i));
    first_conflict_is_one(rows, t);
    let k = mempool::first_conflict(rows, t)->Some_0;
    assert(sent(rows, from, k) && sent(rows, from, i));
}

/// The account admits what takes the place of the last that is pending.
proof fn admitted_in_its_place(
    entries: Map<Digest, MempoolEntry>,
    ledger: Ledger,
    t: SignedTransaction,
    i: int,
)
    requires
        t.signed is Ok,
        in_rows(entries),
        ({
            let rows = ordered_map::rows_of(entries);
            let from = t.transaction.from;
            let other = rows[i].1.transaction;
            &&& sent_under(rows, from, t.transaction.nonce.0, i)
            &&& ledger.account_spec(from) matches Some(account) && {
                &&& account.nonce.0 <= t.transaction.nonce.0
                &&& runs(rows, from, account.nonce.0 as int, t.transaction.nonce.0 + 1)
                &&& outgoing(rows, from) - other.transaction.amount.0 - other.transaction.fee.0
                    + t.transaction.amount.0 + t.transaction.fee.0 <= account.available.0
            }
        }),
    ensures
        mempool::ledger_verdict(
            entries,
            ledger,
            t,
            Some(ordered_map::rows_of(entries)[i].0),
        ) is Ok,
{
    reveal(in_rows);
    let from = t.transaction.from;
    let rows = ordered_map::rows_of(entries);
    let account = ledger.account_spec(from)->Some_0;
    let kept = rows.remove(i);
    ordered_map::rows_removed(rows, i);
    same_pending_without(rows, kept, from, i);
    a_run_without_its_last(rows, from, account.nonce.0 as int, t.transaction.nonce.0, i);
    let list = mempool::pending_from(kept, from, None);
    let queue = mempool::sender_queue(entries, from, Some(rows[i].0));
    a_run_is_a_queue(kept, from, account.nonce.0, t.transaction.nonce.0, queue);
    sort::stable_sorted_is_permutation::<SignedTransaction, ByNonce>(list);
    cost_goes_by_what_is_there(queue, list);
    outgoing_is_cost(kept, from);
    outgoing_without(rows, from, i);
    cost_is_no_debt(queue);
    covered_is_admitted(queue, account.nonce.0, account.available.0);
    assert(queue.push(t).drop_last() =~= queue);
    assert(queue.push(t).last() == t);
}

/// There is room for what takes the place of another.
proof fn room_in_its_place(
    state: PoolState,
    config: MempoolConfig,
    t: SignedTransaction,
    now: u64,
    i: int,
)
    requires
        in_rows(state.entries),
        state.total_bytes == mempool::capped(
            mempool::size_sum(ordered_map::rows_of(state.entries)),
        ),
        !state.entries.contains_key(t.hash),
        ({
            let rows = ordered_map::rows_of(state.entries);
            &&& 0 <= i < rows.len()
            &&& mempool::size_sum(rows) <= config.max_bytes
            &&& mempool::size_sum(rows) - rows[i].1.transaction.size + t.size <= config.max_bytes
        }),
    ensures
        ({
            let hash = ordered_map::rows_of(state.entries)[i].0;
            mempool::added(state, config, t, now, Some(hash)) matches Ok(next) && next.entries
                == state.entries.remove(hash).insert(
                t.hash,
                MempoolEntry { transaction: t, inserted_at: now },
            )
        }),
{
    reveal(in_rows);
    let rows = ordered_map::rows_of(state.entries);
    row_is_entry(rows, i);
    mempool::size_sum_nonnegative(rows);
    mempool::size_sum_nonnegative(rows.remove(i));
    mempool::size_sum_remove(rows, i);
}

/// What may be relayed, has a conflict with a lower fee, is admitted and has room
/// is taken.
proof fn taken_in_its_place(
    state: PoolState,
    config: MempoolConfig,
    params: ChainParams,
    ledger: Ledger,
    t: SignedTransaction,
    now: u64,
    i: int,
)
    requires
        mempool::admissible(config, params, t, now) is Ok,
        ({
            let fresh = mempool::pruned(state, config, now);
            let rows = ordered_map::rows_of(fresh.entries);
            &&& mempool::first_conflict(rows, t) == Some(i)
            &&& rows[i].1.transaction.transaction.fee.0 < t.transaction.fee.0
            &&& mempool::ledger_verdict(fresh.entries, ledger, t, Some(rows[i].0)) is Ok
            &&& mempool::added(fresh, config, t, now, Some(rows[i].0)) is Ok
        }),
    ensures
        ({
            let fresh = mempool::pruned(state, config, now);
            let rows = ordered_map::rows_of(fresh.entries);
            let (after, answer) = mempool::validated_insertion(
                state,
                config,
                params,
                ledger,
                t,
                now,
            );
            &&& answer == Ok::<Digest, MempoolError>(t.hash)
            &&& after == mempool::added(fresh, config, t, now, Some(rows[i].0))->Ok_0
        }),
{
}

/// A transaction with a higher fee takes the place of the last one that is pending
/// from its sender under the same nonce, if the sender's account covers it in its
/// place: it is taken, the other is gone, and all else stays.
#[verifier::spinoff_prover]
pub proof fn a_higher_fee_takes_the_place(
    before: Mempool,
    ledger: Ledger,
    t: SignedTransaction,
    now: u64,
    i: int,
)
    requires
        before.wf(),
        t.signed is Ok,
        now <= t.transaction.timestamp + MAX_RELAY_TRANSACTION_AGE_SECS,
        t.transaction.timestamp <= now + before.chain().block_time,
        t.transaction.fee.0 >= lowest_fee(before.limits()),
        ({
            let fresh = mempool::survivors(before@.entries, before.limits(), now);
            let rows = ordered_map::rows_of(fresh);
            let from = t.transaction.from;
            let other = rows[i].1.transaction;
            &&& !fresh.contains_key(t.hash)
            &&& sent_under(rows, from, t.transaction.nonce.0, i)
            &&& other.transaction.fee.0 < t.transaction.fee.0
            &&& mempool::size_sum(rows) <= before.limits().max_bytes
            &&& mempool::size_sum(rows) - other.size + t.size <= before.limits().max_bytes
            &&& ledger.account_spec(from) matches Some(account) && {
                &&& account.nonce.0 <= t.transaction.nonce.0
                &&& runs(rows, from, account.nonce.0 as int, t.transaction.nonce.0 + 1)
                &&& outgoing(rows, from) - other.transaction.amount.0 - other.transaction.fee.0
                    + t.transaction.amount.0 + t.transaction.fee.0 <= account.available.0
            }
        }),
    ensures
        ({
            let fresh = mempool::survivors(before@.entries, before.limits(), now);
            let rows = ordered_map::rows_of(fresh);
            let (after, answer) = mempool::validated_insertion(
                before@,
                before.limits(),
                before.chain(),
                ledger,
                t,
                now,
            );
            &&& answer == Ok::<Digest, MempoolError>(t.hash)
            &&& after.entries == fresh.remove(rows[i].0).insert(
                t.hash,
                MempoolEntry { transaction: t, inserted_at: now },
            )
        }),
{
    let config = before.limits();
    let fresh = mempool::pruned(before@, config, now);
    let rows = ordered_map::rows_of(fresh.entries);
    let account = ledger.account_spec(t.transaction.from)->Some_0;
    survivors_are_in_rows(before, now);
    the_conflict_is_the_one(rows, t, account.nonce.0 as int, i);
    admitted_in_its_place(fresh.entries, ledger, t, i);
    room_in_its_place(fresh, config, t, now, i);
    taken_in_its_place(before@, config, before.chain(), ledger, t, now, i);
}

} // verus!
