//! What becomes of the transactions of the blocks that a reorganisation drops.

use crate::import::{self, Event, Rebuild};
use crate::ledger::Ledger;
use crate::mempool::{self, MempoolConfig, MempoolEntry, PoolState};
use crate::mempool_laws;
use crate::node::{self, Node};
use crate::order::{self, OrderedKey};
use crate::ordered_map;
use crate::params::{ChainParams, MAX_RELAY_TRANSACTION_AGE_SECS};
use crate::storage;
use crate::types::{self, Address, Block, Digest, Height, SignedTransaction};
use vstd::prelude::*;

verus! {

/// The transactions of those of the first `n` blocks that the branch does not
/// have, in the order of the blocks.
pub open spec fn lost(blocks: Seq<(Height, Block)>, branch: Seq<Digest>, n: int) -> Seq<
    SignedTransaction,
>
    decreases n,
{
    if n <= 0 {
        Seq::empty()
    } else if branch.contains(blocks[n - 1].1.data.hash) {
        lost(blocks, branch, n - 1)
    } else {
        lost(blocks, branch, n - 1) + blocks[n - 1].1.data.transactions@
    }
}

/// Transaction `i` of block `b` is one that the branch does not have.
pub open spec fn is_lost(
    blocks: Seq<(Height, Block)>,
    branch: Seq<Digest>,
    b: int,
    i: int,
) -> bool {
    &&& 0 <= b < blocks.len()
    &&& !branch.contains(blocks[b].1.data.hash)
    &&& 0 <= i < blocks[b].1.data.transactions@.len()
}

/// The transaction is one of a dropped block.
pub open spec fn is_one_lost(
    t: SignedTransaction,
    blocks: Seq<(Height, Block)>,
    branch: Seq<Digest>,
    n: int,
) -> bool {
    exists|b: int, i: int| #[trigger]
        is_lost(blocks, branch, b, i) && b < n && blocks[b].1.data.transactions@[i] == t
}

/// The pool at one step is the pool at the step before after the transaction of
/// that step was submitted against the ledger.
pub open spec fn is_submission(
    states: Seq<PoolState>,
    config: MempoolConfig,
    params: ChainParams,
    ledger: Ledger,
    list: Seq<SignedTransaction>,
    now: u64,
    k: int,
) -> bool {
    states[k + 1] == mempool::validated_insertion(
        states[k],
        config,
        params,
        ledger,
        list[k],
        now,
    ).0
}

/// The pool after a submission.
#[verifier::opaque]
spec fn submit(
    pool: PoolState,
    config: MempoolConfig,
    params: ChainParams,
    ledger: Ledger,
    t: SignedTransaction,
    now: u64,
) -> PoolState {
    mempool::validated_insertion(pool, config, params, ledger, t, now).0
}

/// The pool after the first `n` transactions of a list were submitted.
spec fn after_all(
    pool: PoolState,
    config: MempoolConfig,
    params: ChainParams,
    ledger: Ledger,
    list: Seq<SignedTransaction>,
    n: int,
    now: u64,
) -> PoolState
    decreases n,
{
    if n <= 0 {
        pool
    } else {
        submit(
            after_all(pool, config, params, ledger, list, n - 1, now),
            config,
            params,
            ledger,
            list[n - 1],
            now,
        )
    }
}

proof fn resubmission_is_one_more(
    pool: PoolState,
    config: MempoolConfig,
    params: ChainParams,
    ledger: Ledger,
    list: Seq<SignedTransaction>,
    n: int,
    now: u64,
)
    ensures
        import::resubmitted(pool, config, params, ledger, list, n, now) == if n <= 0 {
            pool
        } else {
            submit(
                import::resubmitted(pool, config, params, ledger, list, n - 1, now),
                config,
                params,
                ledger,
                list[n - 1],
                now,
            )
        },
{
    reveal(submit);
    reveal_with_fuel(import::resubmitted, 1);
}

proof fn after_a_part(
    pool: PoolState,
    config: MempoolConfig,
    params: ChainParams,
    ledger: Ledger,
    a: Seq<SignedTransaction>,
    b: Seq<SignedTransaction>,
    n: int,
    now: u64,
)
    requires
        0 <= n <= a.len(),
    ensures
        after_all(pool, config, params, ledger, a + b, n, now) == after_all(
            pool,
            config,
            params,
            ledger,
            a,
            n,
            now,
        ),
    decreases n,
{
    if n > 0 {
        after_a_part(pool, config, params, ledger, a, b, n - 1, now);
        assert((a + b)[n - 1] == a[n - 1]);
    }
}

proof fn after_both_parts(
    pool: PoolState,
    config: MempoolConfig,
    params: ChainParams,
    ledger: Ledger,
    a: Seq<SignedTransaction>,
    b: Seq<SignedTransaction>,
    m: int,
    now: u64,
)
    requires
        0 <= m <= b.len(),
    ensures
        after_all(pool, config, params, ledger, a + b, a.len() + m, now) == import::resubmitted(
            after_all(pool, config, params, ledger, a, a.len() as int, now),
            config,
            params,
            ledger,
            b,
            m,
            now,
        ),
    decreases m,
{
    resubmission_is_one_more(
        after_all(pool, config, params, ledger, a, a.len() as int, now),
        config,
        params,
        ledger,
        b,
        m,
        now,
    );
    if m > 0 {
        after_both_parts(pool, config, params, ledger, a, b, m - 1, now);
        assert((a + b)[a.len() + m - 1] == b[m - 1]);
    } else {
        after_a_part(pool, config, params, ledger, a, b, a.len() as int, now);
    }
}

proof fn recovery_submits_the_lost(
    pool: PoolState,
    config: MempoolConfig,
    params: ChainParams,
    ledger: Ledger,
    blocks: Seq<(Height, Block)>,
    branch: Seq<Digest>,
    n: int,
    now: u64,
)
    requires
        0 <= n <= blocks.len(),
    ensures
        import::recovered(pool, config, params, ledger, blocks, branch, n, now) == after_all(
            pool,
            config,
            params,
            ledger,
            lost(blocks, branch, n),
            lost(blocks, branch, n).len() as int,
            now,
        ),
    decreases n,
{
    reveal_with_fuel(import::recovered, 1);
    if n > 0 {
        recovery_submits_the_lost(pool, config, params, ledger, blocks, branch, n - 1, now);
        if !branch.contains(blocks[n - 1].1.data.hash) {
            let more = blocks[n - 1].1.data.transactions@;
            after_both_parts(
                pool,
                config,
                params,
                ledger,
                lost(blocks, branch, n - 1),
                more,
                more.len() as int,
                now,
            );
        }
    }
}

proof fn the_lost_are_lost(blocks: Seq<(Height, Block)>, branch: Seq<Digest>, n: int)
    requires
        0 <= n <= blocks.len(),
    ensures
        forall|b: int, i: int| #[trigger]
            is_lost(blocks, branch, b, i) && b < n ==> lost(blocks, branch, n).contains(
                blocks[b].1.data.transactions@[i],
            ),
        forall|k: int|
            0 <= k < lost(blocks, branch, n).len() ==> is_one_lost(
                #[trigger] lost(blocks, branch, n)[k],
                blocks,
                branch,
                n,
            ),
    decreases n,
{
    if n > 0 {
        the_lost_are_lost(blocks, branch, n - 1);
        let before = lost(blocks, branch, n - 1);
        let list = lost(blocks, branch, n);
        assert forall|b: int, i: int| #[trigger]
            is_lost(blocks, branch, b, i) && b < n implies list.contains(
            blocks[b].1.data.transactions@[i],
        ) by {
            let t = blocks[b].1.data.transactions@[i];
            if b < n - 1 {
                assert(before.contains(t));
                let k = choose|k: int| 0 <= k < before.len() && before[k] == t;
                assert(list[k] == t);
            } else {
                assert(list[before.len() + i] == t);
            }
        }
        assert forall|k: int| 0 <= k < list.len() implies is_one_lost(
            #[trigger] list[k],
            blocks,
            branch,
            n,
        ) by {
            if k < before.len() {
                assert(list[k] == before[k]);
                let (b, i) = choose|b: int, i: int| #[trigger]
                    is_lost(blocks, branch, b, i) && b < n - 1
                        && blocks[b].1.data.transactions@[i] == before[k];
                assert(is_lost(blocks, branch, b, i));
            } else {
                assert(is_lost(blocks, branch, n - 1, k - before.len()));
            }
        }
    }
}

/// The reorganisation takes place: the node has a tip, the branches share a
/// block, the new branch was found, a ledger was built for it and could be
/// written.
pub open spec fn reorganises(before: Node, rebuild: Rebuild) -> bool {
    &&& before.ledger.tip_hash_spec() is Some
    &&& exists|h: Digest| #[trigger]
        rebuild.old_branch@.contains(h) && rebuild.new_branch@.contains(h)
    &&& rebuild.branch_found
    &&& rebuild.ledger matches Ok(ledger) && storage::with_ledger(before.storage@, ledger).1
}

proof fn what_is_shared_is_found(old_branch: Seq<Digest>, new_branch: Seq<Digest>, h: Digest)
    requires
        old_branch.contains(h),
        new_branch.contains(h),
    ensures
        node::first_shared(old_branch, new_branch) is Some,
    decreases new_branch.len(),
{
    let k = choose|k: int| 0 <= k < new_branch.len() && new_branch[k] == h;
    if !old_branch.contains(new_branch[0]) {
        let rest = new_branch.skip(1);
        assert(rest[k - 1] == h);
        what_is_shared_is_found(old_branch, rest, h);
    }
}

/// A block that two branches share is found exactly if there is one.
pub(crate) proof fn shared_means_shared(old_branch: Seq<Digest>, new_branch: Seq<Digest>)
    ensures
        node::first_shared(old_branch, new_branch) is Some <==> exists|h: Digest| #[trigger]
            old_branch.contains(h) && new_branch.contains(h),
    decreases new_branch.len(),
{
    if exists|h: Digest| #[trigger] old_branch.contains(h) && new_branch.contains(h) {
        let h = choose|h: Digest| #[trigger] old_branch.contains(h) && new_branch.contains(h);
        what_is_shared_is_found(old_branch, new_branch, h);
    }
    if node::first_shared(old_branch, new_branch) is Some {
        if old_branch.contains(new_branch[0]) {
            assert(new_branch.contains(new_branch[0]));
        } else {
            let rest = new_branch.skip(1);
            shared_means_shared(old_branch, rest);
            let h = choose|h: Digest| #[trigger] old_branch.contains(h) && rest.contains(h);
            let k = choose|k: int| 0 <= k < rest.len() && rest[k] == h;
            assert(new_branch[k + 1] == h);
        }
    }
}

/// After a reorganisation every transaction of an old block that is not on the
/// new branch has been submitted again, one after the other in the order of the
/// chain, against the new ledger: the pool went from what it was to what it is
/// through one submission for each of them, and no other.
pub proof fn every_lost_transaction_is_submitted(
    before: Node,
    after: Node,
    block: Block,
    rebuild: Rebuild,
    now: u64,
) -> (states: Seq<PoolState>)
    requires
        reorganises(before, rebuild),
        import::stepped(before, after, block, Event::Rebuilt(rebuild), now),
    ensures
        ({
            let blocks = before.ledger.blocks.rows();
            let branch = rebuild.new_branch@;
            let list = lost(blocks, branch, blocks.len() as int);
            &&& after.ledger == rebuild.ledger->Ok_0
            &&& states.len() == list.len() + 1
            &&& states[0] == before.mempool@
            &&& states[list.len() as int] == after.mempool@
            &&& forall|k: int|
                0 <= k < list.len() ==> #[trigger] is_submission(
                    states,
                    before.mempool.limits(),
                    before.mempool.chain(),
                    rebuild.ledger->Ok_0,
                    list,
                    now,
                    k,
                )
            &&& forall|b: int, i: int| #[trigger]
                is_lost(blocks, branch, b, i) ==> list.contains(
                    blocks[b].1.data.transactions@[i],
                )
            &&& forall|k: int|
                0 <= k < list.len() ==> is_one_lost(
                    #[trigger] list[k],
                    blocks,
                    branch,
                    blocks.len() as int,
                )
        }),
{
    let blocks = before.ledger.blocks.rows();
    let branch = rebuild.new_branch@;
    let n = blocks.len() as int;
    let list = lost(blocks, branch, n);
    let ledger = rebuild.ledger->Ok_0;
    let h = choose|h: Digest| #[trigger]
        rebuild.old_branch@.contains(h) && rebuild.new_branch@.contains(h);
    what_is_shared_is_found(rebuild.old_branch@, branch, h);
    let config = before.mempool.limits();
    let params = before.mempool.chain();
    recovery_submits_the_lost(before.mempool@, config, params, ledger, blocks, branch, n, now);
    the_lost_are_lost(blocks, branch, n);
    let states = Seq::new(
        list.len() + 1,
        |k: int| after_all(before.mempool@, config, params, ledger, list, k, now),
    );
    assert forall|k: int| 0 <= k < list.len() implies #[trigger] is_submission(
        states,
        config,
        params,
        ledger,
        list,
        now,
        k,
    ) by {
        reveal(submit);
        assert(states[k + 1] == submit(states[k], config, params, ledger, list[k], now));
    }
    states
}

/// The entries have rows in the order of hashes.
spec fn has_rows(entries: Map<Digest, MempoolEntry>) -> bool {
    &&& ordered_map::ascending(ordered_map::rows_of(entries))
    &&& ordered_map::rows_map(ordered_map::rows_of(entries)) == entries
}

/// A new key has a place among ascending rows.
proof fn a_key_has_a_place(rows: Seq<(Digest, MempoolEntry)>, key: Digest) -> (at: int)
    requires
        ordered_map::ascending(rows),
        forall|i: int| 0 <= i < rows.len() ==> (#[trigger] rows[i]).0 != key,
    ensures
        0 <= at <= rows.len(),
        forall|i: int| 0 <= i < at ==> (#[trigger] rows[i]).0.precedes(key),
        forall|i: int| at <= i < rows.len() ==> key.precedes((#[trigger] rows[i]).0),
    decreases rows.len(),
{
    if rows.len() == 0 {
        0
    } else {
        let last = rows[rows.len() - 1].0;
        types::hash_is_its_bytes(last, key);
        order::lex_less_total(last.0@, key.0@);
        if last.precedes(key) {
            assert forall|i: int| 0 <= i < rows.len() implies (#[trigger] rows[i]).0.precedes(
                key,
            ) by {
                if i < rows.len() - 1 {
                    assert(rows[i].0.precedes(rows[rows.len() - 1].0));
                    Digest::transitive(rows[i].0, last, key);
                }
            }
            rows.len() as int
        } else {
            let short = rows.drop_last();
            let at = a_key_has_a_place(short, key);
            assert forall|i: int| 0 <= i < at implies (#[trigger] rows[i]).0.precedes(key) by {
                assert(rows[i] == short[i]);
            }
            assert forall|i: int| at <= i < rows.len() implies key.precedes(
                (#[trigger] rows[i]).0,
            ) by {
                if i < short.len() {
                    assert(rows[i] == short[i]);
                }
            }
            at
        }
    }
}

/// With a new key there is one row more, and its size.
proof fn one_more_row(entries: Map<Digest, MempoolEntry>, key: Digest, entry: MempoolEntry)
    requires
        has_rows(entries),
        !entries.contains_key(key),
    ensures
        has_rows(entries.insert(key, entry)),
        ordered_map::rows_of(entries.insert(key, entry)).len() == ordered_map::rows_of(
            entries,
        ).len() + 1,
        mempool::size_sum(ordered_map::rows_of(entries.insert(key, entry))) == mempool::size_sum(
            ordered_map::rows_of(entries),
        ) + entry.transaction.size,
{
    let rows = ordered_map::rows_of(entries);
    ordered_map::rows_are_entries(rows);
    assert forall|i: int| 0 <= i < rows.len() implies (#[trigger] rows[i]).0 != key by {
        assert(entries.contains_key(rows[i].0));
    }
    let at = a_key_has_a_place(rows, key);
    ordered_map::rows_inserted(rows, at, key, entry);
    ordered_map::rows_are_rows_of(rows.insert(at, (key, entry)));
    mempool::size_sum_insert(rows, at, (key, entry));
}

/// Without a key there is one row less, and its size.
proof fn one_row_less(entries: Map<Digest, MempoolEntry>, i: int)
    requires
        has_rows(entries),
        0 <= i < ordered_map::rows_of(entries).len(),
    ensures
        ({
            let rows = ordered_map::rows_of(entries);
            let rest = entries.remove(rows[i].0);
            &&& has_rows(rest)
            &&& ordered_map::rows_of(rest).len() + 1 == rows.len()
            &&& mempool::size_sum(ordered_map::rows_of(rest)) <= mempool::size_sum(rows)
        }),
{
    let rows = ordered_map::rows_of(entries);
    ordered_map::rows_removed(rows, i);
    ordered_map::rows_are_rows_of(rows.remove(i));
    mempool::size_sum_remove(rows, i);
}

/// What has not outlived its time has rows too.
proof fn survivors_keep_rows(entries: Map<Digest, MempoolEntry>, config: MempoolConfig, now: u64)
    requires
        has_rows(entries),
    ensures
        has_rows(mempool::survivors(entries, config, now)),
{
    let rows = ordered_map::rows_of(entries);
    let r = mempool_laws::part_has_rows(rows, mempool::survivors(entries, config, now));
    ordered_map::rows_are_rows_of(r);
}

/// What a submission does to the entries.
proof fn a_submission_adds_at_most_one(
    pool: PoolState,
    config: MempoolConfig,
    params: ChainParams,
    ledger: Ledger,
    t: SignedTransaction,
    now: u64,
)
    requires
        has_rows(pool.entries),
    ensures
        ({
            let fresh = mempool::survivors(pool.entries, config, now);
            let next = submit(pool, config, params, ledger, t, now).entries;
            let entry = MempoolEntry { transaction: t, inserted_at: now };
            &&& has_rows(fresh)
            &&& has_rows(next)
            &&& forall|h: Digest| #[trigger]
                next.contains_key(h) ==> (fresh.contains_key(h) && next[h] == fresh[h]) || (h
                    == t.hash && next[h] == entry)
            &&& forall|h: Digest| #[trigger]
                fresh.contains_key(h) && fresh[h].transaction.transaction.from
                    != t.transaction.from ==> next.contains_key(h) && next[h] == fresh[h]
            &&& ordered_map::rows_of(next).len() <= ordered_map::rows_of(fresh).len() + 1
            &&& mempool::size_sum(ordered_map::rows_of(next)) <= mempool::size_sum(
                ordered_map::rows_of(fresh),
            ) + t.size
        }),
{
    reveal(submit);
    survivors_keep_rows(pool.entries, config, now);
    let fresh = mempool::pruned(pool, config, now);
    let entry = MempoolEntry { transaction: t, inserted_at: now };
    let (next, answer) = mempool::validated_insertion(pool, config, params, ledger, t, now);
    match answer {
        Err(_) => {
            assert(next == fresh);
        },
        Ok(_) => {
            let replaced = mempool::replacement(fresh.entries, t)->Ok_0;
            mempool_laws::replaced_is_cheaper(fresh.entries, t);
            mempool_laws::added_entries(fresh, config, t, now, replaced);
            match replaced {
                Some(hash) => {
                    let i = mempool_laws::replaced_row(fresh.entries, t, hash);
                    one_row_less(fresh.entries, i);
                    one_more_row(fresh.entries.remove(hash), t.hash, entry);
                },
                None => {
                    one_more_row(fresh.entries, t.hash, entry);
                },
            }
        },
    }
}

/// The bytes that a list of transactions takes.
pub open spec fn sizes(list: Seq<SignedTransaction>) -> int
    decreases list.len(),
{
    if list.len() == 0 {
        0
    } else {
        sizes(list.drop_last()) + list.last().size
    }
}

proof fn sizes_of_a_part(list: Seq<SignedTransaction>, n: int)
    requires
        0 <= n <= list.len(),
    ensures
        0 <= sizes(list.take(n)) <= sizes(list),
        n < list.len() ==> sizes(list.take(n + 1)) == sizes(list.take(n)) + list[n].size,
    decreases list.len() - n,
{
    if n < list.len() {
        assert(list.take(n + 1).drop_last() =~= list.take(n));
        sizes_of_a_part(list, n + 1);
    } else {
        assert(list.take(n) =~= list);
    }
    sizes_are_no_debt(list.take(n));
}

proof fn sizes_are_no_debt(list: Seq<SignedTransaction>)
    ensures
        sizes(list) >= 0,
    decreases list.len(),
{
    if list.len() > 0 {
        sizes_are_no_debt(list.drop_last());
    }
}

/// Transaction `p` of a list is the only one of its sender, and under its hash,
/// in the list and among the entries.
pub open spec fn is_alone(
    entries: Map<Digest, MempoolEntry>,
    list: Seq<SignedTransaction>,
    p: int,
) -> bool {
    &&& 0 <= p < list.len()
    &&& !entries.contains_key(list[p].hash)
    &&& forall|h: Digest| #[trigger]
        entries.contains_key(h) ==> entries[h].transaction.transaction.from
            != list[p].transaction.from
    &&& forall|k: int|
        0 <= k < list.len() && k != p ==> (#[trigger] list[k]).transaction.from
            != list[p].transaction.from && list[k].hash != list[p].hash
}

/// Up to its turn nothing of the sender's comes in, and no more than what was
/// submitted.
proof fn until_its_turn(
    pool: PoolState,
    config: MempoolConfig,
    params: ChainParams,
    ledger: Ledger,
    list: Seq<SignedTransaction>,
    p: int,
    n: int,
    now: u64,
)
    requires
        has_rows(pool.entries),
        is_alone(mempool::survivors(pool.entries, config, now), list, p),
        0 <= n <= p,
    ensures
        ({
            let first = mempool::survivors(pool.entries, config, now);
            let at = after_all(pool, config, params, ledger, list, n, now);
            let fresh = mempool::survivors(at.entries, config, now);
            &&& has_rows(at.entries)
            &&& has_rows(fresh)
            &&& !fresh.contains_key(list[p].hash)
            &&& forall|h: Digest| #[trigger]
                fresh.contains_key(h) ==> fresh[h].transaction.transaction.from
                    != list[p].transaction.from
            &&& ordered_map::rows_of(fresh).len() <= ordered_map::rows_of(first).len() + n
            &&& mempool::size_sum(ordered_map::rows_of(fresh)) <= mempool::size_sum(
                ordered_map::rows_of(first),
            ) + sizes(list.take(n))
        }),
    decreases n,
{
    if n == 0 {
        survivors_keep_rows(pool.entries, config, now);
        assert(list.take(0) =~= Seq::empty());
    } else {
        until_its_turn(pool, config, params, ledger, list, p, n - 1, now);
        let at = after_all(pool, config, params, ledger, list, n - 1, now);
        let next = after_all(pool, config, params, ledger, list, n, now);
        let t = list[n - 1];
        a_submission_adds_at_most_one(at, config, params, ledger, t, now);
        let fresh = mempool::survivors(next.entries, config, now);
        assert(fresh =~= next.entries) by {
            assert forall|h: Digest| #[trigger] next.entries.contains_key(
                h,
            ) implies !mempool::expired(config, next.entries[h], now) by {}
        }
        sizes_of_a_part(list, n - 1);
        assert(list[n - 1].transaction.from != list[p].transaction.from);
    }
}

/// After its turn it stays.
proof fn after_its_turn(
    pool: PoolState,
    config: MempoolConfig,
    params: ChainParams,
    ledger: Ledger,
    list: Seq<SignedTransaction>,
    p: int,
    n: int,
    now: u64,
)
    requires
        is_alone(mempool::survivors(pool.entries, config, now), list, p),
        p < n <= list.len(),
        ({
            let at = after_all(pool, config, params, ledger, list, p + 1, now).entries;
            &&& has_rows(at)
            &&& at.contains_key(list[p].hash)
            &&& at[list[p].hash] == (MempoolEntry { transaction: list[p], inserted_at: now })
        }),
    ensures
        ({
            let at = after_all(pool, config, params, ledger, list, n, now).entries;
            &&& has_rows(at)
            &&& at.contains_key(list[p].hash)
            &&& at[list[p].hash] == (MempoolEntry { transaction: list[p], inserted_at: now })
        }),
    decreases n,
{
    if n > p + 1 {
        after_its_turn(pool, config, params, ledger, list, p, n - 1, now);
        let at = after_all(pool, config, params, ledger, list, n - 1, now);
        a_submission_adds_at_most_one(at, config, params, ledger, list[n - 1], now);
        let fresh = mempool::survivors(at.entries, config, now);
        assert(fresh.contains_key(list[p].hash));
        assert(list[n - 1].transaction.from != list[p].transaction.from);
    }
}

proof fn its_turn(
    pool: PoolState,
    config: MempoolConfig,
    params: ChainParams,
    ledger: Ledger,
    list: Seq<SignedTransaction>,
    p: int,
    now: u64,
)
    requires
        has_rows(pool.entries),
        is_alone(mempool::survivors(pool.entries, config, now), list, p),
        is_payable(config, params, ledger, list[p], now),
        has_room(mempool::survivors(pool.entries, config, now), config, list),
    ensures
        ({
            let at = after_all(pool, config, params, ledger, list, p + 1, now).entries;
            &&& has_rows(at)
            &&& at.contains_key(list[p].hash)
            &&& at[list[p].hash] == (MempoolEntry { transaction: list[p], inserted_at: now })
        }),
{
    let t = list[p];
    let from = t.transaction.from;
    until_its_turn(pool, config, params, ledger, list, p, p, now);
    let at = after_all(pool, config, params, ledger, list, p, now);
    let first = mempool::survivors(pool.entries, config, now);
    let fresh = mempool::survivors(at.entries, config, now);
    let rows = ordered_map::rows_of(fresh);
    survivors_keep_rows(pool.entries, config, now);
    ordered_map::rows_count(rows);
    ordered_map::rows_count(ordered_map::rows_of(first));
    ordered_map::rows_are_entries(rows);
    sizes_of_a_part(list, p);
    sizes_of_a_part(list, p + 1);
    assert forall|i: int| 0 <= i < rows.len() implies (
    #[trigger] rows[i]).1.transaction.transaction.from != from by {
        assert(fresh.contains_key(rows[i].0));
    }
    nothing_goes_out(rows, from);
    assert forall|i: int| !#[trigger] mempool_laws::sent(rows, from, i) by {}
    a_submission_adds_at_most_one(at, config, params, ledger, t, now);
    mempool_laws::a_covered_transaction_is_taken(at, config, params, ledger, t, now);
    reveal(submit);
}

proof fn nothing_goes_out(rows: Seq<(Digest, MempoolEntry)>, from: Address)
    requires
        forall|i: int|
            0 <= i < rows.len() ==> (#[trigger] rows[i]).1.transaction.transaction.from != from,
    ensures
        mempool_laws::outgoing(rows, from) == 0,
    decreases rows.len(),
{
    if rows.len() > 0 {
        let short = rows.drop_last();
        assert forall|i: int| 0 <= i < short.len() implies (
        #[trigger] short[i]).1.transaction.transaction.from != from by {
            assert(short[i] == rows[i]);
        }
        assert(rows[rows.len() - 1] == rows.last());
        nothing_goes_out(short, from);
    }
}

/// The transaction may be relayed, and the sender's account expects its nonce
/// and covers its amount and fee.
pub open spec fn is_payable(
    config: MempoolConfig,
    params: ChainParams,
    ledger: Ledger,
    t: SignedTransaction,
    now: u64,
) -> bool {
    &&& t.signed is Ok
    &&& now <= t.transaction.timestamp + MAX_RELAY_TRANSACTION_AGE_SECS
    &&& t.transaction.timestamp <= now + params.block_time
    &&& t.transaction.fee.0 >= mempool_laws::lowest_fee(config)
    &&& ledger.account_spec(t.transaction.from) matches Some(account) && account.nonce
        == t.transaction.nonce && t.transaction.amount.0 + t.transaction.fee.0
        <= account.available.0
}

/// There is room for a whole list beside the entries.
pub open spec fn has_room(
    entries: Map<Digest, MempoolEntry>,
    config: MempoolConfig,
    list: Seq<SignedTransaction>,
) -> bool {
    &&& entries.dom().len() + list.len() <= config.max_transactions
    &&& mempool::size_sum(ordered_map::rows_of(entries)) + sizes(list) <= config.max_bytes
}

/// A transaction of a block that a reorganisation drops is pending afterwards,
/// if it may be relayed, the new ledger admits it, nothing else of its sender is
/// pending or dropped, and the pool has room for all that is dropped.
pub proof fn a_lost_transaction_is_pending_again(
    before: Node,
    after: Node,
    block: Block,
    rebuild: Rebuild,
    now: u64,
    p: int,
)
    requires
        before.mempool.wf(),
        reorganises(before, rebuild),
        import::stepped(before, after, block, Event::Rebuilt(rebuild), now),
        ({
            let blocks = before.ledger.blocks.rows();
            let list = lost(blocks, rebuild.new_branch@, blocks.len() as int);
            let config = before.mempool.limits();
            let fresh = mempool::survivors(before.mempool@.entries, config, now);
            &&& is_alone(fresh, list, p)
            &&& is_payable(config, before.mempool.chain(), rebuild.ledger->Ok_0, list[p], now)
            &&& has_room(fresh, config, list)
        }),
    ensures
        ({
            let blocks = before.ledger.blocks.rows();
            let t = lost(blocks, rebuild.new_branch@, blocks.len() as int)[p];
            &&& after.mempool@.entries.contains_key(t.hash)
            &&& after.mempool@.entries[t.hash] == (MempoolEntry {
                transaction: t,
                inserted_at: now,
            })
        }),
{
    let blocks = before.ledger.blocks.rows();
    let branch = rebuild.new_branch@;
    let n = blocks.len() as int;
    let list = lost(blocks, branch, n);
    let config = before.mempool.limits();
    let params = before.mempool.chain();
    let ledger = rebuild.ledger->Ok_0;
    let h = choose|h: Digest| #[trigger]
        rebuild.old_branch@.contains(h) && rebuild.new_branch@.contains(h);
    what_is_shared_is_found(rebuild.old_branch@, branch, h);
    before.mempool.keeps_its_limits();
    recovery_submits_the_lost(before.mempool@, config, params, ledger, blocks, branch, n, now);
    its_turn(before.mempool@, config, params, ledger, list, p, now);
    after_its_turn(
        before.mempool@,
        config,
        params,
        ledger,
        list,
        p,
        list.len() as int,
        now,
    );
}

} // verus!
