//! What holds of the answers to questions about transactions.

use crate::answers::{self, Reply};
use crate::mempool;
use crate::node::Node;
use crate::node_laws;
use crate::ordered_map;
use crate::rpc::{self, TxResponse, TxShown};
use crate::storage;
use crate::tables::Rows;
use crate::text;
use crate::types::{Account, Address, Block, Digest, Height, SignedTransaction};
use vstd::prelude::*;

verus! {

/// The row for a transaction of a block.
pub open spec fn row_in_block(t: SignedTransaction, block: Block) -> TxShown {
    TxShown {
        hash: text::hex_text(t.hash.0@),
        from: text::hex_text(t.transaction.from.0@),
        to: text::hex_text(t.transaction.to.0@),
        amount: t.transaction.amount.0,
        fee: t.transaction.fee.0,
        nonce: t.transaction.nonce.0,
        block_height: Some(block.data.height.0),
        block_hash: Some(text::hex_text(block.data.hash.0@)),
        status: "confirmed"@,
    }
}

/// The row for a pending transaction.
pub open spec fn row_pending(t: SignedTransaction) -> TxShown {
    TxShown {
        hash: text::hex_text(t.hash.0@),
        from: text::hex_text(t.transaction.from.0@),
        to: text::hex_text(t.transaction.to.0@),
        amount: t.transaction.amount.0,
        fee: t.transaction.fee.0,
        nonce: t.transaction.nonce.0,
        block_height: None,
        block_hash: None,
        status: "pending"@,
    }
}

/// The row stands for a transaction of the block that the address sent or
/// receives.
pub open spec fn from_block(row: TxShown, block: Block, a: Address, i: int) -> bool {
    &&& 0 <= i < block.data.transactions@.len()
    &&& block.data.transactions@[i].transaction.from == a
        || block.data.transactions@[i].transaction.to == a
    &&& row == row_in_block(block.data.transactions@[i], block)
}

/// The row stands for one of the first transactions of the block that the
/// address sent or receives.
pub open spec fn within_block(row: TxShown, block: Block, a: Address, n: int) -> bool {
    exists|i: int| i < n && #[trigger] from_block(row, block, a, i)
}

/// The row stands for a transaction of the list that the address sent or
/// receives.
pub open spec fn within_list(row: TxShown, list: Seq<SignedTransaction>, a: Address) -> bool {
    exists|i: int|
        0 <= i < list.len() && ((#[trigger] list[i]).transaction.from == a
            || list[i].transaction.to == a) && row == row_pending(list[i])
}

/// The row stands for a transaction at a height of the chain that the address
/// sent or receives.
pub open spec fn from_chain(row: TxShown, rows: Rows, a: Address, height: u64) -> bool {
    storage::block_at(rows, Height(height)) matches Ok(Some(block)) && exists|i: int|
        from_block(row, block, a, i)
}

/// The row stands for a transaction of the chain below a height that the
/// address sent or receives.
pub open spec fn within_chain(row: TxShown, rows: Rows, a: Address, below: int) -> bool {
    exists|h: u64| h < below && #[trigger] from_chain(row, rows, a, h)
}

/// The row stands for a pending transaction that the address sent or receives.
pub open spec fn from_pool(row: TxShown, node: Node, a: Address, h: Digest) -> bool {
    &&& node.mempool@.entries.contains_key(h)
    &&& node.mempool@.entries[h].transaction.transaction.from == a
        || node.mempool@.entries[h].transaction.transaction.to == a
    &&& row == row_pending(node.mempool@.entries[h].transaction)
}

/// The row stands for some pending transaction that the address sent or
/// receives.
pub open spec fn within_pool(row: TxShown, node: Node, a: Address) -> bool {
    exists|h: Digest| #[trigger] from_pool(row, node, a, h)
}

/// Along a list of rows the heights do not fall.
pub open spec fn rising(list: Seq<TxShown>) -> bool {
    forall|i: int, j: int|
        0 <= i < j < list.len() && (#[trigger] list[j]).block_height is Some ==> (
        #[trigger] list[i]).block_height is Some && list[i].block_height->Some_0
            <= list[j].block_height->Some_0
}

proof fn block_rows(block: Block, n: int, a: Address)
    requires
        0 <= n <= block.data.transactions@.len(),
    ensures
        ({
            let list = rpc::block_touching(block, block.data.transactions@.take(n), a);
            &&& forall|i: int|
                0 <= i < n && ((#[trigger] block.data.transactions@[i]).transaction.from == a
                    || block.data.transactions@[i].transaction.to == a) ==> list.contains(
                    row_in_block(block.data.transactions@[i], block),
                )
            &&& forall|k: int|
                0 <= k < list.len() ==> within_block(#[trigger] list[k], block, a, n)
            &&& list.len() <= n
        }),
    decreases n,
{
    let all = block.data.transactions@;
    let list = rpc::block_touching(block, all.take(n), a);
    if n > 0 {
        block_rows(block, n - 1, a);
        assert(all.take(n).drop_last() =~= all.take(n - 1));
        let before = rpc::block_touching(block, all.take(n - 1), a);
        let t = all[n - 1];
        assert(all.take(n).last() == t);
        assert forall|i: int|
            0 <= i < n && ((#[trigger] all[i]).transaction.from == a || all[i].transaction.to
                == a) implies list.contains(row_in_block(all[i], block)) by {
            let row = row_in_block(all[i], block);
            if i < n - 1 {
                assert(before.contains(row));
                let k = choose|k: int| 0 <= k < before.len() && before[k] == row;
                assert(list[k] == row);
            } else {
                assert(list[before.len() as int] == row);
            }
        }
        assert forall|k: int| 0 <= k < list.len() implies within_block(
            #[trigger] list[k],
            block,
            a,
            n,
        ) by {
            if k < before.len() {
                assert(list[k] == before[k]);
                let i = choose|i: int|
                    i < n - 1 && #[trigger] from_block(before[k], block, a, i);
                assert(from_block(list[k], block, a, i));
            } else {
                assert(from_block(list[k], block, a, n - 1));
            }
        }
    }
}

proof fn pending_rows(list: Seq<SignedTransaction>, a: Address)
    ensures
        ({
            let out = rpc::pending_touching(list, a);
            &&& forall|i: int|
                0 <= i < list.len() && ((#[trigger] list[i]).transaction.from == a
                    || list[i].transaction.to == a) ==> out.contains(row_pending(list[i]))
            &&& forall|k: int|
                0 <= k < out.len() ==> within_list(#[trigger] out[k], list, a)
        }),
    decreases list.len(),
{
    let out = rpc::pending_touching(list, a);
    if list.len() > 0 {
        let short = list.drop_last();
        pending_rows(short, a);
        let before = rpc::pending_touching(short, a);
        assert forall|i: int|
            0 <= i < list.len() && ((#[trigger] list[i]).transaction.from == a
                || list[i].transaction.to == a) implies out.contains(row_pending(list[i])) by {
            let row = row_pending(list[i]);
            if i < short.len() {
                assert(short[i] == list[i]);
                assert(before.contains(row));
                let k = choose|k: int| 0 <= k < before.len() && before[k] == row;
                assert(out[k] == row);
            } else {
                assert(out[before.len() as int] == row);
            }
        }
        assert forall|k: int| 0 <= k < out.len() implies within_list(
            #[trigger] out[k],
            list,
            a,
        ) by {
            assert(list[list.len() - 1] == list.last());
            if k < before.len() {
                assert(out[k] == before[k]);
                let i = choose|i: int|
                    0 <= i < short.len() && ((#[trigger] short[i]).transaction.from == a
                        || short[i].transaction.to == a) && before[k] == row_pending(short[i]);
                assert(list[i] == short[i]);
            }
        }
    }
}

/// The heights below `below` can be read.
pub open spec fn readable(rows: Rows, below: int) -> bool {
    forall|h: u64| h < below ==> #[trigger] storage::block_at(rows, Height(h)) is Ok
}

proof fn chain_rows(rows: Rows, a: Address, below: int)
    requires
        0 <= below <= u64::MAX + 1,
    ensures
        rpc::chain_touching(rows, a, below) is Ok <==> readable(rows, below),
        rpc::chain_touching(rows, a, below) matches Ok(list) ==> {
            &&& forall|h: u64, row: TxShown|
                h < below && #[trigger] from_chain(row, rows, a, h) ==> list.contains(row)
            &&& forall|k: int|
                0 <= k < list.len() ==> within_chain(#[trigger] list[k], rows, a, below)
            &&& rising(list)
            &&& forall|k: int|
                0 <= k < list.len() ==> ((#[trigger] list[k]).block_height matches Some(h) && h
                    < below)
        },
    decreases below,
{
    if below > 0 {
        chain_rows(rows, a, below - 1);
        let h = (below - 1) as u64;
        assert(readable(rows, below) <==> readable(rows, below - 1) && storage::block_at(
            rows,
            Height(h),
        ) is Ok) by {
            if readable(rows, below - 1) && storage::block_at(rows, Height(h)) is Ok {
                assert forall|g: u64| g < below implies #[trigger] storage::block_at(
                    rows,
                    Height(g),
                ) is Ok by {
                    if g != h {
                        assert(g < below - 1);
                    }
                }
            }
        }
        match rpc::chain_touching(rows, a, below) {
            Err(_) => {},
            Ok(list) => {
                let before = rpc::chain_touching(rows, a, below - 1)->Ok_0;
                match storage::block_at(rows, Height(h)) {
                    Ok(Some(block)) => {
                        let all = block.data.transactions@;
                        block_rows(block, all.len() as int, a);
                        assert(all.take(all.len() as int) =~= all);
                        let more = rpc::block_touching(block, all, a);
                        assert forall|g: u64, row: TxShown|
                            g < below && #[trigger] from_chain(
                                row,
                                rows,
                                a,
                                g,
                            ) implies list.contains(row) by {
                            if g < below - 1 {
                                assert(before.contains(row));
                                let k = choose|k: int| 0 <= k < before.len() && before[k] == row;
                                assert(list[k] == row);
                            } else {
                                let i = choose|i: int| from_block(row, block, a, i);
                                assert(more.contains(row_in_block(all[i], block)));
                                let k = choose|k: int| 0 <= k < more.len() && more[k] == row;
                                assert(list[before.len() + k] == row);
                            }
                        }
                        assert forall|k: int| 0 <= k < list.len() implies within_chain(
                            #[trigger] list[k],
                            rows,
                            a,
                            below,
                        ) && (list[k].block_height matches Some(g) && g < below) && (k >= before.len()
                            ==> list[k].block_height == Some(h)) by {
                            if k < before.len() {
                                assert(list[k] == before[k]);
                                let g = choose|g: u64|
                                    g < below - 1 && from_chain(before[k], rows, a, g);
                                assert(from_chain(list[k], rows, a, g));
                            } else {
                                let m = k - before.len();
                                assert(list[k] == more[m]);
                                let i = choose|i: int|
                                    i < all.len() && #[trigger] from_block(more[m], block, a, i);
                                assert(from_block(list[k], block, a, i));
                                assert(from_chain(list[k], rows, a, h));
                                assert(block.data.height == Height(h));
                            }
                        }
                        assert forall|i: int, j: int|
                            0 <= i < j < list.len() && (
                            #[trigger] list[j]).block_height is Some implies (
                        #[trigger] list[i]).block_height is Some
                            && list[i].block_height->Some_0 <= list[j].block_height->Some_0 by {
                            if j < before.len() {
                                assert(list[i] == before[i] && list[j] == before[j]);
                            }
                        }
                    },
                    _ => {
                        assert(list == before);
                        assert forall|g: u64, row: TxShown|
                            g < below && #[trigger] from_chain(
                                row,
                                rows,
                                a,
                                g,
                            ) implies list.contains(row) by {
                            assert(g < below - 1);
                        }
                        assert forall|k: int| 0 <= k < list.len() implies within_chain(
                            #[trigger] list[k],
                            rows,
                            a,
                            below,
                        ) by {
                            let g = choose|g: u64|
                                g < below - 1 && from_chain(before[k], rows, a, g);
                            assert(from_chain(list[k], rows, a, g));
                        }
                    },
                }
            },
        }
    }
}

/// The transactions of an address are all that it has sent or receives, and
/// nothing else: those of every block of the chain, with the block's height and
/// hash, and the pending ones. They come the latest first: the pending ones
/// before any of the chain, and those of the chain from the tip down. They can be
/// shown exactly if every height up to the tip can be read.
pub proof fn an_address_is_shown_all_its_transactions(node: Node, a: Address)
    requires
        node.wf(),
    ensures
        rpc::touching(node, a) is Ok <==> readable(node.storage@, node.height_spec() + 1),
        rpc::touching(node, a) matches Ok(list) ==> {
            &&& forall|h: u64, row: TxShown|
                h <= node.height_spec() && #[trigger] from_chain(row, node.storage@, a, h)
                    ==> list.contains(row)
            &&& forall|h: Digest, row: TxShown| #[trigger]
                from_pool(row, node, a, h) ==> list.contains(row)
            &&& forall|k: int|
                0 <= k < list.len() ==> within_chain(
                    #[trigger] list[k],
                    node.storage@,
                    a,
                    node.height_spec() + 1,
                ) || within_pool(list[k], node, a)
            &&& rising(list.reverse())
        },
{
    let entries = node.mempool@.entries;
    let all = mempool::pending_transactions(entries);
    let rows = node.mempool.rows();
    node.mempool.keeps_its_limits();
    ordered_map::rows_are_entries(rows);
    chain_rows(node.storage@, a, node.height_spec() + 1);
    pending_rows(all, a);
    match rpc::touching(node, a) {
        Err(_) => {},
        Ok(list) => {
            let chain = rpc::chain_touching(node.storage@, a, node.height_spec() + 1)->Ok_0;
            let more = rpc::pending_touching(all, a);
            let forward = chain + more;
            let n = forward.len() as int;
            assert(list =~= forward.reverse());
            assert(list.reverse() =~= forward);
            assert forall|h: u64, row: TxShown|
                h <= node.height_spec() && #[trigger] from_chain(
                    row,
                    node.storage@,
                    a,
                    h,
                ) implies list.contains(row) by {
                assert(chain.contains(row));
                let k = choose|k: int| 0 <= k < chain.len() && chain[k] == row;
                assert(list[n - 1 - k] == row);
            }
            assert forall|h: Digest, row: TxShown| #[trigger] from_pool(
                row,
                node,
                a,
                h,
            ) implies list.contains(row) by {
                assert(ordered_map::has_key(rows, h));
                let i = choose|i: int| ordered_map::key_at(rows, h, i);
                assert(rows[i].0 == h);
                assert(all[i] == entries[h].transaction);
                assert(more.contains(row));
                let k = choose|k: int| 0 <= k < more.len() && more[k] == row;
                assert(list[n - 1 - (chain.len() + k)] == row);
            }
            assert forall|k: int| 0 <= k < list.len() implies within_chain(
                #[trigger] list[k],
                node.storage@,
                a,
                node.height_spec() + 1,
            ) || within_pool(list[k], node, a) by {
                let at = n - 1 - k;
                assert(list[k] == forward[at]);
                if at < chain.len() {
                    assert(forward[at] == chain[at]);
                    let h = choose|h: u64|
                        h < node.height_spec() + 1 && from_chain(chain[at], node.storage@, a, h);
                    assert(from_chain(list[k], node.storage@, a, h));
                } else {
                    let m = at - chain.len();
                    assert(forward[at] == more[m]);
                    let i = choose|i: int|
                        0 <= i < all.len() && ((#[trigger] all[i]).transaction.from == a
                            || all[i].transaction.to == a) && more[m] == row_pending(all[i]);
                    assert(entries.contains_key(rows[i].0));
                    assert(from_pool(list[k], node, a, rows[i].0));
                }
            }
            assert forall|i: int, j: int|
                0 <= i < j < forward.len() && (
                #[trigger] forward[j]).block_height is Some implies (
            #[trigger] forward[i]).block_height is Some && forward[i].block_height->Some_0
                <= forward[j].block_height->Some_0 by {
                if j < chain.len() {
                    assert(forward[i] == chain[i] && forward[j] == chain[j]);
                } else {
                    assert(forward[j] == more[j - chain.len()]);
                }
            }
        },
    }
}

/// Some transaction of the list has the hash.
pub open spec fn some_has(list: Seq<SignedTransaction>, hash: Digest) -> bool {
    exists|i: int| 0 <= i < list.len() && (#[trigger] list[i]).hash == hash
}

proof fn the_first_has_the_hash(list: Seq<SignedTransaction>, hash: Digest)
    ensures
        match rpc::first_with(list, hash) {
            Some(t) => t.hash == hash && list.contains(t),
            None => !some_has(list, hash),
        },
    decreases list.len(),
{
    if list.len() > 0 {
        if list[0].hash != hash {
            let rest = list.skip(1);
            the_first_has_the_hash(rest, hash);
            match rpc::first_with(list, hash) {
                Some(t) => {
                    let k = choose|k: int| 0 <= k < rest.len() && rest[k] == t;
                    assert(list[k + 1] == t);
                },
                None => {
                    if some_has(list, hash) {
                        let i = choose|i: int|
                            0 <= i < list.len() && (#[trigger] list[i]).hash == hash;
                        assert(rest[i - 1] == list[i]);
                    }
                },
            }
        }
    }
}

/// A block at the height has a transaction with the hash.
pub open spec fn holds_at(rows: Rows, hash: Digest, height: u64) -> bool {
    storage::block_at(rows, Height(height)) matches Ok(Some(block)) && some_has(
        block.data.transactions@,
        hash,
    )
}

/// The row stands for the transaction with the hash in the block at the height,
/// and no lower block has one.
pub open spec fn is_lowest(
    row: TxShown,
    rows: Rows,
    hash: Digest,
    from: int,
    tip: int,
    height: u64,
) -> bool {
    &&& from <= height <= tip
    &&& storage::block_at(rows, Height(height)) matches Ok(Some(block)) && exists|i: int|
        0 <= i < block.data.transactions@.len() && (
        #[trigger] block.data.transactions@[i]).hash == hash && row == row_in_block(
            block.data.transactions@[i],
            block,
        )
    &&& forall|h: u64| from <= h < height ==> !#[trigger] holds_at(rows, hash, h)
}

proof fn found_at_the_lowest(rows: Rows, hash: Digest, height: int, tip: u64)
    requires
        0 <= height <= tip + 1,
        forall|h: u64|
            height <= h <= tip ==> #[trigger] storage::block_at(rows, Height(h)) is Ok,
    ensures
        match rpc::found_from(rows, hash, height, tip as int) {
            Ok(Some(row)) => exists|h: u64| #[trigger]
                is_lowest(row, rows, hash, height, tip as int, h),
            Ok(None) => forall|h: u64| height <= h <= tip ==> !#[trigger] holds_at(rows, hash, h),
            Err(_) => false,
        },
    decreases tip + 1 - height,
{
    if height <= tip {
        let here = height as u64;
        assert(storage::block_at(rows, Height(here)) is Ok);
        found_at_the_lowest(rows, hash, height + 1, tip);
        match storage::block_at(rows, Height(here)) {
            Ok(Some(block)) => {
                the_first_has_the_hash(block.data.transactions@, hash);
            },
            _ => {},
        }
        match rpc::found_from(rows, hash, height, tip as int) {
            Ok(Some(row)) => {
                match storage::block_at(rows, Height(here)) {
                    Ok(Some(block)) => match rpc::first_with(block.data.transactions@, hash) {
                        Some(t) => {
                            let i = choose|i: int|
                                0 <= i < block.data.transactions@.len()
                                    && block.data.transactions@[i] == t;
                            assert(block.data.transactions@[i].hash == hash);
                            assert(is_lowest(row, rows, hash, height, tip as int, here));
                        },
                        None => {
                            lowest_from_below(row, rows, hash, height, tip);
                        },
                    },
                    _ => {
                        lowest_from_below(row, rows, hash, height, tip);
                    },
                }
            },
            _ => {
                assert forall|h: u64| height <= h <= tip implies !#[trigger] holds_at(
                    rows,
                    hash,
                    h,
                ) by {
                    if h != here {
                        assert(height + 1 <= h);
                    }
                }
            },
        }
    }
}

proof fn lowest_from_below(row: TxShown, rows: Rows, hash: Digest, height: int, tip: u64)
    requires
        0 <= height <= tip,
        !holds_at(rows, hash, height as u64),
        exists|h: u64| #[trigger] is_lowest(row, rows, hash, height + 1, tip as int, h),
    ensures
        exists|h: u64| #[trigger] is_lowest(row, rows, hash, height, tip as int, h),
{
    let h = choose|h: u64| #[trigger] is_lowest(row, rows, hash, height + 1, tip as int, h);
    assert forall|g: u64| height <= g < h implies !#[trigger] holds_at(rows, hash, g) by {
        if g != height {
            assert(height + 1 <= g);
        }
    }
    assert(is_lowest(row, rows, hash, height, tip as int, h));
}

/// A transaction is found by its hash wherever it is: a pending one is shown as
/// pending, and one of the chain with the height and hash of the lowest block
/// that has it. Nothing is found exactly if it is neither pending nor in a block
/// up to the tip, as long as those can be read.
pub proof fn a_transaction_is_found_where_it_is(node: Node, hash: Digest)
    requires
        node.wf(),
        readable(node.storage@, node.height_spec() + 1),
    ensures
        node.mempool@.entries.contains_key(hash) ==> rpc::found(node, hash) == Ok::<
            Option<TxShown>,
            Seq<char>,
        >(Some(row_pending(node.mempool@.entries[hash].transaction))),
        !node.mempool@.entries.contains_key(hash) ==> match rpc::found(node, hash) {
            Ok(Some(row)) => exists|h: u64| #[trigger]
                is_lowest(row, node.storage@, hash, 0, node.height_spec() as int, h),
            Ok(None) => forall|h: u64|
                h <= node.height_spec() ==> !#[trigger] holds_at(node.storage@, hash, h),
            Err(_) => false,
        },
{
    let entries = node.mempool@.entries;
    let list = mempool::pending_transactions(entries);
    let rows = node.mempool.rows();
    node.mempool.keeps_its_limits();
    ordered_map::rows_are_entries(rows);
    the_first_has_the_hash(list, hash);
    if entries.contains_key(hash) {
        assert(ordered_map::has_key(rows, hash));
        let i = choose|i: int| ordered_map::key_at(rows, hash, i);
        assert(rows[i].0 == hash);
        assert(list[i].hash == hash);
        let t = rpc::first_with(list, hash)->Some_0;
        let k = choose|k: int| 0 <= k < list.len() && list[k] == t;
        assert(entries.contains_key(rows[k].0));
        assert(entries[rows[k].0].transaction.hash == rows[k].0);
        assert(rows[k].0 == hash);
    } else {
        match rpc::first_with(list, hash) {
            Some(t) => {
                let k = choose|k: int| 0 <= k < list.len() && list[k] == t;
                assert(entries.contains_key(rows[k].0));
                assert(entries[rows[k].0].transaction.hash == rows[k].0);
            },
            None => {},
        }
        found_at_the_lowest(node.storage@, hash, 0, node.height_spec());
    }
}

/// A block is shown as what it is: with as many confirmations as there are
/// blocks from it up to the tip, its age up to now, the time since the block
/// below it, all that it moves, and each of its transactions with its height and
/// hash.
pub proof fn a_block_is_shown_in_its_place(
    node: Node,
    block: Block,
    status: Option<Seq<char>>,
    now: Option<u64>,
)
    requires
        rpc::showable(node, block),
    ensures
        ({
            let shown = rpc::block_shown(node, block, status, now);
            let d = *block.data;
            &&& shown.height == d.height.0
            &&& shown.hash == text::hex_text(d.hash.0@)
            &&& shown.previous_hash == text::hex_text(d.previous_hash.0@)
            &&& shown.merkle_root == text::hex_text(d.merkle_root.0@)
            &&& shown.state_root == text::hex_text(d.state_root.0@)
            &&& shown.miner_address == text::hex_text(d.miner_address.0@)
            &&& shown.difficulty == d.difficulty
            &&& shown.timestamp == d.timestamp
            &&& shown.nonce == d.nonce.0
            &&& shown.size == d.size
            &&& shown.tx_count == d.transactions@.len()
            &&& shown.target_block_time_secs == node.params.block_time
            &&& d.height.0 <= node.height_spec() < u64::MAX ==> shown.confirmations + d.height.0
                == node.height_spec() + 1
            &&& d.height.0 > node.height_spec() ==> shown.confirmations == 1
            &&& now is None ==> shown.age_secs == 0
            &&& now matches Some(time) ==> (time >= d.timestamp ==> shown.age_secs + d.timestamp
                == time) && (time < d.timestamp ==> shown.age_secs == 0)
            &&& d.height.0 == 0 ==> shown.block_time_secs is None
                && shown.block_time_delta_secs is None
            &&& d.height.0 > 0 ==> match storage::block_at(
                node.storage@,
                Height((d.height.0 - 1) as u64),
            ) {
                Ok(Some(below)) => {
                    &&& shown.block_time_secs is Some
                    &&& shown.block_time_delta_secs is Some
                    &&& d.timestamp >= below.data.timestamp ==> shown.block_time_secs->Some_0
                        + below.data.timestamp == d.timestamp
                    &&& d.timestamp < below.data.timestamp ==> shown.block_time_secs->Some_0 == 0
                    &&& shown.block_time_secs->Some_0 <= i64::MAX && node.params.block_time
                        <= i64::MAX ==> shown.block_time_delta_secs->Some_0
                        == shown.block_time_secs->Some_0 - node.params.block_time
                },
                _ => shown.block_time_secs is None && shown.block_time_delta_secs is None,
            }
            &&& shown.value_moved == moved(d.transactions@)
            &&& shown.transactions.len() == d.transactions@.len()
            &&& status is None ==> forall|i: int|
                0 <= i < d.transactions@.len() ==> #[trigger] shown.transactions[i]
                    == row_in_block(d.transactions@[i], block)
            &&& d.coinbase is None ==> shown.coinbase is None
            &&& d.coinbase matches Some(c) ==> shown.coinbase == Some(
                (text::hex_text(c.to.0@), c.subsidy.0, c.fees.0, c.total.0),
            )
            &&& shown.genesis_allocations.len() == d.genesis_allocations@.len()
            &&& forall|i: int|
                0 <= i < d.genesis_allocations@.len() ==> #[trigger] shown.genesis_allocations[i]
                    == (
                    text::hex_text(d.genesis_allocations@[i].to.0@),
                    d.genesis_allocations@[i].amount.0,
                )
        }),
{
    moved_is_the_sum(block.data.transactions@);
    assert(block.data.transactions@.len() == block.data.transactions.len());
}

/// The plain sum of the amounts of a list.
pub open spec fn moved(list: Seq<SignedTransaction>) -> int
    decreases list.len(),
{
    if list.len() == 0 {
        0
    } else {
        moved(list.drop_last()) + list.last().transaction.amount.0
    }
}

proof fn moved_is_the_sum(list: Seq<SignedTransaction>)
    ensures
        moved(list) == crate::miner::amount_sum(list),
        moved(list) >= 0,
    decreases list.len(),
{
    if list.len() > 0 {
        moved_is_the_sum(list.drop_last());
    }
}

/// The balance of an address is told in its fields: what the account has, what of
/// it is available, what pends to the address and from it, its nonce and what
/// cannot be spent; and of an address without an account that there is none.
pub proof fn a_balance_is_told_in_its_fields(node: Node, a: Address)
    ensures
        ({
            let account = node.ledger.accounts@[a];
            let begun = node.ledger.blocks.rows().len() > 0;
            let list = mempool::pending_transactions(node.mempool@.entries);
            let head = "{\"address\":\""@ + text::hex_text(a.0@) + "\",\"height\":"@
                + text::decimal(node.height_spec() as nat);
            &&& !begun || !node.ledger.accounts@.contains_key(a) ==> rpc::balance_words(node, a)
                == head
                + ",\"exists\":false,\"confirmed\":0,\"available\":0,\"pending_incoming\":0,\"pending_outgoing\":0,\"nonce\":null,\"unspendable\":0}"@
            &&& begun && node.ledger.accounts@.contains_key(a) ==> rpc::balance_words(node, a)
                == head + ",\"exists\":true,\"confirmed\":"@ + text::decimal(
                account.balance.0 as nat,
            ) + ",\"available\":"@ + text::decimal(account.available.0 as nat)
                + ",\"pending_incoming\":"@ + text::decimal(
                node_laws::at_most_all(node_laws::coming(list, a)) as nat,
            ) + ",\"pending_outgoing\":"@ + text::decimal(
                node_laws::at_most_all(node_laws::going(list, a)) as nat,
            ) + ",\"nonce\":"@ + text::decimal(account.nonce.0 as nat) + ",\"unspendable\":"@
                + text::decimal(account.unspendable.0 as nat) + "}"@
        }),
{
    node_laws::pending_balances_are_plain_sums(
        mempool::pending_transactions(node.mempool@.entries),
        a,
    );
}

/// An account is shown with its own address and amounts, and what pends for it.
pub proof fn an_account_is_shown_as_it_is(account: Account, list: Seq<SignedTransaction>)
    ensures
        ({
            let shown = answers::account_shown(
                account,
                crate::node::pending_sum(list, account.address),
            );
            &&& shown.address == text::hex_text(account.address.0@)
            &&& shown.confirmed == account.balance.0
            &&& shown.available == account.available.0
            &&& shown.unspendable == account.unspendable.0
            &&& shown.nonce == account.nonce.0
            &&& shown.credits == account.credits
            &&& shown.pending_incoming == node_laws::at_most_all(
                node_laws::coming(list, account.address),
            )
            &&& shown.pending_outgoing == node_laws::at_most_all(
                node_laws::going(list, account.address),
            )
        }),
{
    node_laws::pending_balances_are_plain_sums(list, account.address);
}

/// A question for a block is answered with the block that is stored there, or
/// that there is none, or that it could not be read.
pub proof fn a_block_is_given_if_there_is_one(
    outcome: Result<Option<Block>, storage::StorageError>,
    r: Reply<Block>,
)
    requires
        answers::block_found(outcome, r),
    ensures
        r is Given <==> outcome is Ok && outcome->Ok_0 is Some,
        r matches Reply::Given(block) ==> outcome->Ok_0 == Some(block),
        r is NotFound <==> outcome is Ok && outcome->Ok_0 is None,
        r is Failed <==> outcome is Err,
        !(r is BadRequest),
{
}

/// A question for a transaction is answered in the same way.
pub proof fn a_transaction_is_given_if_there_is_one(
    outcome: Result<Option<TxShown>, Seq<char>>,
    r: Reply<TxResponse>,
)
    requires
        answers::tx_found(outcome, r),
    ensures
        r is Given <==> outcome is Ok && outcome->Ok_0 is Some,
        r matches Reply::Given(t) ==> outcome->Ok_0 == Some(t@),
        r is NotFound <==> outcome is Ok && outcome->Ok_0 is None,
        r matches Reply::Failed(words) ==> outcome is Err && outcome->Err_0 == words@,
        !(r is BadRequest),
{
}

} // verus!
