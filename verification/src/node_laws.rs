//! What holds of what a node says of itself.

use crate::handler::{self, Answer};
use crate::ledger::Ledger;
use crate::mempool;
use crate::mempool_laws;
use crate::message::{Said, TipInfo};
use crate::miner;
use crate::node::{self, NextDifficulty, Node, NodeError};
use crate::order::OrderedKey;
use crate::ordered_map;
use crate::storage;
use crate::types::{Address, Block, Digest, ForkChoiceError, Height, SignedTransaction};
use vstd::prelude::*;

verus! {

/// The smaller of a sum and the largest amount there is.
pub open spec fn at_most_all(sum: int) -> int {
    if sum > u32::MAX {
        u32::MAX as int
    } else {
        sum
    }
}

/// The plain sum of what the transactions bring to an address: the amounts.
pub open spec fn coming(list: Seq<SignedTransaction>, a: Address) -> int
    decreases list.len(),
{
    if list.len() == 0 {
        0
    } else {
        coming(list.drop_last(), a) + if list.last().transaction.to == a {
            list.last().transaction.amount.0 as int
        } else {
            0
        }
    }
}

/// The plain sum of what the transactions take from an address: the amounts and
/// the fees.
pub open spec fn going(list: Seq<SignedTransaction>, a: Address) -> int
    decreases list.len(),
{
    if list.len() == 0 {
        0
    } else {
        going(list.drop_last(), a) + if list.last().transaction.from == a {
            list.last().transaction.amount.0 + list.last().transaction.fee.0
        } else {
            0
        }
    }
}

/// What is pending for an address is the plain sum of the amounts that come to
/// it, and of the amounts and fees that go from it, as far as an amount reaches.
pub proof fn pending_balances_are_plain_sums(list: Seq<SignedTransaction>, a: Address)
    ensures
        node::pending_sum(list, a).incoming.0 == at_most_all(coming(list, a)),
        node::pending_sum(list, a).outgoing.0 == at_most_all(going(list, a)),
        coming(list, a) >= 0,
        going(list, a) >= 0,
    decreases list.len(),
{
    if list.len() > 0 {
        pending_balances_are_plain_sums(list.drop_last(), a);
    }
}

/// The order in which transactions pend does not matter to a balance.
pub proof fn pending_balances_have_no_order(
    list: Seq<SignedTransaction>,
    i: int,
    j: int,
    a: Address,
)
    requires
        0 <= i < list.len(),
        0 <= j < list.len(),
    ensures
        node::pending_sum(list.update(i, list[j]).update(j, list[i]), a) == node::pending_sum(
            list,
            a,
        ),
{
    let once = list.update(i, list[j]);
    let twice = once.update(j, list[i]);
    pending_balances_are_plain_sums(list, a);
    pending_balances_are_plain_sums(twice, a);
    one_in_place_of_another(list, i, list[j], a);
    one_in_place_of_another(once, j, list[i], a);
}

proof fn one_in_place_of_another(
    list: Seq<SignedTransaction>,
    i: int,
    t: SignedTransaction,
    a: Address,
)
    requires
        0 <= i < list.len(),
    ensures
        coming(list.update(i, t), a) - coming(seq![t], a) == coming(list, a) - coming(
            seq![list[i]],
            a,
        ),
        going(list.update(i, t), a) - going(seq![t], a) == going(list, a) - going(
            seq![list[i]],
            a,
        ),
    decreases list.len(),
{
    let out = list.update(i, t);
    reveal_with_fuel(coming, 3);
    reveal_with_fuel(going, 3);
    assert(seq![t].drop_last() =~= Seq::<SignedTransaction>::empty());
    assert(seq![list[i]].drop_last() =~= Seq::<SignedTransaction>::empty());
    if i == list.len() - 1 {
        assert(out.drop_last() =~= list.drop_last());
    } else {
        assert(out.drop_last() =~= list.drop_last().update(i, t));
        assert(out.last() == list.last());
        one_in_place_of_another(list.drop_last(), i, t, a);
    }
}

/// What goes from an address is the sum over the pool's entries.
proof fn going_is_outgoing(
    rows: Seq<(Digest, mempool::MempoolEntry)>,
    list: Seq<SignedTransaction>,
    a: Address,
)
    requires
        list == Seq::new(rows.len(), |i: int| rows[i].1.transaction),
    ensures
        going(list, a) == mempool_laws::outgoing(rows, a),
    decreases rows.len(),
{
    if rows.len() > 0 {
        assert(list.drop_last() =~= Seq::new(
            rows.drop_last().len(),
            |i: int| rows.drop_last()[i].1.transaction,
        ));
        going_is_outgoing(rows.drop_last(), list.drop_last(), a);
    }
}

/// A balance is told of an address exactly if the chain has begun and the ledger
/// has its account: the account's balance, what of it is available, and what
/// pends to and from the address in the pool, as far as an amount reaches. The
/// account that is told has the available balance, what cannot be spent, and the
/// nonce of the same account.
pub proof fn a_balance_is_the_account_and_what_pends(node: Node, a: Address)
    ensures
        node.summary_spec(a) is Some <==> node.ledger.blocks.rows().len() > 0
            && node.ledger.accounts@.contains_key(a),
        node.account_view_spec(a) is Some <==> node.summary_spec(a) is Some,
        node.summary_spec(a) matches Some(told) ==> {
            let account = node.ledger.accounts@[a];
            &&& told.confirmed == account.balance
            &&& told.available == account.available
            &&& told.pending.incoming.0 == at_most_all(
                coming(mempool::pending_transactions(node.mempool@.entries), a),
            )
            &&& told.pending.outgoing.0 == at_most_all(
                mempool_laws::outgoing(ordered_map::rows_of(node.mempool@.entries), a),
            )
        },
        node.account_view_spec(a) matches Some(told) ==> {
            let account = node.ledger.accounts@[a];
            &&& told.balance == account.available
            &&& told.unspendable == account.unspendable
            &&& told.nonce == account.nonce
        },
{
    let list = mempool::pending_transactions(node.mempool@.entries);
    pending_balances_are_plain_sums(list, a);
    going_is_outgoing(ordered_map::rows_of(node.mempool@.entries), list, a);
}

/// The blocks stand under their own heights.
pub open spec fn under_own_heights(ledger: Ledger) -> bool {
    forall|h: Height| #[trigger]
        ledger.blocks@.contains_key(h) ==> ledger.blocks@[h].data.height == h
}

/// The tip is the block at the greatest height, and a new block would stand one
/// above it, or at the bottom of an empty chain.
pub proof fn the_tip_is_the_highest_block(ledger: Ledger, h: Height)
    requires
        ledger.wf(),
        under_own_heights(ledger),
        ledger.blocks@.contains_key(h),
    ensures
        ledger.tip() matches Some(tip) && {
            &&& h.0 <= tip.data.height.0
            &&& ledger.blocks@.contains_key(tip.data.height)
            &&& ledger.blocks@[tip.data.height] == tip
            &&& ledger.tip_height_spec() == Some(tip.data.height)
            &&& ledger.tip_hash_spec() == Some(tip.data.hash)
            &&& tip.data.height.0 < u64::MAX ==> miner::candidate_height_spec(ledger)
                == tip.data.height.0 + 1
            &&& tip.data.height.0 < u64::MAX ==> !ledger.blocks@.contains_key(
                Height(miner::candidate_height_spec(ledger)),
            )
        },
{
    let rows = ledger.blocks.rows();
    ordered_map::rows_are_entries(rows);
    assert(ordered_map::has_key(rows, h));
    let i = choose|i: int| ordered_map::key_at(rows, h, i);
    assert(rows[i].0 == h);
    let last = rows.len() - 1;
    assert(rows[last] == rows.last());
    assert(ledger.blocks@.contains_key(rows[last].0));
    if i < last {
        assert(rows[i].0.precedes(rows[last].0));
    }
    let tip = rows[last].1;
    if tip.data.height.0 < u64::MAX {
        let next = Height((tip.data.height.0 + 1) as u64);
        if ledger.blocks@.contains_key(next) {
            assert(ordered_map::has_key(rows, next));
            let j = choose|j: int| ordered_map::key_at(rows, next, j);
            assert(rows[j].0 == next);
            if j < last {
                assert(rows[j].0.precedes(rows[last].0));
            }
        }
    }
}

/// A chain that has not begun has no tip, and begins at height zero.
pub proof fn no_block_no_tip(ledger: Ledger)
    requires
        ledger.blocks.rows().len() == 0,
    ensures
        ledger.tip() is None,
        ledger.tip_height_spec() is None,
        ledger.tip_hash_spec() is None,
        miner::candidate_height_spec(ledger) == 0,
{
}

/// The difficulty of the next block is retargeted exactly if the chain is as
/// long as the interval and both ends of the interval are stored: from the
/// timestamps of the tip and of the block an interval below it, over the
/// interval, from the tip's difficulty. Else it stays what it was.
pub proof fn difficulty_looks_back_one_interval(node: Node)
    requires
        node.ledger.tip_height_spec() is Some,
    ensures
        ({
            let height = node.ledger.tip_height_spec()->Some_0.0;
            let interval = node.params.difficulty_adjustment_interval;
            let tip = storage::block_at(node.storage@, Height(height));
            let first = storage::block_at(node.storage@, Height((height - interval) as u64));
            &&& interval == 0 || height < interval ==> node.next_difficulty_spec() == Ok::<
                NextDifficulty,
                NodeError,
            >(NextDifficulty::Known(node.difficulty))
            &&& 0 < interval <= height ==> match (tip, first) {
                (Ok(Some(last)), Ok(Some(start))) => {
                    node.next_difficulty_spec() matches Ok(NextDifficulty::Retarget(w)) && {
                        &&& w.first_timestamp == start.data.timestamp
                        &&& w.last_timestamp == last.data.timestamp
                        &&& w.block_count == interval
                        &&& w.difficulty == last.data.difficulty
                        &&& start.data.height.0 + interval == last.data.height.0
                    }
                },
                (Err(error), _) => node.next_difficulty_spec() == Err::<NextDifficulty, NodeError>(
                    NodeError::Storage(error),
                ),
                (Ok(Some(_)), Err(error)) => node.next_difficulty_spec() == Err::<
                    NextDifficulty,
                    NodeError,
                >(NodeError::Storage(error)),
                _ => node.next_difficulty_spec() == Ok::<NextDifficulty, NodeError>(
                    NextDifficulty::Known(node.difficulty),
                ),
            }
        }),
{
}

/// The ancestor at a height is the first of the list that is known and stands at
/// that height, and there is one exactly if one of the list is and does.
pub proof fn the_ancestor_stands_at_the_height(
    ancestors: Seq<Digest>,
    known: Map<Digest, Block>,
    height: u64,
)
    ensures
        match node::ancestor_at(ancestors, known, height) {
            Some(block) => exists|j: int|
                0 <= j < ancestors.len() && known.contains_key(#[trigger] ancestors[j])
                    && known[ancestors[j]] == block && block.data.height.0 == height && (forall|
                    i: int,
                |
                    0 <= i < j && known.contains_key(#[trigger] ancestors[i])
                        ==> known[ancestors[i]].data.height.0 != height),
            None => forall|i: int|
                0 <= i < ancestors.len() && known.contains_key(#[trigger] ancestors[i])
                    ==> known[ancestors[i]].data.height.0 != height,
        },
    decreases ancestors.len(),
{
    if ancestors.len() > 0 {
        let first = ancestors[0];
        if !(known.contains_key(first) && known[first].data.height.0 == height) {
            let rest = ancestors.skip(1);
            the_ancestor_stands_at_the_height(rest, known, height);
            match node::ancestor_at(ancestors, known, height) {
                Some(block) => {
                    let j = choose|j: int|
                        0 <= j < rest.len() && known.contains_key(#[trigger] rest[j])
                            && known[rest[j]] == block && block.data.height.0 == height && (
                        forall|i: int|
                            0 <= i < j && known.contains_key(#[trigger] rest[i])
                                ==> known[rest[i]].data.height.0 != height);
                    assert(ancestors[j + 1] == rest[j]);
                    assert forall|i: int|
                        0 <= i < j + 1 && known.contains_key(
                            #[trigger] ancestors[i],
                        ) implies known[ancestors[i]].data.height.0 != height by {
                        if i > 0 {
                            assert(ancestors[i] == rest[i - 1]);
                        }
                    }
                },
                None => {
                    assert forall|i: int|
                        0 <= i < ancestors.len() && known.contains_key(
                            #[trigger] ancestors[i],
                        ) implies known[ancestors[i]].data.height.0 != height by {
                        if i > 0 {
                            assert(ancestors[i] == rest[i - 1]);
                        }
                    }
                },
            }
        }
    }
}

/// On a branch the difficulty is retargeted from the branch's own blocks: over
/// one interval, between the branch's tip and its ancestor an interval below.
pub proof fn a_branch_looks_back_on_itself(node: Node, tip: Digest, ancestors: Seq<Digest>)
    ensures
        ({
            let known = node.fork_choice@.blocks;
            let interval = node.params.difficulty_adjustment_interval;
            let told = node.branch_difficulty_spec(tip, ancestors);
            &&& !known.contains_key(tip) <==> told == Err::<NextDifficulty, NodeError>(
                NodeError::ForkChoice(ForkChoiceError::MissingParent),
            )
            &&& known.contains_key(tip) && known[tip].data.height.0 < interval ==> told == Ok::<
                NextDifficulty,
                NodeError,
            >(NextDifficulty::Known(node.difficulty))
            &&& told matches Ok(NextDifficulty::Retarget(w)) ==> exists|j: int|
                0 <= j < ancestors.len() && known.contains_key(#[trigger] ancestors[j])
                    && known[ancestors[j]].data.height.0 + interval == known[tip].data.height.0
                    && w.first_timestamp == known[ancestors[j]].data.timestamp && w.last_timestamp
                    == known[tip].data.timestamp && w.difficulty == known[tip].data.difficulty
                    && w.block_count == interval
            &&& known.contains_key(tip) && known[tip].data.height.0 >= interval && (exists|j: int|
                0 <= j < ancestors.len() && known.contains_key(#[trigger] ancestors[j])
                    && known[ancestors[j]].data.height.0 + interval == known[tip].data.height.0)
                ==> (told matches Ok(NextDifficulty::Retarget(_)))
        }),
{
    let known = node.fork_choice@.blocks;
    let interval = node.params.difficulty_adjustment_interval;
    if known.contains_key(tip) && known[tip].data.height.0 >= interval {
        the_ancestor_stands_at_the_height(
            ancestors,
            known,
            (known[tip].data.height.0 - interval) as u64,
        );
    }
}

/// What another node asks is answered from the node's own chain: a ping with the
/// same number, a block with the one at that height or under that hash, the tip
/// with the height and the hash of the tip, and a greeting with the node's own
/// version and tip exactly if both speak the same version. What it sends is
/// handed on as it came.
pub proof fn questions_are_answered_from_the_chain(node: Node, said: Said)
    ensures
        match said {
            Said::Ping(n) => handler::answer(node, said) == Answer::Message(Said::Pong(n)),
            Said::Version(theirs) => {
                &&& theirs.protocol_version == node.params.protocol_version ==> (handler::answer(
                    node,
                    said,
                ) matches Answer::Message(Said::VerAck(ours)) && ours.protocol_version
                    == theirs.protocol_version && (match node.ledger.tip() {
                    Some(tip) => ours.tip == Some(
                        TipInfo { height: tip.data.height, hash: tip.data.hash },
                    ),
                    None => ours.tip is None,
                }))
                &&& theirs.protocol_version != node.params.protocol_version ==> (handler::answer(
                    node,
                    said,
                ) matches Answer::Message(Said::Reject(_, _)))
            },
            Said::GetTip => match node.ledger.tip() {
                Some(tip) => handler::answer(node, said) == Answer::Message(
                    Said::Tip(TipInfo { height: tip.data.height, hash: tip.data.hash }),
                ),
                None => handler::answer(node, said) == Answer::Nothing,
            },
            Said::GetBlockByHeight(height) => if node.ledger.blocks@.contains_key(height) {
                handler::answer(node, said) == Answer::SendBlock(node.ledger.blocks@[height])
            } else {
                handler::answer(node, said) == Answer::Nothing
            },
            Said::GetBlockByHash(hash) => if node.cache@.blocks_by_hash.contains_key(hash) {
                handler::answer(node, said) == Answer::SendBlock(
                    node.cache@.blocks_by_hash[hash],
                )
            } else {
                handler::answer(node, said) == Answer::Nothing
            },
            Said::Block(bytes) => handler::answer(node, said) == Answer::ApplyBlock(bytes),
            Said::Transaction(bytes) => handler::answer(node, said) == Answer::SubmitTransaction(
                bytes,
            ),
            Said::GetPeers => handler::answer(node, said) == Answer::Message(
                Said::Peers(Seq::empty()),
            ),
            _ => handler::answer(node, said) == Answer::Nothing,
        },
{
}

/// The fees of a block are the sum of the fees of its parts, and those of a
/// single transaction its fee; and so are the amounts.
pub proof fn fees_and_amounts_add_up(
    a: Seq<SignedTransaction>,
    b: Seq<SignedTransaction>,
    t: SignedTransaction,
)
    ensures
        miner::fee_sum(a + b) == miner::fee_sum(a) + miner::fee_sum(b),
        miner::amount_sum(a + b) == miner::amount_sum(a) + miner::amount_sum(b),
        miner::fee_sum(seq![t]) == t.transaction.fee.0,
        miner::amount_sum(seq![t]) == t.transaction.amount.0,
    decreases b.len(),
{
    reveal_with_fuel(miner::fee_sum, 2);
    reveal_with_fuel(miner::amount_sum, 2);
    assert(seq![t].drop_last() =~= Seq::<SignedTransaction>::empty());
    if b.len() == 0 {
        assert(a + b =~= a);
    } else {
        fees_and_amounts_add_up(a, b.drop_last(), t);
        assert((a + b).drop_last() =~= a + b.drop_last());
    }
}

/// The block is one of the first of the list.
pub open spec fn is_listed(blocks: Seq<(Height, Block)>, n: int, block: Block) -> bool {
    exists|i: int| 0 <= i < n && (#[trigger] blocks[i]).1 == block
}

/// No later one of the first blocks of the list has the hash of this one.
pub open spec fn is_last_of_its_hash(blocks: Seq<(Height, Block)>, n: int, i: int) -> bool {
    forall|j: int| i < j < n ==> (#[trigger] blocks[j]).1.data.hash != blocks[i].1.data.hash
}

/// The index of a list of blocks has each of them under its own hash, the last
/// where two share one, and nothing else.
pub proof fn the_index_has_every_block(blocks: Seq<(Height, Block)>, n: int, i: int, h: Digest)
    requires
        0 <= n <= blocks.len(),
    ensures
        ({
            let index = node::index_of(blocks, n);
            &&& 0 <= i < n ==> index.contains_key(blocks[i].1.data.hash)
            &&& 0 <= i < n && is_last_of_its_hash(blocks, n, i)
                ==> index[blocks[i].1.data.hash] == blocks[i].1
            &&& index.contains_key(h) ==> index[h].data.hash == h && is_listed(
                blocks,
                n,
                index[h],
            )
        }),
    decreases n,
{
    if n > 0 {
        the_index_has_every_block(blocks, n - 1, i, h);
        let before = node::index_of(blocks, n - 1);
        let index = node::index_of(blocks, n);
        if index.contains_key(h) {
            if h == blocks[n - 1].1.data.hash {
                assert(blocks[n - 1].1 == index[h]);
            } else {
                let k = choose|k: int| 0 <= k < n - 1 && (#[trigger] blocks[k]).1 == before[h];
                assert(blocks[k].1 == index[h]);
            }
        }
        if 0 <= i < n - 1 && is_last_of_its_hash(blocks, n, i) {
            assert(blocks[n - 1].1.data.hash != blocks[i].1.data.hash);
            assert(is_last_of_its_hash(blocks, n - 1, i));
        }
    }
}

} // verus!
