//! What decides over a block, and what a node keeps at hand of its chain.

use crate::cache::Cached;
use crate::import::{self, Action, Event, Rebuild, Stage};
use crate::ledger::Ledger;
use crate::node::{Node, NodeError};
use crate::node_laws;
use crate::ordered_map;
use crate::recovery_laws;
use crate::types::{
    Address, Block, ConsensusError, Digest, ForkChoiceError, Height, SignedTransaction,
};
use vstd::prelude::*;

verus! {

/// A block is validated against its parent only if its difficulty is the one
/// that is due: any where the chain has none, the node's own below the first
/// interval, and the retargeted one above. The parent is the block that the fork
/// choice knows under the hash that the block names.
pub proof fn a_block_has_the_difficulty_that_is_due(
    node: Node,
    block: Block,
    stage: Stage,
    event: Event,
    parent: Block,
)
    requires
        import::expects(stage, event),
        import::next_action(node, block, stage, event) == Action::ValidateNext(parent),
        stage != Stage::Starting ==> node.fork_choice@.blocks.contains_key(
            block.data.previous_hash,
        ),
    ensures
        node.fork_choice@.blocks.contains_key(block.data.previous_hash),
        parent == node.fork_choice@.blocks[block.data.previous_hash],
        match (stage, event) {
            (Stage::Starting, _) => block.data.height.0 > 0 && (node.difficulty == 0 || (
            parent.data.height.0 < node.params.difficulty_adjustment_interval
                && block.data.difficulty == node.difficulty)),
            (Stage::AwaitAncestors, Event::Ancestors(ancestors)) => parent.data.height.0
                < node.params.difficulty_adjustment_interval && block.data.difficulty
                == node.difficulty,
            (Stage::AwaitDifficulty, Event::Difficulty(Ok(due))) => block.data.difficulty == due,
            _ => false,
        },
{
    match (stage, event) {
        (Stage::AwaitAncestors, Event::Ancestors(ancestors)) => {
            node_laws::a_branch_looks_back_on_itself(
                node,
                block.data.previous_hash,
                ancestors@,
            );
        },
        _ => {},
    }
}

/// A block with another difficulty than the one that is due is refused for it,
/// and one without a known parent for that.
pub proof fn another_difficulty_is_refused(node: Node, block: Block, due: u32)
    ensures
        block.data.difficulty != due ==> import::next_action(
            node,
            block,
            Stage::AwaitDifficulty,
            Event::Difficulty(Ok(due)),
        ) == Action::Done(Err(NodeError::Consensus(ConsensusError::UnexpectedDifficulty))),
        block.data.difficulty == due ==> import::next_action(
            node,
            block,
            Stage::AwaitDifficulty,
            Event::Difficulty(Ok(due)),
        ) == Action::ValidateNext(node.fork_choice@.blocks[block.data.previous_hash]),
        block.data.height.0 == 0 ==> import::next_action(
            node,
            block,
            Stage::Starting,
            Event::Start,
        ) == Action::ValidateGenesis,
        block.data.height.0 > 0 && !node.fork_choice@.blocks.contains_key(block.data.previous_hash)
            ==> import::next_action(node, block, Stage::Starting, Event::Start) == Action::Done(
            Err(NodeError::ForkChoice(ForkChoiceError::MissingParent)),
        ),
        block.data.height.0 > 0 && node.fork_choice@.blocks.contains_key(block.data.previous_hash)
            && node.difficulty != 0
            && node.fork_choice@.blocks[block.data.previous_hash].data.height.0
            >= node.params.difficulty_adjustment_interval ==> import::next_action(
            node,
            block,
            Stage::Starting,
            Event::Start,
        ) == Action::ListAncestors(block.data.previous_hash),
{
}

/// A block is held against the checkpoints after its validation, and one that
/// they contradict is refused.
pub proof fn a_block_off_the_checkpoints_is_refused(node: Node, block: Block, holds: bool)
    ensures
        import::next_action(node, block, Stage::AwaitNext, Event::Consensus(Ok(())))
            == Action::CheckCheckpoint,
        ({
            let action = import::next_action(
                node,
                block,
                Stage::AwaitCheckpoint,
                Event::Checkpoint(holds),
            );
            &&& !holds ==> action == Action::Done(Err(NodeError::CheckpointMismatch))
            &&& holds ==> !(action is Done)
        }),
{
}

/// The block stands on the node's tip, or begins a chain that has none.
pub open spec fn stands_on_the_tip(node: Node, block: Block) -> bool {
    match node.ledger.tip() {
        Some(tip) => block.data.previous_hash == tip.data.hash,
        None => block.data.height.0 == 0,
    }
}

/// The state is checked where the block stands: on the node's own state for a
/// block on the tip, and on the branch up to its parent for another. Only a node
/// that does not know the accounts of the beginning tries a block unchecked.
pub proof fn the_state_is_checked_where_the_block_stands(node: Node, block: Block)
    ensures
        ({
            let action = import::next_action(
                node,
                block,
                Stage::AwaitCheckpoint,
                Event::Checkpoint(true),
            );
            &&& action == Action::CheckState(None) <==> stands_on_the_tip(node, block)
            &&& action == Action::CheckState(Some(block.data.previous_hash))
                <==> !stands_on_the_tip(node, block) && node.genesis_accounts.rows().len() > 0
            &&& action == Action::TryBlock <==> !stands_on_the_tip(node, block)
                && node.genesis_accounts.rows().len() == 0
            &&& import::next_action(node, block, Stage::AwaitGenesis, Event::Consensus(Ok(())))
                == action
        }),
{
}

/// A block that the fork choice takes in changes the active chain exactly if it
/// is the best tip: it is applied where it stands on the tip, and the ledger is
/// rebuilt along its branch where it does not. What the fork choice refuses is
/// refused for its reason.
pub proof fn only_the_best_tip_moves_the_chain(
    node: Node,
    block: Block,
    result: Result<(), ForkChoiceError>,
    best_tip: Option<Digest>,
)
    ensures
        ({
            let action = import::next_action(
                node,
                block,
                Stage::AwaitInsertion,
                Event::Inserted { result, best_tip },
            );
            let best = result is Ok && best_tip == Some(block.data.hash);
            &&& action == Action::ApplyBlock <==> best && stands_on_the_tip(node, block)
            &&& action == Action::RebuildLedger <==> best && !stands_on_the_tip(node, block)
                && node.genesis_accounts.rows().len() > 0
            &&& best && !stands_on_the_tip(node, block) && node.genesis_accounts.rows().len() == 0
                ==> action == Action::Done(Err(NodeError::MissingGenesisState))
            &&& result is Ok && best_tip != Some(block.data.hash) ==> (action matches Action::Done(
                Ok(_),
            ))
            &&& result is Err ==> action == Action::Done(
                Err(NodeError::ForkChoice(result->Err_0)),
            )
        }),
{
}

/// A reorganisation succeeds exactly if the node has a tip, the branches share a
/// block, the new branch was found, and the ledger that was built for it can be
/// written.
pub proof fn a_reorganisation_needs_a_shared_block(node: Node, block: Block, rebuild: Rebuild)
    ensures
        (import::next_action(node, block, Stage::AwaitRebuild, Event::Rebuilt(rebuild))
            matches Action::Done(Ok(_))) <==> recovery_laws::reorganises(node, rebuild),
        node.ledger.tip() is None || !rebuild.branch_found || !(exists|h: Digest| #[trigger]
            rebuild.old_branch@.contains(h) && rebuild.new_branch@.contains(h))
            ==> import::next_action(node, block, Stage::AwaitRebuild, Event::Rebuilt(rebuild))
            == Action::Done(Err(NodeError::ReorgRequired)),
{
    let old_branch = rebuild.old_branch@;
    let new_branch = rebuild.new_branch@;
    recovery_laws::shared_means_shared(old_branch, new_branch);
}

/// A block that is applied takes its own transactions out of the pool, and no
/// others.
pub proof fn only_confirmed_transactions_leave(
    before: Node,
    after: Node,
    block: Block,
    ledger: Ledger,
    now: u64,
    h: Digest,
)
    requires
        import::stepped(before, after, block, Event::Applied(Ok(ledger)), now),
    ensures
        after.mempool@.entries.contains_key(h) <==> before.mempool@.entries.contains_key(h) && !(
        exists|i: int|
            0 <= i < block.data.transactions@.len() && (
            #[trigger] block.data.transactions@[i]).hash == h),
        after.mempool@.entries.contains_key(h) ==> after.mempool@.entries[h]
            == before.mempool@.entries[h],
{
    let list = block.data.transactions@;
    let gone = crate::mempool::block_hashes(block);
    if gone.contains(h) {
        let i = choose|i: int| crate::mempool::has_hash(list, i, h);
        assert(list[i].hash == h);
    }
    if exists|i: int| 0 <= i < list.len() && (#[trigger] list[i]).hash == h {
        let i = choose|i: int| 0 <= i < list.len() && (#[trigger] list[i]).hash == h;
        assert(crate::mempool::has_hash(list, i, h));
    }
}

/// The address sends or receives in the list.
pub open spec fn is_party(list: Seq<SignedTransaction>, a: Address) -> bool {
    exists|i: int|
        0 <= i < list.len() && ((#[trigger] list[i]).transaction.from == a
            || list[i].transaction.to == a)
}

/// The accounts stand under their own addresses.
pub open spec fn under_own_addresses(ledger: Ledger) -> bool {
    forall|a: Address| #[trigger]
        ledger.accounts@.contains_key(a) ==> ledger.accounts@[a].address == a
}

proof fn parties_are_at_hand(
    cached: Cached,
    ledger: Ledger,
    list: Seq<SignedTransaction>,
    n: int,
    a: Address,
)
    requires
        under_own_addresses(ledger),
        0 <= n <= list.len(),
    ensures
        ({
            let next = import::with_parties(cached, ledger, list, n);
            &&& next.blocks_by_height == cached.blocks_by_height
            &&& next.blocks_by_hash == cached.blocks_by_hash
            &&& next.tip_height == cached.tip_height
            &&& next.tip_hash == cached.tip_hash
            &&& is_party(list.take(n), a) && ledger.accounts@.contains_key(a)
                ==> next.accounts.contains_key(a) && next.accounts[a] == ledger.accounts@[a]
            &&& !is_party(list.take(n), a) || !ledger.accounts@.contains_key(a)
                ==> next.accounts.contains_key(a) == cached.accounts.contains_key(a)
                && next.accounts[a] == cached.accounts[a]
        }),
    decreases n,
{
    if n > 0 {
        parties_are_at_hand(cached, ledger, list, n - 1, a);
        let part = list.take(n);
        let less = list.take(n - 1);
        let t = list[n - 1].transaction;
        assert(part[n - 1] == list[n - 1]);
        if is_party(less, a) {
            let i = choose|i: int|
                0 <= i < less.len() && ((#[trigger] less[i]).transaction.from == a
                    || less[i].transaction.to == a);
            assert(part[i] == less[i]);
        }
        if is_party(part, a) && t.from != a && t.to != a {
            let i = choose|i: int|
                0 <= i < part.len() && ((#[trigger] part[i]).transaction.from == a
                    || part[i].transaction.to == a);
            assert(less[i] == part[i]);
        }
        if t.from == a || t.to == a {
            assert(part[n - 1].transaction.from == a || part[n - 1].transaction.to == a);
        }
    }
}

/// After a block is applied the node has at hand the block, by its height and by
/// its hash, as its tip, and the accounts of all that it touches as the ledger
/// has them: the senders, the receivers and the miner. Other accounts and other
/// blocks are at hand as before.
pub proof fn an_applied_block_is_at_hand(
    before: Node,
    after: Node,
    block: Block,
    ledger: Ledger,
    now: u64,
    a: Address,
)
    requires
        import::stepped(before, after, block, Event::Applied(Ok(ledger)), now),
        under_own_addresses(ledger),
    ensures
        ({
            let touched = is_party(block.data.transactions@, a) || block.data.miner_address == a;
            &&& after.cache@.blocks_by_height == before.cache@.blocks_by_height.insert(
                block.data.height,
                block,
            )
            &&& after.cache@.blocks_by_hash == before.cache@.blocks_by_hash.insert(
                block.data.hash,
                block,
            )
            &&& after.cache@.tip_height == Some(block.data.height)
            &&& after.cache@.tip_hash == Some(block.data.hash)
            &&& touched && ledger.accounts@.contains_key(a) ==> after.cache@.accounts.contains_key(
                a,
            ) && after.cache@.accounts[a] == ledger.accounts@[a]
            &&& !touched || !ledger.accounts@.contains_key(a)
                ==> after.cache@.accounts.contains_key(a) == before.cache@.accounts.contains_key(a)
                && after.cache@.accounts[a] == before.cache@.accounts[a]
        }),
{
    let list = block.data.transactions@;
    parties_are_at_hand(before.cache@.with_block(block), ledger, list, list.len() as int, a);
    assert(list.take(list.len() as int) =~= list);
}

proof fn accounts_are_at_hand(cached: Cached, rows: Seq<(Address, crate::types::Account)>, n: int)
    requires
        0 <= n <= rows.len(),
        forall|i: int| 0 <= i < rows.len() ==> (#[trigger] rows[i]).1.address == rows[i].0,
        cached.accounts == Map::<Address, crate::types::Account>::empty(),
        ordered_map::ascending(rows),
    ensures
        ({
            let next = cached.with_accounts(rows, n);
            &&& next.blocks_by_height == cached.blocks_by_height
            &&& next.blocks_by_hash == cached.blocks_by_hash
            &&& forall|a: Address| #[trigger]
                next.accounts.contains_key(a) ==> ordered_map::has_key(rows, a)
            &&& forall|i: int|
                0 <= i < n ==> next.accounts.contains_key((#[trigger] rows[i]).0)
                    && next.accounts[rows[i].0] == rows[i].1
        }),
    decreases n,
{
    if n > 0 {
        accounts_are_at_hand(cached, rows, n - 1);
        let next = cached.with_accounts(rows, n);
        assert(ordered_map::key_at(rows, rows[n - 1].0, n - 1));
        assert forall|i: int| 0 <= i < n implies next.accounts.contains_key(
            (#[trigger] rows[i]).0,
        ) && next.accounts[rows[i].0] == rows[i].1 by {
            if i < n - 1 {
                assert(rows[i].0 != rows[n - 1].0);
            }
        }
    }
}

proof fn blocks_are_at_hand(cached: Cached, rows: Seq<(Height, Block)>, n: int)
    requires
        0 <= n <= rows.len(),
        forall|i: int| 0 <= i < rows.len() ==> (#[trigger] rows[i]).1.data.height == rows[i].0,
        forall|i: int, j: int|
            0 <= i < rows.len() && 0 <= j < rows.len() && (#[trigger] rows[i]).1.data.hash == (
            #[trigger] rows[j]).1.data.hash ==> i == j,
        cached.blocks_by_height == Map::<Height, Block>::empty(),
        cached.blocks_by_hash == Map::<Digest, Block>::empty(),
        ordered_map::ascending(rows),
    ensures
        ({
            let next = cached.with_blocks(rows, n);
            &&& next.accounts == cached.accounts
            &&& forall|h: Height| #[trigger]
                next.blocks_by_height.contains_key(h) ==> ordered_map::has_key(rows, h)
            &&& forall|h: Digest| #[trigger]
                next.blocks_by_hash.contains_key(h) ==> next.blocks_by_hash[h].data.hash == h
                    && ordered_map::has_key(rows, next.blocks_by_hash[h].data.height)
            &&& forall|i: int|
                0 <= i < n ==> next.blocks_by_height.contains_key((#[trigger] rows[i]).0)
                    && next.blocks_by_height[rows[i].0] == rows[i].1
                    && next.blocks_by_hash.contains_key(rows[i].1.data.hash)
                    && next.blocks_by_hash[rows[i].1.data.hash] == rows[i].1
        }),
    decreases n,
{
    if n > 0 {
        blocks_are_at_hand(cached, rows, n - 1);
        let next = cached.with_blocks(rows, n);
        assert(ordered_map::key_at(rows, rows[n - 1].0, n - 1));
        assert forall|i: int| 0 <= i < n implies next.blocks_by_height.contains_key(
            (#[trigger] rows[i]).0,
        ) && next.blocks_by_height[rows[i].0] == rows[i].1 && next.blocks_by_hash.contains_key(
            rows[i].1.data.hash,
        ) && next.blocks_by_hash[rows[i].1.data.hash] == rows[i].1 by {
            if i < n - 1 {
                assert(rows[i].0 != rows[n - 1].0);
                assert(rows[i].1.data.hash != rows[n - 1].1.data.hash);
            }
        }
    }
}

/// The hashes of the blocks are told apart.
pub open spec fn hashes_differ(ledger: Ledger) -> bool {
    forall|g: Height, h: Height| #[trigger]
        ledger.blocks@.contains_key(g) && #[trigger] ledger.blocks@.contains_key(h)
            && ledger.blocks@[g].data.hash == ledger.blocks@[h].data.hash ==> g == h
}

/// What a node has at hand of a ledger is the ledger: each account under its
/// address, each block under its height and under its hash, nothing else, and
/// the tip.
pub proof fn a_whole_ledger_is_at_hand(ledger: Ledger)
    requires
        ledger.wf(),
        under_own_addresses(ledger),
        node_laws::under_own_heights(ledger),
        hashes_differ(ledger),
    ensures
        ({
            let cached = Cached::of_ledger(ledger);
            &&& cached.accounts == ledger.accounts@
            &&& cached.blocks_by_height == ledger.blocks@
            &&& forall|h: Height| #[trigger]
                ledger.blocks@.contains_key(h) ==> cached.blocks_by_hash.contains_key(
                    ledger.blocks@[h].data.hash,
                ) && cached.blocks_by_hash[ledger.blocks@[h].data.hash] == ledger.blocks@[h]
            &&& forall|d: Digest| #[trigger]
                cached.blocks_by_hash.contains_key(d) ==> cached.blocks_by_hash[d].data.hash == d
                    && ledger.blocks@.contains_key(cached.blocks_by_hash[d].data.height)
            &&& match ledger.tip() {
                Some(tip) => cached.tip_height == Some(tip.data.height) && cached.tip_hash == Some(
                    tip.data.hash,
                ),
                None => cached.tip_height is None && cached.tip_hash is None,
            }
        }),
{
    let accounts = ledger.accounts.rows();
    let blocks = ledger.blocks.rows();
    let n = accounts.len() as int;
    let m = blocks.len() as int;
    ordered_map::rows_are_entries(accounts);
    ordered_map::rows_are_entries(blocks);
    assert forall|i: int| 0 <= i < n implies (#[trigger] accounts[i]).1.address
        == accounts[i].0 by {
        assert(ledger.accounts@.contains_key(accounts[i].0));
    }
    assert forall|i: int| 0 <= i < m implies (#[trigger] blocks[i]).1.data.height
        == blocks[i].0 by {
        assert(ledger.blocks@.contains_key(blocks[i].0));
    }
    assert forall|i: int, j: int|
        0 <= i < m && 0 <= j < m && (#[trigger] blocks[i]).1.data.hash == (
        #[trigger] blocks[j]).1.data.hash implies i == j by {
        assert(ledger.blocks@.contains_key(blocks[i].0));
        assert(ledger.blocks@.contains_key(blocks[j].0));
        if i < j {
            assert(blocks[i].0 != blocks[j].0);
        } else if j < i {
            assert(blocks[j].0 != blocks[i].0);
        }
    }
    let cached = Cached::of_ledger(ledger);
    let first = Cached::nothing().with_accounts(accounts, n);
    accounts_are_at_hand(Cached::nothing(), accounts, n);
    blocks_are_at_hand(first, blocks, m);
    assert(cached.accounts =~= ledger.accounts@) by {
        assert forall|a: Address| #[trigger] ledger.accounts@.contains_key(a) implies
            cached.accounts.contains_key(a) && cached.accounts[a] == ledger.accounts@[a] by {
            assert(ordered_map::has_key(accounts, a));
            let i = choose|i: int| ordered_map::key_at(accounts, a, i);
            assert(accounts[i].0 == a);
        }
        assert forall|a: Address| #[trigger] cached.accounts.contains_key(a) implies
            ledger.accounts@.contains_key(a) by {
            assert(ordered_map::has_key(accounts, a));
        }
    }
    assert forall|h: Height| #[trigger] ledger.blocks@.contains_key(h) implies
        cached.blocks_by_height.contains_key(h) && cached.blocks_by_height[h] == ledger.blocks@[h]
        && cached.blocks_by_hash.contains_key(ledger.blocks@[h].data.hash)
        && cached.blocks_by_hash[ledger.blocks@[h].data.hash] == ledger.blocks@[h] by {
        assert(ordered_map::has_key(blocks, h));
        let i = choose|i: int| ordered_map::key_at(blocks, h, i);
        assert(blocks[i].0 == h);
    }
    assert(cached.blocks_by_height =~= ledger.blocks@) by {
        assert forall|h: Height| #[trigger] cached.blocks_by_height.contains_key(h) implies
            ledger.blocks@.contains_key(h) by {
            assert(ordered_map::has_key(blocks, h));
        }
    }
}

/// A block that the fork choice takes in is known from then on, under its own hash,
/// and the best tip is the one that the fork choice names; other blocks stay known.
/// Only where the block would be followed without a known beginning does the node
/// stay as it was.
pub proof fn what_the_fork_choice_takes_is_remembered(
    before: Node,
    after: Node,
    block: Block,
    best_tip: Option<Digest>,
    now: u64,
    h: Digest,
)
    requires
        import::stepped(
            before,
            after,
            block,
            (Event::Inserted { result: Ok(()), best_tip }),
            now,
        ),
    ensures
        ({
            let followed = best_tip == Some(block.data.hash) && !stands_on_the_tip(before, block)
                && before.genesis_accounts.rows().len() == 0;
            &&& !followed ==> after.fork_choice@.blocks.contains_key(block.data.hash)
                && after.fork_choice@.blocks[block.data.hash] == block
                && after.fork_choice@.best_tip == best_tip
            &&& followed ==> after.fork_choice == before.fork_choice
            &&& h != block.data.hash ==> after.fork_choice@.blocks.contains_key(h)
                == before.fork_choice@.blocks.contains_key(h) && after.fork_choice@.blocks[h]
                == before.fork_choice@.blocks[h]
            &&& after.ledger == before.ledger
            &&& after.mempool == before.mempool
            &&& after.cache == before.cache
        }),
{
}

} // verus!
