//! What every import keeps to.

use crate::import::{self, Action, Event, Stage, StateCheck};
use crate::node::{Node, NodeError};
use crate::types::{Block, Digest, ForkChoiceError, LedgerError};
use vstd::prelude::*;

verus! {

/// What an import awaits after some events.
pub open spec fn stage_after(node: Node, block: Block, events: Seq<Event>) -> Stage
    decreases events.len(),
{
    if events.len() == 0 {
        Stage::Starting
    } else {
        import::awaiting(
            import::next_action(
                node,
                block,
                stage_after(node, block, events.drop_last()),
                events.last(),
            ),
        )
    }
}

/// Each of the events is what the import awaited when it came.
pub open spec fn in_turn(node: Node, block: Block, events: Seq<Event>) -> bool
    decreases events.len(),
{
    if events.len() == 0 {
        true
    } else {
        in_turn(node, block, events.drop_last()) && import::expects(
            stage_after(node, block, events.drop_last()),
            events.last(),
        )
    }
}

/// The difficulty of the block was not checked because checks are off, or is the
/// one that the node starts from, or is the one that the consensus rules
/// computed.
pub open spec fn difficulty_passed(node: Node, block: Block, events: Seq<Event>) -> bool {
    ||| node.difficulty == 0
    ||| block.data.difficulty == node.difficulty
    ||| events.contains(Event::Difficulty(Ok(block.data.difficulty)))
}

/// The block passed what has to be checked before its state: the first block the
/// rules for first blocks, another the difficulty, the rules for a block with
/// its parent, and the checkpoints.
pub open spec fn rules_passed(node: Node, block: Block, events: Seq<Event>) -> bool {
    &&& events.contains(Event::Consensus(Ok(())))
    &&& block.data.height.0 == 0 || {
        &&& node.fork_choice@.blocks.contains_key(block.data.previous_hash)
        &&& difficulty_passed(node, block, events)
        &&& events.contains(Event::Checkpoint(true))
    }
}

/// The state below the block was checked with success, or the block lies on a
/// side branch whose state the node cannot build.
pub open spec fn state_passed(node: Node, block: Block, events: Seq<Event>) -> bool {
    ||| events.len() > 0 && (events.last() matches Event::State(check) && import::state_verdict(
        block,
        check,
    ) is Ok)
    ||| import::no_genesis(node) && !import::extends_tip(node, block)
}

/// What is known at each stage of an import.
spec fn known_at(node: Node, block: Block, events: Seq<Event>, stage: Stage) -> bool {
    let known = node.fork_choice@.blocks.contains_key(block.data.previous_hash);
    match stage {
        Stage::AwaitGenesis => block.data.height.0 == 0,
        Stage::AwaitAncestors => block.data.height.0 > 0 && known,
        Stage::AwaitDifficulty => block.data.height.0 > 0 && known,
        Stage::AwaitNext => block.data.height.0 > 0 && known && difficulty_passed(
            node,
            block,
            events,
        ),
        Stage::AwaitCheckpoint => block.data.height.0 > 0 && known && difficulty_passed(
            node,
            block,
            events,
        ) && events.contains(Event::Consensus(Ok(()))),
        Stage::AwaitState => rules_passed(node, block, events),
        Stage::AwaitInsertion => rules_passed(node, block, events) && state_passed(
            node,
            block,
            events,
        ),
        _ => true,
    }
}

proof fn stages_are_earned(node: Node, block: Block, events: Seq<Event>)
    requires
        in_turn(node, block, events),
    ensures
        known_at(node, block, events, stage_after(node, block, events)),
    decreases events.len(),
{
    if events.len() > 0 {
        let earlier = events.drop_last();
        let event = events.last();
        stages_are_earned(node, block, earlier);
        assert forall|e: Event| earlier.contains(e) implies events.contains(e) by {
            let i = choose|i: int| 0 <= i < earlier.len() && earlier[i] == e;
            assert(events[i] == e);
        }
        assert(events[events.len() - 1] == event);
        assert(events.contains(event));
        let stage = stage_after(node, block, earlier);
        let action = import::next_action(node, block, stage, event);
        match event {
            Event::Consensus(Ok(unit)) => {
                assert(event == Event::Consensus(Ok(())));
            },
            _ => {},
        }
    }
}

/// Whenever the fork choice is asked to take a block in, the block has passed
/// every check: the consensus rules, the difficulty, the checkpoints, and the
/// state below it. Only a block on a side branch whose state cannot be built,
/// because the accounts of the beginning are not known, goes without the last.
pub proof fn only_a_checked_block_is_inserted(node: Node, block: Block, events: Seq<Event>)
    requires
        in_turn(node, block, events),
        stage_after(node, block, events) == Stage::AwaitInsertion,
    ensures
        rules_passed(node, block, events),
        state_passed(node, block, events),
        import::extends_tip(node, block) || !import::no_genesis(node) ==> (
        events.last() matches Event::State(check) && import::state_verdict(block, check) is Ok),
        node.ledger.tip_hash_spec() == Some(block.data.previous_hash)
            || node.genesis_accounts.rows().len() > 0 ==> (events.last() matches Event::State(check)
            && check.branch is Ok && check.root == Ok::<Digest, LedgerError>(block.data.state_root)
            && check.applied is Ok),
{
    stages_are_earned(node, block, events);
}

/// The check of the state decides by the root: the fork choice is asked to take
/// a checked block in exactly if the state below the block could be built, the
/// ledger takes the block, the root of the state after it is the one that the
/// block claims, and that is not all zeros unless the block is the first. Where
/// the claimed root is another, that is why the block is refused.
pub proof fn the_claimed_root_has_to_hold(node: Node, block: Block, check: StateCheck)
    ensures
        ({
            let action = import::next_action(
                node,
                block,
                Stage::AwaitState,
                Event::State(check),
            );
            let claimed = block.data.state_root;
            let zero = forall|i: int| 0 <= i < 64 ==> claimed.0@[i] == 0;
            &&& action is InsertBlock <==> {
                &&& check.branch is Ok
                &&& check.root == Ok::<Digest, LedgerError>(claimed)
                &&& check.applied is Ok
                &&& block.data.genesis || !zero
            }
            &&& !(action is InsertBlock) ==> (action matches Action::Done(Err(_)))
            &&& check.branch is Ok && check.root is Ok && check.root->Ok_0 != claimed ==> action
                == Action::Done(
                Err(NodeError::Ledger(LedgerError::InvalidStateRoot)),
            )
        }),
{
}

/// Whatever else comes back, the fork choice is asked to take a block in only
/// after the check of its state, and to try one only where the block does not
/// stand on the tip and the accounts of the beginning are not known.
pub proof fn nothing_else_asks_the_fork_choice(
    node: Node,
    block: Block,
    stage: Stage,
    event: Event,
)
    ensures
        ({
            let action = import::next_action(node, block, stage, event);
            &&& action is InsertBlock ==> stage == Stage::AwaitState && (event matches Event::State(
                check,
            ) && check.branch is Ok && check.applied is Ok && check.root == Ok::<
                Digest,
                LedgerError,
            >(block.data.state_root))
            &&& action is TryBlock ==> node.genesis_accounts.rows().len() == 0
                && node.ledger.tip_hash_spec() != Some(block.data.previous_hash)
                && (event == Event::Checkpoint(true) || event == Event::Consensus(Ok(())))
        }),
{
    match event {
        Event::Consensus(Ok(unit)) => {
            assert(event == Event::Consensus(Ok(())));
        },
        _ => {},
    }
}

/// A block whose state was not checked is never followed: whatever the fork
/// choice makes of it, the import ends there, with the ledger as it was. A block
/// that the fork choice would prefer is refused, and leaves no trace: what the
/// node knows of the fork choice stays as it was, with the tip that it prefers.
/// Any other has its place in the fork choice, where the preferred tip is
/// another than the block.
pub proof fn an_unchecked_block_is_never_followed(
    before: Node,
    after: Node,
    block: Block,
    result: Result<(), ForkChoiceError>,
    best_tip: Option<Digest>,
    now: u64,
)
    requires
        import::no_genesis(before),
        !import::extends_tip(before, block),
        import::stepped(before, after, block, (Event::Inserted { result, best_tip }), now),
    ensures
        import::insertion_decided(before, block, result, best_tip) is Done,
        after.ledger == before.ledger,
        result is Ok && best_tip == Some(block.data.hash) ==> {
            &&& import::insertion_decided(before, block, result, best_tip) == Action::Done(
                Err(NodeError::MissingGenesisState),
            )
            &&& after.fork_choice == before.fork_choice
            &&& after.mempool == before.mempool
            &&& after.cache == before.cache
            &&& after.storage == before.storage
            &&& after.orphans == before.orphans
        },
        result is Ok && best_tip != Some(block.data.hash) ==> {
            &&& import::insertion_decided(before, block, result, best_tip) == Action::Done(Ok(()))
            &&& after.fork_choice@.blocks.contains_key(block.data.hash)
            &&& after.fork_choice@.best_tip != Some(block.data.hash)
        },
{
}

/// The two nodes agree on all but what is pending, and on what may be.
pub open spec fn same_but_pool(a: Node, b: Node) -> bool {
    &&& a.ledger == b.ledger
    &&& a.storage@ == b.storage@
    &&& a.cache@ == b.cache@
    &&& a.fork_choice@ == b.fork_choice@
    &&& a.orphans@ == b.orphans@
    &&& a.genesis_accounts == b.genesis_accounts
    &&& a.difficulty == b.difficulty
    &&& a.params == b.params
}

/// What becomes of a block does not depend on what is pending, nor on the fees
/// and times that the pool asks for: those decide on what the node relays, not
/// on what is valid. Two nodes that differ in the pool alone ask the same next,
/// and after the step still differ in the pool alone.
pub proof fn the_pool_has_no_say_in_blocks(
    node: Node,
    other: Node,
    node_after: Node,
    other_after: Node,
    block: Block,
    stage: Stage,
    event: Event,
    now: u64,
)
    requires
        same_but_pool(node, other),
        import::stepped(node, node_after, block, event, now),
        import::stepped(other, other_after, block, event, now),
    ensures
        import::next_action(node, block, stage, event) == import::next_action(
            other,
            block,
            stage,
            event,
        ),
        same_but_pool(node_after, other_after),
{
}

/// Until a block that the fork choice takes in is noted, an import changes
/// nothing: a block that is refused leaves no trace.
pub proof fn a_refused_block_leaves_no_trace(
    before: Node,
    after: Node,
    block: Block,
    event: Event,
    now: u64,
)
    requires
        import::stepped(before, after, block, event, now),
        !(event is Applied),
        !(event is Rebuilt),
        event matches Event::Inserted { result: Ok(_), best_tip } ==> !import::noted(
            before,
            block,
            best_tip,
        ),
    ensures
        after.ledger == before.ledger,
        after.mempool == before.mempool,
        after.cache == before.cache,
        after.fork_choice == before.fork_choice,
        after.storage == before.storage,
        after.orphans == before.orphans,
{
}

/// A block that the fork choice does not prefer is kept by its hash alone: the
/// active chain, its heights and its indexes stay as they were.
pub proof fn a_side_block_changes_no_height(
    before: Node,
    after: Node,
    block: Block,
    best_tip: Option<crate::types::BlockHash>,
    now: u64,
    height: crate::types::Height,
)
    requires
        import::stepped(
            before,
            after,
            block,
            (Event::Inserted { result: Ok(()), best_tip }),
            now,
        ),
        best_tip != Some(block.data.hash),
    ensures
        after.ledger == before.ledger,
        crate::storage::block_at(after.storage@, height) == crate::storage::block_at(
            before.storage@,
            height,
        ),
        crate::storage::block_with(after.storage@, block.data.hash) == Ok::<
            Option<Block>,
            crate::storage::StorageError,
        >(Some(block)),
        after.storage@.tx_index == before.storage@.tx_index,
        after.fork_choice@.blocks.contains_key(block.data.hash),
{
}

/// A block that stands on the active tip leaves the node on the ledger after it,
/// with its transactions no longer pending.
pub proof fn an_applied_block_is_confirmed(
    before: Node,
    after: Node,
    block: Block,
    ledger: crate::ledger::Ledger,
    now: u64,
    i: int,
)
    requires
        import::stepped(before, after, block, Event::Applied(Ok(ledger)), now),
        0 <= i < block.data.transactions@.len(),
    ensures
        after.ledger == ledger,
        !after.mempool@.entries.contains_key(block.data.transactions@[i].hash),
        after.cache@.blocks_by_hash.contains_key(block.data.hash),
{
    let hash = block.data.transactions@[i].hash;
    assert(crate::mempool::has_hash(block.data.transactions@, i, hash));
    assert(crate::mempool::block_hashes(block).contains(hash));
    let transactions = block.data.transactions@;
    parties_keep_blocks(
        before.cache@.with_block(block),
        ledger,
        transactions,
        transactions.len() as int,
        block.data.hash,
    );
}

proof fn parties_keep_blocks(
    cached: crate::cache::Cached,
    ledger: crate::ledger::Ledger,
    transactions: Seq<crate::types::SignedTransaction>,
    n: int,
    hash: crate::types::Digest,
)
    ensures
        import::with_parties(cached, ledger, transactions, n).blocks_by_hash.contains_key(hash)
            == cached.blocks_by_hash.contains_key(hash),
    decreases n,
{
    if n > 0 {
        parties_keep_blocks(cached, ledger, transactions, n - 1, hash);
    }
}

} // verus!
