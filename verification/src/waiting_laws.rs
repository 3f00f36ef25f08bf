//! What becomes of a block that comes before its parent.

use crate::apply::{self, next_waiting};
use crate::import::{self, Action, Event, Stage};
use crate::node::{Node, NodeError};
use crate::orphans::{self, OrphanBlock, OrphanPool, Waiting};
use crate::types::{Block, Digest, ForkChoiceError};
use vstd::prelude::*;

verus! {

/// The waiting blocks and their lists fit together while the blocks of `queue`
/// are about to be looked at: each block waits under its own hash, each list
/// names waiting blocks of its parent, each once, and every waiting block is in
/// the list of its parent or in the queue, but not in both.
pub open spec fn sound(waiting: Waiting, queue: Seq<Digest>) -> bool {
    &&& forall|h: Digest| #[trigger]
        waiting.blocks.contains_key(h) ==> waiting.blocks[h].block.data.hash == h
    &&& waiting.waits_for_its_parent()
    &&& forall|p: Digest| #[trigger]
        waiting.children.contains_key(p) ==> waiting.children[p].no_duplicates()
            && waiting.children[p].len() > 0
    &&& queue.no_duplicates()
    &&& forall|p: Digest, i: int|
        waiting.children.contains_key(p) && 0 <= i < waiting.children[p].len()
            ==> !queue.contains(#[trigger] waiting.children[p][i])
    &&& waiting.listed(queue.to_set())
}

/// Where nothing waits, all fits together.
pub proof fn nothing_waiting_is_sound(waiting: Waiting)
    requires
        waiting.blocks == Map::<Digest, OrphanBlock>::empty(),
        waiting.children == Map::<Digest, Seq<Digest>>::empty(),
    ensures
        sound(waiting, Seq::empty()),
{
}

proof fn without_orphan_stays_sound(waiting: Waiting, hash: Digest, queue: Seq<Digest>)
    requires
        sound(waiting, queue),
    ensures
        sound(orphans::without_orphan(waiting, hash), queue),
        forall|p: Digest, c: Digest|
            orphans::without_orphan(waiting, hash).children.contains_key(p)
                && #[trigger] orphans::without_orphan(waiting, hash).children[p].contains(c)
                ==> waiting.children.contains_key(p) && waiting.children[p].contains(c),
{
    let next = orphans::without_orphan(waiting, hash);
    orphans::without_orphan_keeps_lists(waiting, hash, queue.to_set());
    assert forall|p: Digest| #[trigger] next.children.contains_key(p) implies
        next.children[p].no_duplicates() && next.children[p].len() > 0 by {
        orphans::list_without_properties(waiting.children[p], hash);
    }
    assert forall|p: Digest, c: Digest|
        next.children.contains_key(p) && #[trigger] next.children[p].contains(c) implies
        waiting.children.contains_key(p) && waiting.children[p].contains(c) by {
        orphans::list_without_properties(waiting.children[p], hash);
    }
    assert forall|p: Digest, i: int|
        next.children.contains_key(p) && 0 <= i < next.children[p].len() implies !queue.contains(
        #[trigger] next.children[p][i],
    ) by {
        let c = next.children[p][i];
        assert(next.children[p].contains(c));
        let j = choose|j: int| 0 <= j < waiting.children[p].len() && waiting.children[p][j] == c;
        assert(!queue.contains(waiting.children[p][j]));
    }
}

proof fn without_orphans_stays_sound(
    waiting: Waiting,
    gone: Seq<Digest>,
    n: int,
    queue: Seq<Digest>,
)
    requires
        sound(waiting, queue),
    ensures
        sound(orphans::without_orphans(waiting, gone, n), queue),
        forall|p: Digest, c: Digest|
            orphans::without_orphans(waiting, gone, n).children.contains_key(p)
                && #[trigger] orphans::without_orphans(waiting, gone, n).children[p].contains(c)
                ==> waiting.children.contains_key(p) && waiting.children[p].contains(c),
        forall|h: Digest| #[trigger]
            orphans::without_orphans(waiting, gone, n).blocks.contains_key(h)
                ==> waiting.blocks.contains_key(h),
    decreases n,
{
    if n > 0 {
        without_orphans_stays_sound(waiting, gone, n - 1, queue);
        without_orphan_stays_sound(
            orphans::without_orphans(waiting, gone, n - 1),
            gone[n - 1],
            queue,
        );
    }
}

/// Pruning keeps what waits in order, and adds nothing to it.
pub proof fn pruning_stays_sound(waiting: Waiting, now: u64, tip_height: u64, queue: Seq<Digest>)
    requires
        sound(waiting, queue),
    ensures
        sound(orphans::orphans_pruned(waiting, now, tip_height), queue),
        forall|p: Digest, c: Digest|
            orphans::orphans_pruned(waiting, now, tip_height).children.contains_key(p)
                && #[trigger] orphans::orphans_pruned(waiting, now, tip_height).children[p].contains(
                c,
            ) ==> waiting.children.contains_key(p) && waiting.children[p].contains(c),
        forall|h: Digest| #[trigger]
            orphans::orphans_pruned(waiting, now, tip_height).blocks.contains_key(h)
                ==> waiting.blocks.contains_key(h),
{
    let gone = orphans::expired_hashes(
        crate::ordered_map::rows_of(waiting.blocks),
        now,
        tip_height,
    );
    without_orphans_stays_sound(waiting, gone, gone.len() as int, queue);
}

/// Letting a block wait that is not in the queue keeps what waits in order. A
/// block that may wait does so from then on, as the last of its parent's list.
pub proof fn caching_stays_sound(
    waiting: Waiting,
    block: Block,
    known: bool,
    parent_known: bool,
    now: u64,
    tip_height: u64,
    queue: Seq<Digest>,
)
    requires
        sound(waiting, queue),
        !queue.contains(block.data.hash),
    ensures
        ({
            let next = orphans::orphan_cached(
                waiting,
                block,
                known,
                parent_known,
                now,
                tip_height,
            );
            let hash = block.data.hash;
            let parent = block.data.previous_hash;
            &&& sound(next, queue)
            &&& block.data.height.0 > 0 && !orphans::too_far_ahead(block, tip_height) && !known
                && !waiting.blocks.contains_key(hash) ==> {
                &&& next.blocks.contains_key(hash)
                &&& next.blocks[hash] == (OrphanBlock { block, received_at: now })
                &&& next.children.contains_key(parent)
                &&& next.children[parent].last() == hash
                &&& forall|c: Digest| #[trigger]
                    next.children[parent].drop_last().contains(c) ==> waiting.children.contains_key(
                        parent,
                    ) && waiting.children[parent].contains(c)
            }
        }),
{
    pruning_stays_sound(waiting, now, tip_height, queue);
    let fresh = orphans::orphans_pruned(waiting, now, tip_height);
    let hash = block.data.hash;
    let parent = block.data.previous_hash;
    let next = orphans::orphan_cached(waiting, block, known, parent_known, now, tip_height);
    if !(block.data.height.0 == 0 || orphans::too_far_ahead(block, tip_height) || known
        || fresh.blocks.contains_key(hash)) {
        let rows = crate::ordered_map::rows_of(fresh.blocks);
        without_orphan_stays_sound(fresh, rows[0].0, queue);
        let room = if rows.len() >= orphans::MAX_ORPHAN_BLOCKS {
            orphans::without_orphan(fresh, rows[0].0)
        } else {
            fresh
        };
        assert(sound(room, queue));
        assert(!room.blocks.contains_key(hash));
        let siblings = if room.children.contains_key(parent) {
            room.children[parent]
        } else {
            Seq::empty()
        };
        let list = siblings.push(hash);
        assert(next.blocks == room.blocks.insert(hash, OrphanBlock { block, received_at: now }));
        assert(next.children == room.children.insert(parent, list));
        assert forall|i: int| 0 <= i < siblings.len() implies room.children[parent][i] == (
        #[trigger] siblings[i]) && room.children.contains_key(parent) && siblings[i] != hash
            && room.blocks.contains_key(siblings[i]) by {
            assert(room.blocks.contains_key(room.children[parent][i]));
        }
        assert(list.no_duplicates());
        assert forall|p: Digest, i: int|
            next.children.contains_key(p) && 0 <= i < next.children[p].len() implies (
        next.blocks.contains_key(#[trigger] next.children[p][i])
            && next.blocks[next.children[p][i]].block.data.previous_hash == p)
            && !queue.contains(next.children[p][i]) by {
            if p == parent {
                if i < siblings.len() {
                    assert(next.children[p][i] == siblings[i]);
                }
            } else {
                assert(next.children[p][i] == room.children[p][i]);
            }
        }
        let detached = queue.to_set();
        assert forall|h: Digest| #[trigger] next.blocks.contains_key(h) && !detached.contains(
            h,
        ) implies next.children.contains_key(next.blocks[h].block.data.previous_hash)
            && next.children[next.blocks[h].block.data.previous_hash].contains(h) by {
            let p = next.blocks[h].block.data.previous_hash;
            if h == hash {
                assert(list[siblings.len() as int] == h);
            } else {
                assert(room.blocks.contains_key(h));
                if p == parent {
                    let i = choose|i: int| 0 <= i < siblings.len() && siblings[i] == h;
                    assert(list[i] == h);
                }
            }
        }
        assert(next.waits_for_its_parent());
        assert forall|p: Digest| #[trigger] next.children.contains_key(p) implies
            next.children[p].no_duplicates() && next.children[p].len() > 0 by {
            if p != parent {
                assert(room.children.contains_key(p));
            }
        }
        assert(next.listed(detached));
        assert(sound(next, queue));
        assert(list.drop_last() =~= siblings);
        assert forall|c: Digest| #[trigger] siblings.contains(c) implies
            waiting.children.contains_key(parent) && waiting.children[parent].contains(c) by {
            assert(room.children[parent].contains(c));
            assert(fresh.children[parent].contains(c));
        }
    }
}

/// Handing a block out keeps what waits in order. The block neither waits nor is
/// in the queue any more, and when no block is left to hand out the queue is
/// empty.
pub proof fn handing_out_stays_sound(waiting: Waiting, parents: Seq<Digest>, queue: Seq<Digest>)
    requires
        sound(waiting, queue),
    ensures
        ({
            let (next, _, rest, block) = next_waiting(waiting, parents, queue);
            &&& sound(next, rest)
            &&& match block {
                Some(block) => !next.blocks.contains_key(block.data.hash) && !rest.contains(
                    block.data.hash,
                ),
                None => rest.len() == 0,
            }
        }),
    decreases parents.len(), queue.len(),
{
    if queue.len() > 0 {
        let child = queue[0];
        let rest = queue.skip(1);
        assert(rest.no_duplicates());
        assert forall|h: Digest| #[trigger] queue.contains(h) <==> rest.contains(h) || h
            == child by {
            if queue.contains(h) {
                let i = choose|i: int| 0 <= i < queue.len() && queue[i] == h;
                if i > 0 {
                    assert(rest[i - 1] == h);
                }
            }
            if rest.contains(h) {
                let i = choose|i: int| 0 <= i < rest.len() && rest[i] == h;
                assert(queue[i + 1] == h);
            }
        }
        assert(!rest.contains(child)) by {
            if rest.contains(child) {
                let i = choose|i: int| 0 <= i < rest.len() && rest[i] == child;
                assert(queue[i + 1] == queue[0]);
            }
        }
        let next = Waiting { blocks: waiting.blocks.remove(child), ..waiting };
        assert forall|p: Digest, i: int|
            next.children.contains_key(p) && 0 <= i < next.children[p].len() implies
            #[trigger] next.children[p][i] != child by {
            assert(!queue.contains(waiting.children[p][i]));
        }
        assert forall|h: Digest| #[trigger] next.blocks.contains_key(h)
            && !rest.to_set().contains(h) implies next.children.contains_key(
            next.blocks[h].block.data.previous_hash,
        ) && next.children[next.blocks[h].block.data.previous_hash].contains(h) by {
            assert(waiting.blocks.contains_key(h));
            assert(!queue.to_set().contains(h));
        }
        assert(sound(next, rest));
        if !waiting.blocks.contains_key(child) {
            assert(waiting.blocks.remove(child) =~= waiting.blocks);
            assert(next == waiting);
            handing_out_stays_sound(waiting, parents, rest);
        }
    } else if parents.len() > 0 {
        let parent = parents.last();
        if waiting.children.contains_key(parent) {
            let list = waiting.children[parent];
            let next = Waiting { children: waiting.children.remove(parent), ..waiting };
            assert forall|p: Digest, i: int|
                next.children.contains_key(p) && 0 <= i < next.children[p].len() implies !list.contains(
                #[trigger] next.children[p][i],
            ) by {
                let c = waiting.children[p][i];
                assert(waiting.blocks[c].block.data.previous_hash == p);
                if list.contains(c) {
                    let j = choose|j: int| 0 <= j < list.len() && list[j] == c;
                    assert(waiting.blocks[waiting.children[parent][j]].block.data.previous_hash
                        == parent);
                }
            }
            assert(next.waits_for_its_parent()) by {
                assert forall|p: Digest, i: int|
                    next.children.contains_key(p) && 0 <= i < next.children[p].len() implies (
                next.blocks.contains_key(#[trigger] next.children[p][i])
                    && next.blocks[next.children[p][i]].block.data.previous_hash == p) by {
                    assert(waiting.blocks.contains_key(waiting.children[p][i]));
                }
            }
            assert forall|h: Digest| #[trigger] next.blocks.contains_key(h)
                && !list.to_set().contains(h) implies next.children.contains_key(
                next.blocks[h].block.data.previous_hash,
            ) && next.children[next.blocks[h].block.data.previous_hash].contains(h) by {
                assert(waiting.blocks.contains_key(h));
                assert(!queue.to_set().contains(h));
                assert(waiting.blocks[h].block.data.previous_hash != parent);
            }
            assert(sound(next, list));
            handing_out_stays_sound(next, parents.drop_last(), list);
        } else {
            handing_out_stays_sound(waiting, parents.drop_last(), queue);
        }
    }
}

/// What waits after the list of a parent was taken, and the first `n` blocks of
/// it were handed out.
pub open spec fn handed_out(waiting: Waiting, parent: Digest, n: int) -> Waiting {
    let list = waiting.children[parent];
    Waiting {
        blocks: waiting.blocks.remove_keys(list.take(n).to_set()),
        children: waiting.children.remove(parent),
        ..waiting
    }
}

/// A block that waits and has not expired is handed out once its parent has come
/// in: the blocks that wait for the parent follow in the order of its list,
/// which the block is in. Whatever parents were added meanwhile come after them.
pub proof fn a_waiting_block_follows_its_parent(
    pool: &OrphanPool,
    hash: Digest,
    now: u64,
    tip_height: u64,
)
    requires
        pool.wf(),
        sound(pool@, Seq::empty()),
        pool@.blocks.contains_key(hash),
        !orphans::orphan_expired(pool@.blocks[hash], now, tip_height),
    ensures
        ({
            let parent = pool@.blocks[hash].block.data.previous_hash;
            let pruned = orphans::orphans_pruned(pool@, now, tip_height);
            let list = pruned.children[parent];
            &&& pruned.children.contains_key(parent)
            &&& list.contains(hash)
            &&& pruned.blocks.contains_key(hash) && pruned.blocks[hash] == pool@.blocks[hash]
            &&& next_waiting(pruned, seq![parent], Seq::empty()) == (
                handed_out(pruned, parent, 1),
                Seq::<Digest>::empty(),
                list.skip(1),
                Some(pruned.blocks[list[0]].block),
            )
            &&& forall|parents: Seq<Digest>, i: int|
                0 <= i < list.len() ==> #[trigger] next_waiting(
                    handed_out(pruned, parent, i),
                    parents,
                    list.skip(i),
                ) == (
                    handed_out(pruned, parent, i + 1),
                    parents,
                    list.skip(i + 1),
                    Some(pruned.blocks[list[i]].block),
                )
        }),
{
    let parent = pool@.blocks[hash].block.data.previous_hash;
    let pruned = orphans::orphans_pruned(pool@, now, tip_height);
    let list = pruned.children[parent];
    let none = Seq::<Digest>::empty();
    pruning_stays_sound(pool@, now, tip_height, none);
    orphans::pruning_takes_the_expired(pool, now, tip_height, none.to_set());
    assert(pruned.blocks.contains_key(hash));
    assert(!none.to_set().contains(hash));
    assert forall|parents: Seq<Digest>, i: int| 0 <= i < list.len() implies #[trigger] next_waiting(
        handed_out(pruned, parent, i),
        parents,
        list.skip(i),
    ) == (
        handed_out(pruned, parent, i + 1),
        parents,
        list.skip(i + 1),
        Some(pruned.blocks[list[i]].block),
    ) by {
        let here = handed_out(pruned, parent, i);
        let rest = list.skip(i);
        let (shorter, longer) = (list.take(i), list.take(i + 1));
        assert(rest[0] == list[i]);
        assert(rest.skip(1) =~= list.skip(i + 1));
        assert(pruned.blocks.contains_key(pruned.children[parent][i]));
        assert(!shorter.to_set().contains(list[i])) by {
            if shorter.contains(list[i]) {
                let j = choose|j: int| 0 <= j < shorter.len() && shorter[j] == list[i];
                assert(list[j] == list[i]);
            }
        }
        assert(here.blocks.contains_key(list[i]));
        assert(longer.to_set() =~= shorter.to_set().insert(list[i])) by {
            assert(longer =~= shorter.push(list[i]));
            assert forall|h: Digest| longer.contains(h) <==> shorter.contains(h) || h
                == list[i] by {
                if longer.contains(h) {
                    let j = choose|j: int| 0 <= j < longer.len() && longer[j] == h;
                    if j < i {
                        assert(shorter[j] == h);
                    }
                }
                if shorter.contains(h) {
                    let j = choose|j: int| 0 <= j < shorter.len() && shorter[j] == h;
                    assert(longer[j] == h);
                }
                if h == list[i] {
                    assert(longer[i] == h);
                }
            }
        }
        assert(here.blocks.remove(list[i]) =~= handed_out(pruned, parent, i + 1).blocks);
    }
    let taken = handed_out(pruned, parent, 0);
    assert(list.take(0).to_set() =~= Set::<Digest>::empty());
    assert(taken.blocks =~= pruned.blocks);
    assert(list.skip(0) =~= list);
    let parents = seq![parent];
    assert(parents.last() == parent);
    assert(parents.drop_last() =~= none);
    assert(next_waiting(taken, none, list.skip(0)) == next_waiting(pruned, parents, none));
}

/// The two nodes are on the same chain: they agree on all but the waiting blocks.
pub open spec fn same_chain(a: Node, b: Node) -> bool {
    &&& a.ledger == b.ledger
    &&& a.mempool@ == b.mempool@
    &&& a.mempool.limits() == b.mempool.limits()
    &&& a.mempool.chain() == b.mempool.chain()
    &&& a.storage@ == b.storage@
    &&& a.cache@ == b.cache@
    &&& a.fork_choice@ == b.fork_choice@
    &&& a.genesis_accounts == b.genesis_accounts
    &&& a.difficulty == b.difficulty
    &&& a.params == b.params
}

/// What an import awaits after `i` of its events, where `nodes` are the states of
/// the node before the events.
pub open spec fn stage_at(nodes: Seq<Node>, block: Block, events: Seq<Event>, i: int) -> Stage
    decreases i,
{
    if i <= 0 {
        Stage::Starting
    } else {
        import::awaiting(
            import::next_action(
                nodes[i - 1],
                block,
                stage_at(nodes, block, events, i - 1),
                events[i - 1],
            ),
        )
    }
}

/// The event with the number `i` was awaited when it came.
pub open spec fn awaited_at(nodes: Seq<Node>, block: Block, events: Seq<Event>, i: int) -> bool {
    import::expects(stage_at(nodes, block, events, i), events[i])
}

/// The event with the number `i` did to the node what it does.
pub open spec fn steps_at(
    nodes: Seq<Node>,
    block: Block,
    events: Seq<Event>,
    now: u64,
    i: int,
) -> bool {
    import::stepped(nodes[i], nodes[i + 1], block, events[i], now)
}

/// The events took the node through `nodes`.
pub open spec fn steps(nodes: Seq<Node>, block: Block, events: Seq<Event>, now: u64) -> bool {
    &&& nodes.len() == events.len() + 1
    &&& forall|i: int| 0 <= i < events.len() ==> #[trigger] steps_at(nodes, block, events, now, i)
}

/// The events took the import of a block from its start to its end, and the node
/// through `nodes`.
pub open spec fn is_import(nodes: Seq<Node>, block: Block, events: Seq<Event>, now: u64) -> bool {
    &&& events.len() > 0
    &&& steps(nodes, block, events, now)
    &&& forall|i: int| 0 <= i < events.len() ==> #[trigger] awaited_at(nodes, block, events, i)
    &&& stage_at(nodes, block, events, events.len() as int) == Stage::Finished
}

/// What came of an import.
pub open spec fn outcome(nodes: Seq<Node>, block: Block, events: Seq<Event>) -> Result<
    (),
    NodeError,
> {
    let last = events.len() - 1;
    match import::next_action(
        nodes[last],
        block,
        stage_at(nodes, block, events, last),
        events[last],
    ) {
        Action::Done(result) => result,
        _ => Ok(()),
    }
}

proof fn steps_go_alike(
    nodes: Seq<Node>,
    others: Seq<Node>,
    block: Block,
    events: Seq<Event>,
    now: u64,
    n: int,
)
    requires
        steps(nodes, block, events, now),
        steps(others, block, events, now),
        same_chain(nodes[0], others[0]),
        0 <= n <= events.len(),
    ensures
        same_chain(nodes[n], others[n]),
        stage_at(nodes, block, events, n) == stage_at(others, block, events, n),
        others[n].orphans == others[0].orphans,
    decreases n,
{
    if n > 0 {
        steps_go_alike(nodes, others, block, events, now, n - 1);
        assert(steps_at(nodes, block, events, now, n - 1));
        assert(steps_at(others, block, events, now, n - 1));
    }
}

/// The waiting blocks have no say in an import: two nodes on the same chain that
/// hear the same of a block from outside come to the same end, on the same
/// chain, each with the blocks that waited before.
pub proof fn imports_go_alike_whatever_waits(
    nodes: Seq<Node>,
    others: Seq<Node>,
    block: Block,
    events: Seq<Event>,
    now: u64,
)
    requires
        is_import(nodes, block, events, now),
        steps(others, block, events, now),
        same_chain(nodes[0], others[0]),
    ensures
        is_import(others, block, events, now),
        outcome(others, block, events) == outcome(nodes, block, events),
        same_chain(nodes.last(), others.last()),
        others.last().orphans == others[0].orphans,
{
    let n = events.len() as int;
    assert forall|i: int| 0 <= i < events.len() implies #[trigger] awaited_at(
        others,
        block,
        events,
        i,
    ) by {
        assert(awaited_at(nodes, block, events, i));
        steps_go_alike(nodes, others, block, events, now, i);
    }
    steps_go_alike(nodes, others, block, events, now, n - 1);
    steps_go_alike(nodes, others, block, events, now, n);
}

/// A block whose parent is not known, and which is not the first of a chain, is
/// not imported: nothing is asked of the outside, and the node stays as it was.
pub proof fn an_import_without_parent_ends_at_once(
    nodes: Seq<Node>,
    block: Block,
    events: Seq<Event>,
    now: u64,
)
    requires
        is_import(nodes, block, events, now),
        block.data.height.0 > 0,
        !nodes[0].fork_choice@.blocks.contains_key(block.data.previous_hash),
    ensures
        events.len() == 1,
        apply::is_orphan(outcome(nodes, block, events)),
        nodes.last().same_but_orphans(nodes[0]),
        nodes.last().orphans == nodes[0].orphans,
{
    assert(awaited_at(nodes, block, events, 0));
    let missing = Err(NodeError::ForkChoice(ForkChoiceError::MissingParent));
    assert(import::next_action(nodes[0], block, Stage::Starting, events[0]) == Action::Done(
        missing,
    ));
    assert(stage_at(nodes, block, events, 1) == Stage::Finished);
    assert(steps_at(nodes, block, events, now, 0));
    if events.len() > 1 {
        assert(awaited_at(nodes, block, events, 1));
    }
}

/// A block came to a node, and its import was begun and ended: `through` are the
/// states of the node around the events of the import.
pub open spec fn came(
    before: Node,
    through: Seq<Node>,
    after: Node,
    block: Block,
    events: Seq<Event>,
    now: u64,
) -> bool {
    let result = outcome(through, block, events);
    &&& through[0].wf()
    &&& through[0].same_but_orphans(before)
    &&& through[0].orphans@ == orphans::orphans_pruned(before.orphans@, now, before.height_spec())
    &&& is_import(through, block, events, now)
    &&& after.wf()
    &&& after.same_but_orphans(through.last())
    &&& after.orphans@ == if result is Ok {
        orphans::orphans_pruned(through.last().orphans@, now, through.last().height_spec())
    } else if apply::is_orphan(result) {
        through.last().cached_spec(block, now)
    } else {
        through.last().orphans@
    }
}

/// A block that comes before its parent is no failure. It changes nothing but
/// that it waits: the node stays on its chain, and what waits in order.
pub proof fn a_block_before_its_parent_waits(
    before: Node,
    through: Seq<Node>,
    after: Node,
    block: Block,
    events: Seq<Event>,
    now: u64,
)
    requires
        came(before, through, after, block, events, now),
        sound(before.orphans@, Seq::empty()),
        block.data.height.0 > 0,
        !before.fork_choice@.blocks.contains_key(block.data.previous_hash),
    ensures
        apply::settled(outcome(through, block, events)) is Ok,
        after.same_but_orphans(before),
        sound(after.orphans@, Seq::empty()),
        !orphans::too_far_ahead(block, before.height_spec())
            && !before.fork_choice@.blocks.contains_key(block.data.hash)
            && !before.orphans@.blocks.contains_key(block.data.hash) ==> {
            let list = after.orphans@.children[block.data.previous_hash];
            &&& after.orphans@.blocks.contains_key(block.data.hash)
            &&& after.orphans@.blocks[block.data.hash] == (OrphanBlock { block, received_at: now })
            &&& after.orphans@.children.contains_key(block.data.previous_hash)
            &&& list.last() == block.data.hash
            &&& forall|c: Digest| #[trigger]
                list.drop_last().contains(c) ==> before.orphans@.children.contains_key(
                    block.data.previous_hash,
                ) && before.orphans@.children[block.data.previous_hash].contains(c)
        },
{
    let none = Seq::<Digest>::empty();
    an_import_without_parent_ends_at_once(through, block, events, now);
    pruning_stays_sound(before.orphans@, now, before.height_spec(), none);
    let pruned = through[0].orphans@;
    caching_stays_sound(
        pruned,
        block,
        before.fork_choice@.blocks.contains_key(block.data.hash),
        false,
        now,
        before.height_spec(),
        none,
    );
}

proof fn one_is_removed(blocks: Map<Digest, OrphanBlock>, hash: Digest)
    ensures
        blocks.remove_keys(seq![hash].to_set()) == blocks.remove(hash),
{
    let one = seq![hash];
    assert(one[0] == hash);
    assert(one.to_set() =~= set![hash]);
    assert(blocks.remove_keys(one.to_set()) =~= blocks.remove(hash));
}

/// The order in which a block and its parent come does not matter. In order the
/// parent is taken in, and the child's import follows. The other way round the
/// child waits; the parent is taken in all the same; then the child, and nothing
/// else, is handed out. If the outside answers its import as it did in order, it
/// comes to the same end, and leaves the node on the same chain.
pub proof fn either_order_ends_alike(
    before: Node,
    parent: Block,
    child: Block,
    parent_events: Seq<Event>,
    child_events: Seq<Event>,
    now: u64,
    parent_first: Seq<Node>,
    between: Node,
    child_second: Seq<Node>,
    then: u64,
    early_events: Seq<Event>,
    child_first: Seq<Node>,
    waited: Node,
    parent_second: Seq<Node>,
    after: Node,
)
    requires
        sound(before.orphans@, Seq::empty()),
        child.data.height.0 > 0,
        child.data.previous_hash == parent.data.hash,
        !before.fork_choice@.blocks.contains_key(parent.data.hash),
        !before.fork_choice@.blocks.contains_key(child.data.hash),
        !before.orphans@.blocks.contains_key(child.data.hash),
        !before.orphans@.children.contains_key(parent.data.hash),
        !orphans::too_far_ahead(child, before.height_spec()),
        came(before, parent_first, between, parent, parent_events, now),
        outcome(parent_first, parent, parent_events) is Ok,
        !orphans::too_far_ahead(child, between.height_spec()),
        child_second[0].same_but_orphans(between),
        is_import(child_second, child, child_events, now),
        came(before, child_first, waited, child, early_events, then),
        came(waited, parent_second, after, parent, parent_events, now),
        now <= then + orphans::ORPHAN_BLOCK_TTL_SECS,
    ensures
        apply::settled(outcome(child_first, child, early_events)) is Ok,
        waited.same_but_orphans(before),
        waited.orphans@.blocks.contains_key(child.data.hash),
        outcome(parent_second, parent, parent_events) is Ok,
        ({
            let (left, parents, children, handed) = next_waiting(
                after.orphans@,
                seq![parent.data.hash],
                Seq::empty(),
            );
            &&& handed == Some(child)
            &&& parents.len() == 0 && children.len() == 0
            &&& left.blocks == after.orphans@.blocks.remove(child.data.hash)
        }),
        forall|last: Seq<Node>|
            last.len() > 0 && last[0].same_but_orphans(after) && #[trigger] steps(
                last,
                child,
                child_events,
                now,
            ) ==> {
                &&& is_import(last, child, child_events, now)
                &&& outcome(last, child, child_events) == outcome(
                    child_second,
                    child,
                    child_events,
                )
                &&& same_chain(last.last(), child_second.last())
            },
{
    let none = Seq::<Digest>::empty();
    let hash = child.data.hash;
    a_block_before_its_parent_waits(before, child_first, waited, child, early_events, then);
    let list = waited.orphans@.children[parent.data.hash];
    assert(list.drop_last().len() == 0) by {
        if list.drop_last().len() > 0 {
            assert(list.drop_last().contains(list.drop_last()[0]));
        }
    }
    assert(same_chain(parent_first[0], parent_second[0]));
    imports_go_alike_whatever_waits(parent_first, parent_second, parent, parent_events, now);
    // Neither of the two prunings takes the child.
    let begun = parent_second[0].orphans;
    orphans::pruning_takes_the_expired(&waited.orphans, now, waited.height_spec(), none.to_set());
    pruning_stays_sound(waited.orphans@, now, waited.height_spec(), none);
    assert(begun@.blocks.contains_key(hash));
    assert(parent_second.last().height_spec() == between.height_spec());
    a_waiting_block_follows_its_parent(&begun, hash, now, between.height_spec());
    pruning_stays_sound(begun@, now, between.height_spec(), none);
    let follow = after.orphans@.children[parent.data.hash];
    assert(follow.len() == 1 && follow[0] == hash) by {
        assert forall|i: int| 0 <= i < follow.len() implies #[trigger] follow[i] == hash by {
            assert(follow.contains(follow[i]));
            assert(begun@.children[parent.data.hash].contains(follow[i]));
            assert(list.contains(follow[i]));
        }
        if follow.len() > 1 {
            assert(follow[0] != follow[1]);
        }
    }
    assert(follow.skip(1).len() == 0);
    assert(follow.take(1) =~= seq![hash]);
    one_is_removed(after.orphans@.blocks, hash);
    assert forall|last: Seq<Node>|
        last.len() > 0 && last[0].same_but_orphans(after) && #[trigger] steps(
            last,
            child,
            child_events,
            now,
        ) implies {
        &&& is_import(last, child, child_events, now)
        &&& outcome(last, child, child_events) == outcome(child_second, child, child_events)
        &&& same_chain(last.last(), child_second.last())
    } by {
        assert(same_chain(child_second[0], last[0]));
        imports_go_alike_whatever_waits(child_second, last, child, child_events, now);
    }
}

} // verus!
