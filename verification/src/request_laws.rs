//! When blocks stop waiting for their parents, and which parents are asked for.

use crate::apply::{self, ByHeight};
use crate::node::NodeError;
use crate::orphans::{
    self, OrphanBlock, OrphanPool, Waiting, MAX_ORPHAN_BLOCKS, MAX_ORPHAN_HEIGHT_DISTANCE,
    ORPHAN_BLOCK_TTL_SECS,
};
use crate::sort;
use crate::types::{Block, Digest, ForkChoiceError, LedgerError};
use vstd::prelude::*;

verus! {

/// A block waits no longer than its time, and not above so many blocks over the
/// tip: those that do are gone, and all others stay as they are.
pub proof fn waiting_ends_after_its_time(pool: OrphanPool, now: u64, tip_height: u64, h: Digest)
    requires
        pool.wf(),
        pool@.waits_for_its_parent(),
        tip_height + MAX_ORPHAN_HEIGHT_DISTANCE <= u64::MAX,
    ensures
        ({
            let left = orphans::orphans_pruned(pool@, now, tip_height).blocks;
            &&& left.contains_key(h) <==> pool@.blocks.contains_key(h) && now
                <= pool@.blocks[h].received_at + ORPHAN_BLOCK_TTL_SECS
                && pool@.blocks[h].block.data.height.0 <= tip_height + MAX_ORPHAN_HEIGHT_DISTANCE
            &&& left.contains_key(h) ==> left[h] == pool@.blocks[h]
        }),
{
    orphans::pruning_takes_the_expired(&pool, now, tip_height, Set::empty());
}

proof fn removal_asks_nothing(waiting: Waiting, gone: Seq<Digest>, n: int)
    ensures
        orphans::without_orphans(waiting, gone, n).requests == waiting.requests,
        orphans::without_orphans(waiting, gone, n).retry_at == waiting.retry_at,
    decreases n,
{
    if n > 0 {
        removal_asks_nothing(waiting, gone, n - 1);
    }
}

/// A block that begins to wait is kept with the time of its coming. Its parent is
/// asked for at once if it is not known, and no other; what is asked for already
/// is asked for again no later than now. A block whose parent is known asks for
/// nothing. A block of height zero, too far above the tip, or known already, does
/// not wait.
pub proof fn a_missing_parent_is_asked_for(
    waiting: Waiting,
    block: Block,
    known: bool,
    parent_known: bool,
    now: u64,
    tip_height: u64,
)
    requires
        tip_height + MAX_ORPHAN_HEIGHT_DISTANCE <= u64::MAX,
    ensures
        ({
            let fresh = orphans::orphans_pruned(waiting, now, tip_height);
            let next = orphans::orphan_cached(
                waiting,
                block,
                known,
                parent_known,
                now,
                tip_height,
            );
            let hash = block.data.hash;
            let parent = block.data.previous_hash;
            let waits = block.data.height.0 > 0 && block.data.height.0 <= tip_height
                + MAX_ORPHAN_HEIGHT_DISTANCE && !known && !fresh.blocks.contains_key(hash);
            &&& !waits ==> next == fresh
            &&& waits ==> next.blocks.contains_key(hash) && next.blocks[hash] == (OrphanBlock {
                block,
                received_at: now,
            })
            &&& waits ==> next.children.contains_key(parent) && next.children[parent].last()
                == hash
            &&& waits && !parent_known ==> {
                &&& next.retry_at.contains_key(parent)
                &&& next.retry_at[parent] <= now
                &&& waiting.retry_at.contains_key(parent) ==> next.requests == waiting.requests
                    && next.retry_at[parent] <= waiting.retry_at[parent] && (
                next.retry_at[parent] == now || next.retry_at[parent] == waiting.retry_at[parent])
                &&& !waiting.retry_at.contains_key(parent) ==> next.requests
                    == waiting.requests.push(parent) && next.retry_at[parent] == now
            }
            &&& !waits || parent_known ==> next.requests == waiting.requests && next.retry_at
                == waiting.retry_at
            &&& forall|h: Digest|
                h != parent ==> (#[trigger] next.retry_at.contains_key(h)
                    <==> waiting.retry_at.contains_key(h)) && (waiting.retry_at.contains_key(h)
                    ==> next.retry_at[h] == waiting.retry_at[h])
        }),
{
    let gone = orphans::expired_hashes(
        crate::ordered_map::rows_of(waiting.blocks),
        now,
        tip_height,
    );
    removal_asks_nothing(waiting, gone, gone.len() as int);
}

/// When a block begins to wait, at most one other stops: none as long as there is
/// room, and the first in the order of hashes if there is not.
pub proof fn one_at_most_gives_way(
    waiting: Waiting,
    block: Block,
    known: bool,
    parent_known: bool,
    now: u64,
    tip_height: u64,
    h: Digest,
)
    requires
        h != block.data.hash,
    ensures
        ({
            let fresh = orphans::orphans_pruned(waiting, now, tip_height);
            let rows = crate::ordered_map::rows_of(fresh.blocks);
            let next = orphans::orphan_cached(
                waiting,
                block,
                known,
                parent_known,
                now,
                tip_height,
            );
            &&& next.blocks.contains_key(h) ==> fresh.blocks.contains_key(h) && next.blocks[h]
                == fresh.blocks[h]
            &&& fresh.blocks.contains_key(h) && !next.blocks.contains_key(h) ==> rows.len()
                >= MAX_ORPHAN_BLOCKS && h == rows[0].0
        }),
{
}

/// The requests that are due go out, in the order in which they came, and are
/// no longer asked for; those that are not stay, in that order, for their time.
pub proof fn requests_go_out_when_they_are_due(waiting: Waiting, now: u64, h: Digest)
    requires
        waiting.consistent(),
    ensures
        ({
            let out = orphans::ready(waiting.requests, waiting.retry_at, now);
            let left = orphans::drained(waiting, now);
            &&& out.contains(h) <==> waiting.requests.contains(h) && waiting.retry_at[h] <= now
            &&& left.requests.contains(h) <==> waiting.requests.contains(h)
                && waiting.retry_at[h] > now
            &&& left.retry_at.contains_key(h) <==> left.requests.contains(h)
            &&& left.retry_at.contains_key(h) ==> left.retry_at[h] == waiting.retry_at[h]
            &&& out.len() + left.requests.len() == waiting.requests.len()
            &&& left.blocks == waiting.blocks
            &&& left.children == waiting.children
        }),
{
    due_requests(waiting.requests, waiting.retry_at, now);
    let out = orphans::ready(waiting.requests, waiting.retry_at, now);
    let left = orphans::not_ready(waiting.requests, waiting.retry_at, now);
    assert(out.contains(h) <==> waiting.requests.contains(h) && waiting.retry_at[h] <= now);
    assert(waiting.requests.contains(h) <==> waiting.retry_at.contains_key(h));
    assert(left.contains(h) <==> waiting.requests.contains(h) && waiting.retry_at[h] > now);
}

proof fn due_requests(requests: Seq<Digest>, retry_at: Map<Digest, u64>, now: u64)
    ensures
        ({
            let out = orphans::ready(requests, retry_at, now);
            let left = orphans::not_ready(requests, retry_at, now);
            &&& out.len() + left.len() == requests.len()
            &&& forall|h: Digest| #[trigger]
                out.contains(h) <==> requests.contains(h) && retry_at[h] <= now
            &&& forall|h: Digest| #[trigger]
                left.contains(h) <==> requests.contains(h) && retry_at[h] > now
        }),
    decreases requests.len(),
{
    if requests.len() > 0 {
        let short = requests.drop_last();
        let last = requests.last();
        due_requests(short, retry_at, now);
        let out = orphans::ready(short, retry_at, now);
        let left = orphans::not_ready(short, retry_at, now);
        assert(short.push(last) =~= requests);
        assert forall|h: Digest| #[trigger] requests.contains(h) <==> short.contains(h) || h
            == last by {
            contains_one_more(short, last, h);
        }
        assert forall|h: Digest| #[trigger] orphans::ready(requests, retry_at, now).contains(
            h,
        ) <==> requests.contains(h) && retry_at[h] <= now by {
            contains_one_more(out, last, h);
            assert(requests.contains(h) <==> short.contains(h) || h == last);
            assert(out.contains(h) <==> short.contains(h) && retry_at[h] <= now);
        }
        assert forall|h: Digest| #[trigger] orphans::not_ready(requests, retry_at, now).contains(
            h,
        ) <==> requests.contains(h) && retry_at[h] > now by {
            contains_one_more(left, last, h);
            assert(requests.contains(h) <==> short.contains(h) || h == last);
            assert(left.contains(h) <==> short.contains(h) && retry_at[h] > now);
        }
    }
}

proof fn contains_one_more(list: Seq<Digest>, x: Digest, h: Digest)
    ensures
        list.push(x).contains(h) <==> list.contains(h) || h == x,
{
    let more = list.push(x);
    if list.contains(h) {
        let k = choose|k: int| 0 <= k < list.len() && list[k] == h;
        assert(more[k] == h);
    }
    assert(more[list.len() as int] == x);
    if more.contains(h) && h != x {
        let k = choose|k: int| 0 <= k < more.len() && more[k] == h;
        assert(list[k] == h);
    }
}

/// A block that the node has already, or whose parent it lacks, is no failure;
/// every other refusal is one, and is told as it came.
pub proof fn only_a_real_refusal_is_told(result: Result<(), NodeError>)
    ensures
        ({
            let excused = result == Err::<(), NodeError>(
                NodeError::ForkChoice(ForkChoiceError::MissingParent),
            ) || result == Err::<(), NodeError>(
                NodeError::ForkChoice(ForkChoiceError::DuplicateBlock),
            ) || result == Err::<(), NodeError>(NodeError::Ledger(LedgerError::DuplicateBlock));
            &&& excused ==> apply::settled(result) is Ok
            &&& !excused && result is Err ==> apply::settled(result) == result
            &&& result is Ok ==> apply::settled(result) is Ok
            &&& apply::is_orphan(result) <==> result == Err::<(), NodeError>(
                NodeError::ForkChoice(ForkChoiceError::MissingParent),
            )
        }),
{
}

/// The blocks of a store come back from the bottom up, each once.
pub proof fn stored_blocks_come_from_the_bottom_up(blocks: Seq<Block>)
    ensures
        ({
            let out = sort::stable_sorted::<Block, ByHeight>(blocks);
            &&& out.to_multiset() == blocks.to_multiset()
            &&& forall|i: int, j: int|
                0 <= i < j < out.len() ==> (#[trigger] out[i]).data.height.0 <= (
                #[trigger] out[j]).data.height.0
        }),
{
    sort::stable_sorted_is_permutation::<Block, ByHeight>(blocks);
    sort::stable_sorted_is_sorted::<Block, ByHeight>(blocks);
    let out = sort::stable_sorted::<Block, ByHeight>(blocks);
    assert forall|i: int, j: int| 0 <= i < j < out.len() implies (
    #[trigger] out[i]).data.height.0 <= (#[trigger] out[j]).data.height.0 by {
        assert(!<ByHeight as sort::SortOrder<Block>>::before(out[j], out[i]));
    }
}

/// The next block of a store that is put into the index is one that is not there
/// yet. There is none only when all that were left are there, or when a whole
/// round has found no parent for any.
pub proof fn the_next_stored_block_is_a_new_one(
    pending: Seq<Block>,
    remaining: Seq<Block>,
    progressed: bool,
    known: Map<Digest, Block>,
)
    ensures
        match apply::next_unknown(pending, remaining, progressed, known).3 {
            Some(block) => !known.contains_key(block.data.hash) && (pending.contains(block)
                || remaining.contains(block)),
            None => {
                &&& forall|i: int|
                    0 <= i < pending.len() ==> known.contains_key(
                        (#[trigger] pending[i]).data.hash,
                    )
                &&& progressed || pending.len() > 0 ==> forall|i: int|
                    0 <= i < remaining.len() ==> known.contains_key(
                        (#[trigger] remaining[i]).data.hash,
                    )
            },
        },
    decreases pending.len() + remaining.len(), progressed as int, pending.len(),
{
    if pending.len() > 0 {
        if known.contains_key(pending[0].data.hash) {
            let rest = pending.skip(1);
            the_next_stored_block_is_a_new_one(rest, remaining, true, known);
            match apply::next_unknown(pending, remaining, progressed, known).3 {
                Some(block) => {
                    if rest.contains(block) {
                        let k = choose|k: int| 0 <= k < rest.len() && rest[k] == block;
                        assert(pending[k + 1] == block);
                    }
                },
                None => {
                    assert forall|i: int| 0 <= i < pending.len() implies known.contains_key(
                        (#[trigger] pending[i]).data.hash,
                    ) by {
                        if i > 0 {
                            assert(rest[i - 1] == pending[i]);
                        }
                    }
                },
            }
        } else {
            assert(pending.contains(pending[0]));
        }
    } else if progressed && remaining.len() > 0 {
        the_next_stored_block_is_a_new_one(remaining, Seq::empty(), false, known);
    }
}

} // verus!
