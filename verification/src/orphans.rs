//! Blocks whose parents are not known, and the parents to ask for.

use crate::ordered_map::{self, OrderedMap};
use crate::types::{Block, BlockHash, Digest};
use vstd::prelude::*;

verus! {

/// How many blocks may wait for their parents.
pub const MAX_ORPHAN_BLOCKS: usize = 1024;

/// How far above the tip a waiting block may lie.
pub const MAX_ORPHAN_HEIGHT_DISTANCE: u64 = 512;

/// How long a block waits for its parent, in seconds.
pub const ORPHAN_BLOCK_TTL_SECS: u64 = 600;

/// How long the node waits before it asks for a parent again, in seconds.
pub const MISSING_PARENT_RETRY_SECS: u64 = 5;

/// A waiting block, and the time at which it came.
#[derive(Debug, PartialEq, Eq)]
pub struct OrphanBlock {
    pub block: Block,
    pub received_at: u64,
}

/// The waiting blocks by hash, the hashes of those that wait for a parent, and
/// the parents to ask for with the times from which on to ask.
#[derive(Debug, PartialEq, Eq)]
pub struct OrphanPool {
    blocks: OrderedMap<Digest, OrphanBlock>,
    children: OrderedMap<Digest, Vec<Digest>>,
    requests: Vec<Digest>,
    retry_at: OrderedMap<Digest, u64>,
}

/// What waits and what to ask for.
#[verifier::ext_equal]
pub struct Waiting {
    pub blocks: Map<Digest, OrphanBlock>,
    pub children: Map<Digest, Seq<Digest>>,
    pub requests: Seq<Digest>,
    pub retry_at: Map<Digest, u64>,
}

/// Lists by their contents.
pub open spec fn lists(m: Map<Digest, Vec<Digest>>) -> Map<Digest, Seq<Digest>> {
    Map::new(|p: Digest| m.contains_key(p), |p: Digest| m[p]@)
}

/// The sum, or the largest number where it does not fit.
pub open spec fn plus(a: u64, b: u64) -> u64 {
    if a + b > u64::MAX {
        u64::MAX
    } else {
        (a + b) as u64
    }
}

/// The block lies too far above the tip to wait.
pub open spec fn too_far_ahead(block: Block, tip_height: u64) -> bool {
    block.data.height.0 > plus(tip_height, MAX_ORPHAN_HEIGHT_DISTANCE)
}

/// The block has waited too long, or lies too far above the tip.
pub open spec fn orphan_expired(orphan: OrphanBlock, now: u64, tip_height: u64) -> bool {
    ||| now > orphan.received_at + ORPHAN_BLOCK_TTL_SECS
    ||| too_far_ahead(orphan.block, tip_height)
}

/// The list without `gone`.
pub open spec fn list_without(list: Seq<Digest>, gone: Digest) -> Seq<Digest>
    decreases list.len(),
{
    if list.len() == 0 {
        list
    } else {
        let earlier = list_without(list.drop_last(), gone);
        if list.last() == gone {
            earlier
        } else {
            earlier.push(list.last())
        }
    }
}

/// The lists without `gone`; a list that becomes empty leaves.
pub open spec fn children_without(
    children: Map<Digest, Seq<Digest>>,
    gone: Digest,
) -> Map<Digest, Seq<Digest>> {
    Map::new(
        |p: Digest| children.contains_key(p) && list_without(children[p], gone).len() > 0,
        |p: Digest| list_without(children[p], gone),
    )
}

/// What waits without one block.
pub open spec fn without_orphan(waiting: Waiting, hash: Digest) -> Waiting {
    Waiting {
        blocks: waiting.blocks.remove(hash),
        children: children_without(waiting.children, hash),
        ..waiting
    }
}

/// What waits without the first `n` of some blocks.
pub open spec fn without_orphans(waiting: Waiting, gone: Seq<Digest>, n: int) -> Waiting
    decreases n,
{
    if n <= 0 {
        waiting
    } else {
        without_orphan(without_orphans(waiting, gone, n - 1), gone[n - 1])
    }
}

/// The hashes of the rows whose blocks have to leave.
pub open spec fn expired_hashes(
    rows: Seq<(Digest, OrphanBlock)>,
    now: u64,
    tip_height: u64,
) -> Seq<Digest>
    decreases rows.len(),
{
    if rows.len() == 0 {
        Seq::empty()
    } else {
        let earlier = expired_hashes(rows.drop_last(), now, tip_height);
        if orphan_expired(rows.last().1, now, tip_height) {
            earlier.push(rows.last().0)
        } else {
            earlier
        }
    }
}

/// What waits after the blocks that have to leave have left.
pub open spec fn orphans_pruned(waiting: Waiting, now: u64, tip_height: u64) -> Waiting {
    let gone = expired_hashes(ordered_map::rows_of(waiting.blocks), now, tip_height);
    without_orphans(waiting, gone, gone.len() as int)
}

/// What to ask for after a request: the earlier of the times counts, and a
/// parent is asked for once.
pub open spec fn requested(waiting: Waiting, hash: Digest, retry_at: u64) -> Waiting {
    if waiting.retry_at.contains_key(hash) {
        Waiting {
            retry_at: waiting.retry_at.insert(
                hash,
                if waiting.retry_at[hash] < retry_at {
                    waiting.retry_at[hash]
                } else {
                    retry_at
                },
            ),
            ..waiting
        }
    } else {
        Waiting {
            requests: waiting.requests.push(hash),
            retry_at: waiting.retry_at.insert(hash, retry_at),
            ..waiting
        }
    }
}

/// What waits after a block whose parent is not known has come. `known` and
/// `parent_known` say whether the block itself and its parent are known.
pub open spec fn orphan_cached(
    waiting: Waiting,
    block: Block,
    known: bool,
    parent_known: bool,
    now: u64,
    tip_height: u64,
) -> Waiting {
    let fresh = orphans_pruned(waiting, now, tip_height);
    let hash = block.data.hash;
    let parent = block.data.previous_hash;
    if block.data.height.0 == 0 || too_far_ahead(block, tip_height) || known
        || fresh.blocks.contains_key(hash) {
        fresh
    } else {
        let rows = ordered_map::rows_of(fresh.blocks);
        let room = if rows.len() >= MAX_ORPHAN_BLOCKS {
            without_orphan(fresh, rows[0].0)
        } else {
            fresh
        };
        let asked = if parent_known {
            room
        } else {
            requested(room, parent, now)
        };
        let siblings = if asked.children.contains_key(parent) {
            asked.children[parent]
        } else {
            Seq::empty()
        };
        Waiting {
            blocks: asked.blocks.insert(hash, OrphanBlock { block, received_at: now }),
            children: asked.children.insert(parent, siblings.push(hash)),
            ..asked
        }
    }
}

/// The requests of which the time has come, in their order.
pub open spec fn ready(requests: Seq<Digest>, retry_at: Map<Digest, u64>, now: u64) -> Seq<Digest>
    decreases requests.len(),
{
    if requests.len() == 0 {
        requests
    } else {
        let earlier = ready(requests.drop_last(), retry_at, now);
        if retry_at[requests.last()] <= now {
            earlier.push(requests.last())
        } else {
            earlier
        }
    }
}

/// The requests of which the time has not come, in their order.
pub open spec fn not_ready(requests: Seq<Digest>, retry_at: Map<Digest, u64>, now: u64) -> Seq<
    Digest,
>
    decreases requests.len(),
{
    if requests.len() == 0 {
        requests
    } else {
        let earlier = not_ready(requests.drop_last(), retry_at, now);
        if retry_at[requests.last()] <= now {
            earlier
        } else {
            earlier.push(requests.last())
        }
    }
}

/// What to ask for after the requests of which the time has come are taken.
pub open spec fn drained(waiting: Waiting, now: u64) -> Waiting {
    Waiting {
        requests: not_ready(waiting.requests, waiting.retry_at, now),
        retry_at: Map::new(
            |h: Digest| waiting.retry_at.contains_key(h) && waiting.retry_at[h] > now,
            |h: Digest| waiting.retry_at[h],
        ),
        ..waiting
    }
}

/// Taking something out of a list leaves all else of it, each as often as before.
pub proof fn list_without_properties(list: Seq<Digest>, gone: Digest)
    ensures
        list_without(list, gone).len() <= list.len(),
        forall|c: Digest| #[trigger]
            list_without(list, gone).contains(c) <==> list.contains(c) && c != gone,
        list.no_duplicates() ==> list_without(list, gone).no_duplicates(),
    decreases list.len(),
{
    let out = list_without(list, gone);
    if list.len() > 0 {
        let earlier = list_without(list.drop_last(), gone);
        list_without_properties(list.drop_last(), gone);
        if list.no_duplicates() {
            assert(list.drop_last().no_duplicates());
            assert forall|a: int, b: int| 0 <= a < b < out.len() implies out[a] != out[b] by {
                if b == earlier.len() {
                    assert(earlier.contains(out[a]));
                    let j = choose|j: int|
                        0 <= j < list.drop_last().len() && list.drop_last()[j] == out[a];
                    assert(list[j] != list[list.len() - 1]);
                }
            }
        }
        assert forall|c: Digest| #[trigger] out.contains(c) <==> list.contains(c) && c != gone by {
            if out.contains(c) {
                let i = choose|i: int| 0 <= i < out.len() && out[i] == c;
                if i < earlier.len() {
                    assert(earlier[i] == c);
                    assert(earlier.contains(c));
                    let j = choose|j: int|
                        0 <= j < list.drop_last().len() && list.drop_last()[j] == c;
                    assert(list[j] == c);
                } else {
                    assert(list[list.len() - 1] == c);
                }
            }
            if list.contains(c) && c != gone {
                let j = choose|j: int| 0 <= j < list.len() && list[j] == c;
                if j < list.len() - 1 {
                    assert(list.drop_last()[j] == c);
                    assert(earlier.contains(c));
                    let i = choose|i: int| 0 <= i < earlier.len() && earlier[i] == c;
                    assert(out[i] == c);
                } else {
                    assert(out[out.len() - 1] == c);
                }
            }
        }
    }
}

proof fn not_ready_properties(requests: Seq<Digest>, retry_at: Map<Digest, u64>, now: u64)
    requires
        requests.no_duplicates(),
    ensures
        not_ready(requests, retry_at, now).no_duplicates(),
        forall|h: Digest| #[trigger]
            not_ready(requests, retry_at, now).contains(h) <==> requests.contains(h)
                && retry_at[h] > now,
    decreases requests.len(),
{
    let out = not_ready(requests, retry_at, now);
    if requests.len() > 0 {
        let short = requests.drop_last();
        let last = requests.last();
        let earlier = not_ready(short, retry_at, now);
        assert(short.no_duplicates());
        not_ready_properties(short, retry_at, now);
        assert(!short.contains(last)) by {
            if short.contains(last) {
                let i = choose|i: int| 0 <= i < short.len() && short[i] == last;
                assert(requests[i] == requests[requests.len() - 1]);
            }
        }
        assert forall|h: Digest| #[trigger] out.contains(h) <==> requests.contains(h)
            && retry_at[h] > now by {
            if out.contains(h) {
                let i = choose|i: int| 0 <= i < out.len() && out[i] == h;
                if i < earlier.len() {
                    assert(earlier[i] == h);
                    assert(earlier.contains(h));
                    let j = choose|j: int| 0 <= j < short.len() && short[j] == h;
                    assert(requests[j] == h);
                } else {
                    assert(requests[requests.len() - 1] == h);
                }
            }
            if requests.contains(h) && retry_at[h] > now {
                let j = choose|j: int| 0 <= j < requests.len() && requests[j] == h;
                if j < requests.len() - 1 {
                    assert(short[j] == h);
                    assert(earlier.contains(h));
                    let i = choose|i: int| 0 <= i < earlier.len() && earlier[i] == h;
                    assert(out[i] == h);
                } else {
                    assert(out[out.len() - 1] == h);
                }
            }
        }
        assert forall|a: int, b: int| 0 <= a < b < out.len() implies out[a] != out[b] by {
            if b == out.len() - 1 && retry_at[last] > now {
                assert(earlier[a] == out[a]);
                assert(earlier.contains(out[a]));
                assert(short.contains(out[a]));
            } else {
                assert(earlier[a] == out[a] && earlier[b] == out[b]);
            }
        }
    }
}

impl View for OrphanPool {
    type V = Waiting;

    closed spec fn view(&self) -> Waiting {
        Waiting {
            blocks: self.blocks@,
            children: lists(self.children@),
            requests: self.requests@,
            retry_at: self.retry_at@,
        }
    }
}

impl Waiting {
    /// What is listed under a parent is a block that waits for that parent.
    pub open spec fn waits_for_its_parent(self) -> bool {
        forall|p: Digest, i: int|
            self.children.contains_key(p) && 0 <= i < self.children[p].len()
                ==> self.blocks.contains_key(#[trigger] self.children[p][i])
                && self.blocks[self.children[p][i]].block.data.previous_hash == p
    }

    /// No list is empty, and each parent is asked for once and has a time.
    pub open spec fn consistent(self) -> bool {
        &&& forall|p: Digest| #[trigger]
            self.children.contains_key(p) ==> self.children[p].len() > 0
        &&& self.requests.no_duplicates()
        &&& forall|h: Digest|
            #![trigger self.requests.contains(h)]
            #![trigger self.retry_at.contains_key(h)]
            self.requests.contains(h) <==> self.retry_at.contains_key(h)
    }

    /// Every waiting block, unless it is `detached`, is listed under its parent.
    pub open spec fn listed(self, detached: Set<Digest>) -> bool {
        forall|h: Digest| #[trigger]
            self.blocks.contains_key(h) && !detached.contains(h) ==> self.children.contains_key(
                self.blocks[h].block.data.previous_hash,
            ) && self.children[self.blocks[h].block.data.previous_hash].contains(h)
    }
}

/// Taking a block out leaves no list that names it, and keeps what is listed.
pub proof fn without_orphan_keeps_lists(waiting: Waiting, hash: Digest, detached: Set<Digest>)
    requires
        waiting.waits_for_its_parent(),
    ensures
        without_orphan(waiting, hash).waits_for_its_parent(),
        waiting.listed(detached) ==> without_orphan(waiting, hash).listed(detached),
{
    let next = without_orphan(waiting, hash);
    assert forall|p: Digest, i: int|
        next.children.contains_key(p) && 0 <= i < next.children[p].len() implies (
    next.blocks.contains_key(#[trigger] next.children[p][i])
        && next.blocks[next.children[p][i]].block.data.previous_hash == p) by {
        list_without_properties(waiting.children[p], hash);
        let c = next.children[p][i];
        assert(list_without(waiting.children[p], hash).contains(c));
        assert(waiting.children[p].contains(c));
        let j = choose|j: int| 0 <= j < waiting.children[p].len() && waiting.children[p][j] == c;
        assert(waiting.blocks.contains_key(waiting.children[p][j]));
    }
    if waiting.listed(detached) {
        assert forall|h: Digest| #[trigger] next.blocks.contains_key(h) && !detached.contains(
            h,
        ) implies next.children.contains_key(next.blocks[h].block.data.previous_hash)
            && next.children[next.blocks[h].block.data.previous_hash].contains(h) by {
            let p = waiting.blocks[h].block.data.previous_hash;
            assert(waiting.blocks.contains_key(h));
            list_without_properties(waiting.children[p], hash);
            assert(list_without(waiting.children[p], hash).contains(h));
        }
    }
}

proof fn without_orphans_keeps_lists(
    waiting: Waiting,
    gone: Seq<Digest>,
    n: int,
    detached: Set<Digest>,
)
    requires
        waiting.waits_for_its_parent(),
        0 <= n <= gone.len(),
    ensures
        without_orphans(waiting, gone, n).waits_for_its_parent(),
        waiting.listed(detached) ==> without_orphans(waiting, gone, n).listed(detached),
        forall|h: Digest| #[trigger]
            without_orphans(waiting, gone, n).blocks.contains_key(h) <==> waiting.blocks.contains_key(
                h,
            ) && !gone.take(n).contains(h),
        forall|h: Digest| #[trigger]
            without_orphans(waiting, gone, n).blocks.contains_key(h) ==> without_orphans(
                waiting,
                gone,
                n,
            ).blocks[h] == waiting.blocks[h],
    decreases n,
{
    if n > 0 {
        without_orphans_keeps_lists(waiting, gone, n - 1, detached);
        let earlier = without_orphans(waiting, gone, n - 1);
        without_orphan_keeps_lists(earlier, gone[n - 1], detached);
        let (shorter, longer) = (gone.take(n - 1), gone.take(n));
        assert forall|h: Digest| #[trigger] longer.contains(h) <==> shorter.contains(h) || h
            == gone[n - 1] by {
            if longer.contains(h) {
                let j = choose|j: int| 0 <= j < longer.len() && longer[j] == h;
                if j < n - 1 {
                    assert(shorter[j] == h);
                }
            }
            if shorter.contains(h) {
                let j = choose|j: int| 0 <= j < shorter.len() && shorter[j] == h;
                assert(longer[j] == h);
            }
            if h == gone[n - 1] {
                assert(longer[n - 1] == h);
            }
        }
        assert forall|h: Digest| #[trigger] without_orphans(waiting, gone, n).blocks.contains_key(
            h,
        ) <==> waiting.blocks.contains_key(h) && !longer.contains(h) by {
            assert(earlier.blocks.contains_key(h) <==> waiting.blocks.contains_key(h)
                && !shorter.contains(h));
        }
    } else {
        assert(gone.take(n) =~= Seq::<Digest>::empty());
    }
}

proof fn expired_hashes_are_the_expired(
    rows: Seq<(Digest, OrphanBlock)>,
    now: u64,
    tip_height: u64,
    h: Digest,
)
    ensures
        expired_hashes(rows, now, tip_height).contains(h) <==> exists|i: int|
            0 <= i < rows.len() && (#[trigger] rows[i]).0 == h && orphan_expired(
                rows[i].1,
                now,
                tip_height,
            ),
    decreases rows.len(),
{
    let out = expired_hashes(rows, now, tip_height);
    if rows.len() > 0 {
        let short = rows.drop_last();
        let earlier = expired_hashes(short, now, tip_height);
        expired_hashes_are_the_expired(short, now, tip_height, h);
        if out.contains(h) {
            let k = choose|k: int| 0 <= k < out.len() && out[k] == h;
            if k < earlier.len() {
                assert(earlier[k] == h);
                assert(earlier.contains(h));
                let i = choose|i: int|
                    0 <= i < short.len() && (#[trigger] short[i]).0 == h && orphan_expired(
                        short[i].1,
                        now,
                        tip_height,
                    );
                assert(rows[i] == short[i]);
            } else {
                assert(rows[rows.len() - 1].0 == h);
            }
        }
        if exists|i: int|
            0 <= i < rows.len() && (#[trigger] rows[i]).0 == h && orphan_expired(
                rows[i].1,
                now,
                tip_height,
            ) {
            let i = choose|i: int|
                0 <= i < rows.len() && (#[trigger] rows[i]).0 == h && orphan_expired(
                    rows[i].1,
                    now,
                    tip_height,
                );
            if i < rows.len() - 1 {
                assert(short[i] == rows[i]);
                assert(earlier.contains(h));
                let k = choose|k: int| 0 <= k < earlier.len() && earlier[k] == h;
                assert(out[k] == h);
            } else {
                assert(out[out.len() - 1] == h);
            }
        }
    }
}

/// Pruning takes out exactly the blocks that have waited too long or lie too far
/// above the tip, and no list names one of them afterwards.
pub proof fn pruning_takes_the_expired(
    pool: &OrphanPool,
    now: u64,
    tip_height: u64,
    detached: Set<Digest>,
)
    requires
        pool.wf(),
        pool@.waits_for_its_parent(),
    ensures
        orphans_pruned(pool@, now, tip_height).waits_for_its_parent(),
        pool@.listed(detached) ==> orphans_pruned(pool@, now, tip_height).listed(detached),
        forall|h: Digest| #[trigger]
            orphans_pruned(pool@, now, tip_height).blocks.contains_key(h)
                <==> pool@.blocks.contains_key(h) && !orphan_expired(
                pool@.blocks[h],
                now,
                tip_height,
            ),
        forall|h: Digest| #[trigger]
            orphans_pruned(pool@, now, tip_height).blocks.contains_key(h) ==> orphans_pruned(
                pool@,
                now,
                tip_height,
            ).blocks[h] == pool@.blocks[h],
{
    let waiting = pool@;
    pool.is_consistent();
    let rows = pool.rows();
    ordered_map::rows_are_entries(rows);
    let gone = expired_hashes(rows, now, tip_height);
    let n = gone.len() as int;
    without_orphans_keeps_lists(waiting, gone, n, detached);
    assert(gone.take(n) =~= gone);
    assert forall|h: Digest| #[trigger] orphans_pruned(
        waiting,
        now,
        tip_height,
    ).blocks.contains_key(h) <==> waiting.blocks.contains_key(h) && !orphan_expired(
        waiting.blocks[h],
        now,
        tip_height,
    ) by {
        expired_hashes_are_the_expired(rows, now, tip_height, h);
        if waiting.blocks.contains_key(h) {
            assert(ordered_map::has_key(rows, h));
            let i = choose|i: int| ordered_map::key_at(rows, h, i);
            assert(rows[i].0 == h && rows[i].1 == waiting.blocks[h]);
            if gone.contains(h) {
                let k = choose|k: int|
                    0 <= k < rows.len() && (#[trigger] rows[k]).0 == h && orphan_expired(
                        rows[k].1,
                        now,
                        tip_height,
                    );
                assert(waiting.blocks[rows[k].0] == rows[k].1);
            }
        }
    }
}

impl OrphanPool {
    /// Maps lie in key order, what waits is consistent, and no more blocks wait
    /// than may.
    pub closed spec fn wf(&self) -> bool {
        &&& self.blocks.rows().len() <= MAX_ORPHAN_BLOCKS
        &&& self.blocks.wf()
        &&& self.children.wf()
        &&& self.retry_at.wf()
        &&& self@.consistent()
    }

    /// The blocks that wait, in the order of their hashes.
    pub closed spec fn rows(&self) -> Seq<(Digest, OrphanBlock)> {
        self.blocks.rows()
    }

    /// What is known of every well-formed pool.
    pub proof fn is_consistent(&self)
        requires
            self.wf(),
        ensures
            self@.consistent(),
            ordered_map::ascending(self.rows()),
            self.rows() == ordered_map::rows_of(self@.blocks),
            ordered_map::rows_map(self.rows()) == self@.blocks,
            self.rows().len() == self@.blocks.dom().len(),
            self@.blocks.dom().len() <= MAX_ORPHAN_BLOCKS,
    {
        ordered_map::rows_are_rows_of(self.rows());
        ordered_map::rows_count(self.rows());
    }

    /// Nothing waits.
    pub fn new() -> (r: Self)
        ensures
            r.wf(),
            r@.blocks == Map::<Digest, OrphanBlock>::empty(),
            r@.children == Map::<Digest, Seq<Digest>>::empty(),
            r@.requests == Seq::<Digest>::empty(),
            r@.retry_at == Map::<Digest, u64>::empty(),
    {
        let r = OrphanPool {
            blocks: OrderedMap::new(),
            children: OrderedMap::new(),
            requests: Vec::new(),
            retry_at: OrderedMap::new(),
        };
        assert(r@.children =~= Map::<Digest, Seq<Digest>>::empty());
        r
    }

    /// The number of waiting blocks.
    pub fn len(&self) -> (r: usize)
        requires
            self.wf(),
        ensures
            r == self@.blocks.dom().len(),
    {
        proof {
            self.is_consistent();
        }
        self.blocks.len()
    }

    /// Whether no block waits.
    pub fn is_empty(&self) -> (r: bool)
        requires
            self.wf(),
        ensures
            r == (self@.blocks == Map::<Digest, OrphanBlock>::empty()),
    {
        self.blocks.is_empty()
    }

    /// Whether no parent has a list of waiting blocks.
    pub fn has_no_lists(&self) -> (r: bool)
        requires
            self.wf(),
        ensures
            r == (self@.children == Map::<Digest, Seq<Digest>>::empty()),
    {
        proof {
            ordered_map::rows_are_entries(self.children.rows());
            if self.children.rows().len() > 0 {
                assert(self@.children.contains_key(self.children.rows()[0].0));
            } else {
                assert(self@.children =~= Map::<Digest, Seq<Digest>>::empty());
            }
        }
        self.children.len() == 0
    }

    /// Whether no parent has to be asked for.
    pub fn has_no_requests(&self) -> (r: bool)
        ensures
            r == (self@.requests.len() == 0),
    {
        self.requests.len() == 0
    }

    /// Whether a block waits.
    pub fn contains(&self, hash: &BlockHash) -> (r: bool)
        requires
            self.wf(),
        ensures
            r == self@.blocks.contains_key(*hash),
    {
        self.blocks.contains_key(hash)
    }

    /// Takes a block out of the lists.
    fn remove_orphan_index(&mut self, hash: BlockHash)
        requires
            old(self).blocks.wf(),
            old(self).children.wf(),
        ensures
            final(self).blocks == old(self).blocks,
            final(self).requests == old(self).requests,
            final(self).retry_at == old(self).retry_at,
            final(self).children.wf(),
            lists(final(self).children@) == children_without(lists(old(self).children@), hash),
    {
        let ghost before = lists(self.children@);
        let ghost rows = self.children.rows();
        proof {
            ordered_map::rows_are_entries(rows);
        }
        let mut kept: OrderedMap<Digest, Vec<Digest>> = OrderedMap::new();
        let mut i: usize = 0;
        while i < self.children.len()
            invariant
                rows == self.children.rows(),
                before == lists(self.children@),
                self.children.wf(),
                forall|j: int|
                    0 <= j < rows.len() ==> before.contains_key((#[trigger] rows[j]).0)
                        && before[rows[j].0] == rows[j].1@,
                i <= rows.len(),
                kept.wf(),
                forall|p: Digest| #[trigger]
                    kept@.contains_key(p) ==> before.contains_key(p) && kept@[p]@ == list_without(
                        before[p],
                        hash,
                    ) && kept@[p]@.len() > 0,
                forall|j: int|
                    0 <= j < i && list_without((#[trigger] rows[j]).1@, hash).len() > 0
                        ==> kept@.contains_key(rows[j].0),
            decreases rows.len() - i,
        {
            let parent = self.children.key(i);
            let list: &Vec<Digest> = self.children.value(i);
            let mut rest: Vec<Digest> = Vec::new();
            let mut k: usize = 0;
            while k < list.len()
                invariant
                        k <= list@.len(),
                    rest@ == list_without(list@.take(k as int), hash),
                decreases list@.len() - k,
            {
                let child = list[k];
                if !child.same(&hash) {
                    rest.push(child);
                }
                proof {
                    assert(list@.take(k + 1).drop_last() =~= list@.take(k as int));
                }
                k = k + 1;
            }
            proof {
                assert(list@.take(k as int) =~= list@);
                assert(before[rows[i as int].0] == rows[i as int].1@);
            }
            if rest.len() > 0 {
                kept.insert(parent, rest);
            }
            i = i + 1;
        }
        proof {
            assert(lists(kept@) =~= children_without(before, hash)) by {
                assert forall|p: Digest| before.contains_key(p) && list_without(
                    before[p],
                    hash,
                ).len() > 0 implies #[trigger] kept@.contains_key(p) by {
                    assert(self.children@.contains_key(p));
                    assert(ordered_map::has_key(rows, p));
                    let j = choose|j: int| ordered_map::key_at(rows, p, j);
                    assert(rows[j].0 == p);
                }
            }
        }
        self.children = kept;
    }

    /// Takes a block out.
    pub fn remove_orphan(&mut self, hash: BlockHash)
        requires
            old(self).wf(),
        ensures
            final(self).wf(),
            final(self)@ == without_orphan(old(self)@, hash),
            final(self).rows().len() == old(self).rows().len() - (
            if old(self)@.blocks.contains_key(hash) {
                1int
            } else {
                0int
            }),
    {
        self.remove_orphan_index(hash);
        self.blocks.remove(&hash);
    }

    /// Takes out the blocks that have waited too long or lie too far above the
    /// tip.
    pub fn prune_expired_orphans(&mut self, now: u64, tip_height: u64)
        requires
            old(self).wf(),
        ensures
            final(self).wf(),
            final(self)@ == orphans_pruned(old(self)@, now, tip_height),
    {
        let ghost rows = self.rows();
        let ghost start = self@;
        proof {
            self.is_consistent();
        }
        let mut expired: Vec<Digest> = Vec::new();
        let mut i: usize = 0;
        while i < self.blocks.len()
            invariant
                rows == self.rows(),
                i <= rows.len(),
                expired@ == expired_hashes(rows.take(i as int), now, tip_height),
            decreases rows.len() - i,
        {
            let orphan: &OrphanBlock = self.blocks.value(i);
            let late = now.saturating_sub(orphan.received_at) > ORPHAN_BLOCK_TTL_SECS;
            if late || is_too_far_ahead(&orphan.block, tip_height) {
                expired.push(self.blocks.key(i));
            }
            proof {
                assert(rows.take(i + 1).drop_last() =~= rows.take(i as int));
            }
            i = i + 1;
        }
        proof {
            assert(rows.take(i as int) =~= rows);
        }
        let mut k: usize = 0;
        while k < expired.len()
            invariant
                self.wf(),
                k <= expired@.len(),
                self@ == without_orphans(start, expired@, k as int),
            decreases expired@.len() - k,
        {
            self.remove_orphan(expired[k]);
            k = k + 1;
        }
    }

    /// Notes that a parent has to be asked for from a time on.
    pub fn request_at(&mut self, hash: BlockHash, retry_at: u64)
        requires
            old(self).wf(),
        ensures
            final(self).wf(),
            final(self)@ == requested(old(self)@, hash, retry_at),
            final(self).rows() == old(self).rows(),
    {
        let ghost before = self@;
        match self.retry_at.get(&hash) {
            Some(existing) => {
                let earlier: u64 = if *existing < retry_at {
                    *existing
                } else {
                    retry_at
                };
                self.retry_at.insert(hash, earlier);
                proof {
                    assert forall|h: Digest|
                        self@.requests.contains(h) <==> #[trigger] self@.retry_at.contains_key(
                            h,
                        ) by {
                        assert(before.retry_at.contains_key(h) == before.requests.contains(h));
                    }
                }
            },
            None => {
                self.retry_at.insert(hash, retry_at);
                self.requests.push(hash);
                proof {
                    assert(before.retry_at.contains_key(hash) == before.requests.contains(hash));
                    assert forall|h: Digest|
                        self@.requests.contains(h) <==> #[trigger] self@.retry_at.contains_key(
                            h,
                        ) by {
                        if before.requests.contains(h) {
                            let i = choose|i: int|
                                0 <= i < before.requests.len() && before.requests[i] == h;
                            assert(self@.requests[i] == h);
                        }
                        if h == hash {
                            assert(self@.requests[before.requests.len() as int] == h);
                        }
                        if self@.requests.contains(h) && h != hash {
                            let i = choose|i: int|
                                0 <= i < self@.requests.len() && self@.requests[i] == h;
                            assert(before.requests[i] == h);
                            assert(before.retry_at.contains_key(h));
                        }
                    }
                    assert(self@.requests.no_duplicates());
                }
            },
        }
        assert(self@.children == before.children);
    }

    /// The parents to ask for of which the time has come.
    pub fn drain_missing_parent_requests_at(&mut self, now: u64) -> (r: Vec<BlockHash>)
        requires
            old(self).wf(),
        ensures
            final(self).wf(),
            final(self)@ == drained(old(self)@, now),
            r@ == ready(old(self)@.requests, old(self)@.retry_at, now),
    {
        let ghost start = self@;
        let ghost requests = self.requests@;
        let ghost times = self.retry_at@;
        proof {
            assert forall|h: Digest| #[trigger] times.contains_key(h) <==> requests.contains(
                h,
            ) by {
                assert(start.retry_at.contains_key(h) == start.requests.contains(h));
            }
        }
        let mut taken: Vec<Digest> = Vec::new();
        let mut pending: Vec<Digest> = Vec::new();
        let mut i: usize = 0;
        while i < self.requests.len()
            invariant
                self.blocks == old(self).blocks,
                self.children == old(self).children,
                self.requests == old(self).requests,
                requests == self.requests@,
                self.retry_at.wf(),
                requests.no_duplicates(),
                forall|h: Digest| #[trigger]
                    times.contains_key(h) <==> requests.contains(h),
                i <= requests.len(),
                taken@ == ready(requests.take(i as int), times, now),
                pending@ == not_ready(requests.take(i as int), times, now),
                forall|h: Digest| #[trigger]
                    self.retry_at@.contains_key(h) <==> times.contains_key(h) && (times[h] > now
                        || !requests.take(i as int).contains(h)),
                forall|h: Digest| #[trigger]
                    self.retry_at@.contains_key(h) ==> self.retry_at@[h] == times[h],
            decreases requests.len() - i,
        {
            let hash = self.requests[i];
            let ghost shorter = requests.take(i as int);
            let ghost longer = requests.take(i + 1);
            proof {
                assert(longer.drop_last() =~= shorter);
                assert(longer.last() == hash);
                assert(requests.contains(hash));
                assert(!shorter.contains(hash)) by {
                    if shorter.contains(hash) {
                        let j = choose|j: int| 0 <= j < shorter.len() && shorter[j] == hash;
                        assert(requests[j] == requests[i as int]);
                    }
                }
                assert forall|h: Digest| longer.contains(h) <==> shorter.contains(h) || h
                    == hash by {
                    if longer.contains(h) {
                        let j = choose|j: int| 0 <= j < longer.len() && longer[j] == h;
                        if j < i {
                            assert(shorter[j] == h);
                        }
                    }
                    if shorter.contains(h) {
                        let j = choose|j: int| 0 <= j < shorter.len() && shorter[j] == h;
                        assert(longer[j] == h);
                    }
                    if h == hash {
                        assert(longer[i as int] == h);
                    }
                }
                assert(self.retry_at@.contains_key(hash));
            }
            let retry_at: u64 = match self.retry_at.get(&hash) {
                Some(time) => *time,
                None => 0,
            };
            if retry_at <= now {
                self.retry_at.remove(&hash);
                taken.push(hash);
            } else {
                pending.push(hash);
            }
            i = i + 1;
        }
        proof {
            assert(requests.take(i as int) =~= requests);
            not_ready_properties(requests, times, now);
            assert(self.retry_at@ =~= drained(start, now).retry_at);
        }
        self.requests = pending;
        taken
    }

    /// Takes the list of the blocks that wait for a parent.
    pub fn take_children(&mut self, parent: &BlockHash) -> (r: Option<Vec<BlockHash>>)
        requires
            old(self).wf(),
        ensures
            final(self).wf(),
            final(self)@ == (Waiting {
                children: old(self)@.children.remove(*parent),
                ..old(self)@
            }),
            match r {
                Some(list) => old(self)@.children.contains_key(*parent) && list@
                    == old(self)@.children[*parent],
                None => !old(self)@.children.contains_key(*parent),
            },
    {
        let ghost before = self@;
        let taken = self.children.remove(parent);
        proof {
            assert(self@.children =~= before.children.remove(*parent));
        }
        taken
    }

    /// Takes a waiting block.
    pub fn take_block(&mut self, hash: &BlockHash) -> (r: Option<Block>)
        requires
            old(self).wf(),
        ensures
            final(self).wf(),
            final(self)@ == (Waiting { blocks: old(self)@.blocks.remove(*hash), ..old(self)@ }),
            r == if old(self)@.blocks.contains_key(*hash) {
                Some(old(self)@.blocks[*hash].block)
            } else {
                None
            },
    {
        match self.blocks.remove(hash) {
            Some(orphan) => Some(orphan.block),
            None => None,
        }
    }

    /// Lets a block wait for its parent. `known` and `parent_known` say whether
    /// the block itself and its parent are known.
    pub fn cache_orphan_block(
        &mut self,
        block: Block,
        known: bool,
        parent_known: bool,
        now: u64,
        tip_height: u64,
    )
        requires
            old(self).wf(),
        ensures
            final(self).wf(),
            final(self)@ == orphan_cached(
                old(self)@,
                block,
                known,
                parent_known,
                now,
                tip_height,
            ),
    {
        self.prune_expired_orphans(now, tip_height);
        if block.height().0 == 0 || is_too_far_ahead(&block, tip_height) {
            return;
        }
        let hash = block.hash();
        let parent = block.previous_hash();
        if known || self.blocks.contains_key(&hash) {
            return;
        }
        proof {
            self.is_consistent();
        }
        if self.blocks.len() >= MAX_ORPHAN_BLOCKS {
            proof {
                ordered_map::rows_are_entries(self.rows());
                assert(self@.blocks.contains_key(self.rows()[0].0));
            }
            self.remove_orphan(self.blocks.key(0));
        }
        if !parent_known {
            self.request_at(parent, now);
        }
        let ghost asked = self@;
        let mut siblings: Vec<Digest> = match self.children.remove(&parent) {
            Some(list) => list,
            None => Vec::new(),
        };
        siblings.push(hash);
        self.children.insert(parent, siblings);
        self.blocks.insert(hash, OrphanBlock { block, received_at: now });
        proof {
            assert(self@.children =~= asked.children.insert(
                parent,
                (if asked.children.contains_key(parent) {
                    asked.children[parent]
                } else {
                    Seq::empty()
                }).push(hash),
            ));
        }
    }
}

/// Whether a block lies too far above the tip to wait.
pub fn is_too_far_ahead(block: &Block, tip_height: u64) -> (r: bool)
    ensures
        r == too_far_ahead(*block, tip_height),
{
    block.height().0 > tip_height.saturating_add(MAX_ORPHAN_HEIGHT_DISTANCE)
}

} // verus!
