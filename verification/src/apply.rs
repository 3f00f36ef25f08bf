//! A block with the blocks that waited for it, and the blocks that the database
//! knows beside the active chain.

use crate::import::BlockImport;
use crate::ledger::{AccountMap, Ledger};
use crate::node::{self, Node, NodeError};
use crate::orphans::{self, Waiting};
use crate::params::ChainParams;
use crate::sort::{self, SortOrder};
use crate::storage::{Storage, StorageError};
use crate::tables::Rows;
use crate::types::{Block, BlockHash, Digest, ForkChoiceError, Height, LedgerError};
use std::sync::Arc;
use vstd::prelude::*;

verus! {

/// What an import means for whoever handed the block in: a block that waits for
/// its parent and a block that is known already are no failures.
pub open spec fn settled(result: Result<(), NodeError>) -> Result<(), NodeError> {
    match result {
        Err(NodeError::ForkChoice(ForkChoiceError::MissingParent)) => Ok(()),
        Err(NodeError::ForkChoice(ForkChoiceError::DuplicateBlock)) => Ok(()),
        Err(NodeError::Ledger(LedgerError::DuplicateBlock)) => Ok(()),
        Err(error) => Err(error),
        Ok(_) => Ok(()),
    }
}

/// The import found no parent.
pub open spec fn is_orphan(result: Result<(), NodeError>) -> bool {
    result matches Err(NodeError::ForkChoice(ForkChoiceError::MissingParent))
}

/// Parents whose waiting blocks may follow, and blocks that are about to.
#[derive(Debug)]
pub struct ImportQueue {
    pub parents: Vec<BlockHash>,
    pub children: Vec<BlockHash>,
}

/// The next waiting block that may follow: the first of those that are about to
/// and still wait or, when there is none left, of those of the last parent, and
/// so on. Beside it, what then waits and what is left to look at.
pub open spec fn next_waiting(waiting: Waiting, parents: Seq<Digest>, children: Seq<Digest>) -> (
    Waiting,
    Seq<Digest>,
    Seq<Digest>,
    Option<Block>,
)
    decreases parents.len(), children.len(),
{
    if children.len() > 0 {
        let child = children[0];
        if waiting.blocks.contains_key(child) {
            (
                Waiting { blocks: waiting.blocks.remove(child), ..waiting },
                parents,
                children.skip(1),
                Some(waiting.blocks[child].block),
            )
        } else {
            next_waiting(waiting, parents, children.skip(1))
        }
    } else if parents.len() > 0 {
        let parent = parents.last();
        if waiting.children.contains_key(parent) {
            next_waiting(
                Waiting { children: waiting.children.remove(parent), ..waiting },
                parents.drop_last(),
                waiting.children[parent],
            )
        } else {
            next_waiting(waiting, parents.drop_last(), children)
        }
    } else {
        (waiting, parents, children, None)
    }
}

impl Node {
    /// Begins the import of a block at the time `now`.
    pub fn begin_block(&mut self, block: Block, now: u64) -> (r: BlockImport)
        requires
            old(self).wf(),
        ensures
            final(self).wf(),
            final(self).orphans@ == orphans::orphans_pruned(
                old(self).orphans@,
                now,
                old(self).height_spec(),
            ),
            final(self).same_but_orphans(*old(self)),
            r.block == block,
            r.stage == crate::import::Stage::Starting,
    {
        self.prune_expired_orphans(now);
        BlockImport::new(block)
    }

    /// Ends the import of a block that was handed in. A block without a known
    /// parent waits; after another the blocks that waited for it may follow.
    pub fn settle_block(&mut self, block: Block, result: Result<(), NodeError>, now: u64) -> (r: (
        Result<(), NodeError>,
        ImportQueue,
    ))
        requires
            old(self).wf(),
        ensures
            final(self).wf(),
            final(self).same_but_orphans(*old(self)),
            r.0 == settled(result),
            final(self).orphans@ == if result is Ok {
                orphans::orphans_pruned(old(self).orphans@, now, old(self).height_spec())
            } else if is_orphan(result) {
                old(self).cached_spec(block, now)
            } else {
                old(self).orphans@
            },
            r.1.parents@ == if result is Ok {
                seq![block.data.hash]
            } else {
                Seq::empty()
            },
            r.1.children@ == Seq::<Digest>::empty(),
    {
        let mut queue = ImportQueue { parents: Vec::new(), children: Vec::new() };
        let outcome = match result {
            Ok(()) => {
                self.prune_expired_orphans(now);
                queue.parents.push(block.hash());
                assert(queue.parents@ =~= seq![block.data.hash]);
                Ok(())
            },
            Err(NodeError::ForkChoice(ForkChoiceError::MissingParent)) => {
                self.cache_orphan_block(block, now);
                Ok(())
            },
            Err(NodeError::ForkChoice(ForkChoiceError::DuplicateBlock)) => Ok(()),
            Err(NodeError::Ledger(LedgerError::DuplicateBlock)) => Ok(()),
            Err(error) => Err(error),
        };
        (outcome, queue)
    }

    /// Takes the next waiting block that may follow.
    pub fn next_orphan(&mut self, queue: &mut ImportQueue) -> (r: Option<Block>)
        requires
            old(self).wf(),
        ensures
            final(self).wf(),
            final(self).same_but_orphans(*old(self)),
            (
                final(self).orphans@,
                final(queue).parents@,
                final(queue).children@,
                r,
            ) == next_waiting(
                old(self).orphans@,
                old(queue).parents@,
                old(queue).children@,
            ),
    {
        let ghost start = *self;
        loop
            invariant
                self.wf(),
                start == *old(self),
                self.same_but_orphans(start),
                next_waiting(self.orphans@, queue.parents@, queue.children@) == next_waiting(
                    old(self).orphans@,
                    old(queue).parents@,
                    old(queue).children@,
                ),
            decreases queue.parents@.len(), queue.children@.len(),
        {
            if queue.children.len() > 0 {
                let ghost children = queue.children@;
                let child = queue.children.remove(0);
                proof {
                    assert(queue.children@ =~= children.skip(1));
                }
                let ghost waiting = self.orphans@;
                let taken = self.orphans.take_block(&child);
                match taken {
                    Some(block) => {
                        return Some(block);
                    },
                    None => {
                        proof {
                            assert(self.orphans@ =~= waiting) by {
                                assert(waiting.blocks.remove(child) =~= waiting.blocks);
                            }
                        }
                    },
                }
            } else {
                let ghost parents = queue.parents@;
                match queue.parents.pop() {
                    None => {
                        return None;
                    },
                    Some(parent) => {
                        proof {
                            assert(queue.parents@ =~= parents.drop_last());
                        }
                        let ghost waiting = self.orphans@;
                        match self.orphans.take_children(&parent) {
                            Some(list) => {
                                queue.children = list;
                            },
                            None => {
                                proof {
                                    assert(self.orphans@ =~= waiting) by {
                                        assert(waiting.children.remove(parent)
                                            =~= waiting.children);
                                    }
                                }
                            },
                        }
                    },
                }
            }
        }
    }

    /// Ends the import of a block that had waited. After a success the blocks
    /// that waited for it may follow; without a known parent it waits again; any
    /// other failure drops it.
    pub fn settle_orphan(
        &mut self,
        queue: &mut ImportQueue,
        block: Block,
        result: Result<(), NodeError>,
        now: u64,
    )
        requires
            old(self).wf(),
        ensures
            final(self).wf(),
            final(self).same_but_orphans(*old(self)),
            final(self).orphans@ == if is_orphan(result) {
                old(self).cached_spec(block, now)
            } else {
                old(self).orphans@
            },
            final(queue).parents@ == if result is Ok {
                old(queue).parents@.push(block.data.hash)
            } else {
                old(queue).parents@
            },
            final(queue).children@ == old(queue).children@,
    {
        match result {
            Ok(()) => {
                queue.parents.push(block.hash());
            },
            Err(NodeError::ForkChoice(ForkChoiceError::MissingParent)) => {
                self.cache_orphan_block(block, now);
            },
            Err(_) => {},
        }
    }
}

/// Blocks in the order of their heights.
pub struct ByHeight;

impl SortOrder<Block> for ByHeight {
    open spec fn before(a: Block, b: Block) -> bool {
        a.data.height.0 < b.data.height.0
    }

    proof fn irreflexive(a: Block) {
    }

    proof fn transitive(a: Block, b: Block, c: Block) {
    }

    proof fn negatively_transitive(a: Block, b: Block, c: Block) {
    }

    fn is_before(a: &Block, b: &Block) -> (r: bool) {
        a.height().0 < b.height().0
    }
}

/// Blocks that are to be made known to the fork choice: those still to look at
/// in this pass, those that found no parent in it, and whether it got on.
#[derive(Debug)]
pub struct StoredBlocks {
    pub pending: Vec<Block>,
    pub remaining: Vec<Block>,
    pub progressed: bool,
}

/// The next block that the fork choice does not know yet. A pass that got on is
/// followed by another over what it left.
pub open spec fn next_unknown(
    pending: Seq<Block>,
    remaining: Seq<Block>,
    progressed: bool,
    known: Map<Digest, Block>,
) -> (Seq<Block>, Seq<Block>, bool, Option<Block>)
    decreases pending.len() + remaining.len(), progressed as int, pending.len(),
{
    if pending.len() > 0 {
        if known.contains_key(pending[0].data.hash) {
            next_unknown(pending.skip(1), remaining, true, known)
        } else {
            (pending.skip(1), remaining, progressed, Some(pending[0]))
        }
    } else if progressed && remaining.len() > 0 {
        next_unknown(remaining, Seq::empty(), false, known)
    } else {
        (pending, remaining, progressed, None)
    }
}

impl StoredBlocks {
    /// All stored blocks, the lowest first.
    pub fn of_storage(storage: &Storage) -> (r: Result<Self, NodeError>)
        requires
            storage.wf(),
        ensures
            match crate::storage::blocks_in(
                crate::ordered_map::rows_of(storage@.blocks_by_hash),
            ) {
                Err(error) => r == Err::<StoredBlocks, NodeError>(NodeError::Storage(error)),
                Ok(blocks) => r matches Ok(stored) && stored.pending@ == sort::stable_sorted::<
                    Block,
                    ByHeight,
                >(blocks) && stored.remaining@ == Seq::<Block>::empty() && !stored.progressed,
            },
    {
        match storage.load_blocks_by_hash() {
            Err(error) => Err(NodeError::Storage(error)),
            Ok(blocks) => Ok(
                StoredBlocks {
                    pending: sort::stable_sort::<Block, ByHeight>(blocks),
                    remaining: Vec::new(),
                    progressed: false,
                },
            ),
        }
    }

    /// The next block to hand to the fork choice.
    pub fn next_block(&mut self, node: &Node) -> (r: Option<Block>)
        requires
            node.wf(),
        ensures
            (final(self).pending@, final(self).remaining@, final(self).progressed, r)
                == next_unknown(
                old(self).pending@,
                old(self).remaining@,
                old(self).progressed,
                node.fork_choice@.blocks,
            ),
    {
        loop
            invariant
                node.wf(),
                next_unknown(
                    self.pending@,
                    self.remaining@,
                    self.progressed,
                    node.fork_choice@.blocks,
                ) == next_unknown(
                    old(self).pending@,
                    old(self).remaining@,
                    old(self).progressed,
                    node.fork_choice@.blocks,
                ),
            decreases
                    self.pending@.len() + self.remaining@.len(),
                    self.progressed as int,
                    self.pending@.len(),
        {
            if self.pending.len() > 0 {
                let ghost pending = self.pending@;
                let block = self.pending.remove(0);
                proof {
                    assert(self.pending@ =~= pending.skip(1));
                }
                if node.fork_choice.contains(&block.hash()) {
                    self.progressed = true;
                } else {
                    return Some(block);
                }
            } else if self.progressed && self.remaining.len() > 0 {
                let ghost remaining = self.remaining@;
                let mut again: Vec<Block> = Vec::new();
                std::mem::swap(&mut again, &mut self.remaining);
                self.pending = again;
                self.progressed = false;
                proof {
                    assert(self.pending@ =~= remaining);
                    assert(self.remaining@ =~= Seq::<Block>::empty());
                }
            } else {
                return None;
            }
        }
    }

    /// Takes note of what the fork choice made of a block: it is known now, or
    /// it is put off to the next pass.
    pub fn settle(
        &mut self,
        node: &mut Node,
        block: Block,
        result: Result<(), ForkChoiceError>,
        best_tip: Option<BlockHash>,
    ) -> (r: Result<(), NodeError>)
        requires
            old(node).wf(),
        ensures
            final(node).wf(),
            final(node).ledger == old(node).ledger,
            final(node).mempool == old(node).mempool,
            final(node).storage == old(node).storage,
            final(node).cache == old(node).cache,
            final(node).orphans == old(node).orphans,
            final(node).genesis_accounts == old(node).genesis_accounts,
            final(node).difficulty == old(node).difficulty,
            final(node).params == old(node).params,
            final(node).fork_choice@ == if result is Ok {
                old(node).fork_choice@.with_block(block, best_tip)
            } else {
                old(node).fork_choice@
            },
            final(self).pending@ == old(self).pending@,
            final(self).remaining@ == if result == Err::<(), ForkChoiceError>(
                ForkChoiceError::MissingParent,
            ) {
                old(self).remaining@.push(block)
            } else {
                old(self).remaining@
            },
            final(self).progressed == (old(self).progressed || result is Ok),
            r == (match result {
                Ok(_) => Ok::<(), NodeError>(()),
                Err(ForkChoiceError::MissingParent) => Ok(()),
                Err(error) => Err(NodeError::ForkChoice(error)),
            }),
    {
        match result {
            Ok(()) => {
                node.fork_choice.insert(&block, best_tip);
                self.progressed = true;
                Ok(())
            },
            Err(ForkChoiceError::MissingParent) => {
                self.remaining.push(block);
                Ok(())
            },
            Err(error) => Err(NodeError::ForkChoice(error)),
        }
    }
}

/// Whether a database holds a chain to go on with.
pub fn has_stored_chain(storage: &Storage) -> (r: Result<bool, NodeError>)
    ensures
        r == (match crate::storage::tip_of(storage@) {
            Err(error) => Err::<bool, NodeError>(NodeError::Storage(error)),
            Ok(tip) => Ok(tip is Some),
        }),
{
    match storage.load_tip() {
        Err(error) => Err(NodeError::Storage(error)),
        Ok(tip) => Ok(tip.is_some()),
    }
}

/// The accounts of the beginning: those that the database holds or, where it
/// holds none, what the ledger shows of them.
pub fn genesis_accounts_of(storage: &Storage, ledger: &Ledger) -> (r: Result<
    Arc<AccountMap>,
    NodeError,
>)
    requires
        storage.wf(),
        ledger.wf(),
    ensures
        match storage@.genesis_accounts {
            Some(Ok(accounts)) => r == Ok::<Arc<AccountMap>, NodeError>(accounts),
            Some(Err(words)) => r == Err::<Arc<AccountMap>, NodeError>(
                NodeError::Storage(crate::storage::undecoded(words)),
            ),
            None => r matches Ok(accounts) && accounts.wf() && (if ledger.tip_height_spec() == Some(
                Height(0),
            ) {
                accounts == ledger.accounts
            } else {
                accounts.rows().len() == 0
            }),
        },
        r matches Ok(accounts) ==> accounts.wf(),
{
    match storage.load_genesis_accounts() {
        Err(error) => Err(NodeError::Storage(error)),
        Ok(Some(accounts)) => Ok(accounts),
        Ok(None) => {
            let accounts = node::initial_accounts(ledger);
            proof {
                crate::ordered_map::rows_are_entries(accounts.rows());
                if accounts.rows().len() > 0 {
                    assert(accounts@.contains_key(accounts.rows()[0].0));
                }
            }
            Ok(accounts)
        },
    }
}

/// What a database holds after a chain began on a ledger, and whether all of it
/// could be written.
pub open spec fn with_beginning(rows: Rows, ledger: Ledger) -> (Rows, bool) {
    let (stored, complete) = crate::storage::with_ledger(rows, ledger);
    if complete {
        (Rows { genesis_accounts: Some(Ok(ledger.accounts)), ..stored }, true)
    } else {
        (stored, false)
    }
}

/// A chain of one block that began in a database is stored there like any other
/// ledger, the accounts of the beginning with it.
pub proof fn a_beginning_is_a_saved_ledger(rows: Rows, ledger: Ledger)
    requires
        ledger.tip() matches Some(block) && block.data.height.0 == 0,
    ensures
        with_beginning(rows, ledger) == crate::storage::with_ledger(rows, ledger),
{
}

/// The ledger that a node starts from: the stored one or, where the database
/// holds no chain, the one after the first block of all, which is then stored.
/// `state_root` is the root of the stored accounts.
pub fn starting_ledger(
    storage: &mut Storage,
    state_root: Digest,
    genesis: Result<Ledger, LedgerError>,
) -> (r: Result<Ledger, NodeError>)
    requires
        old(storage).wf(),
        genesis matches Ok(ledger) ==> ledger.wf(),
    ensures
        final(storage).wf(),
        crate::storage::journaled(*old(storage), *final(storage)),
        r matches Ok(ledger) ==> ledger.wf(),
        match crate::storage::tip_of(old(storage)@) {
            Err(error) => r == Err::<Ledger, NodeError>(NodeError::Storage(error))
                && final(storage)@ == old(storage)@,
            Ok(Some(_)) => final(storage)@ == crate::storage::versioned(old(storage)@).0
                && match crate::storage::versioned(old(storage)@).1 {
                Err(error) => r == Err::<Ledger, NodeError>(NodeError::Storage(error)),
                Ok(_) => match crate::storage::ledger_in(final(storage)@) {
                    Err(error) => r == Err::<Ledger, NodeError>(NodeError::Storage(error)),
                    Ok((accounts, blocks)) => r matches Ok(ledger) && ledger.accounts@ == accounts
                        && ledger.blocks@ == blocks && ledger.state_root == state_root,
                },
            },
            Ok(None) => match genesis {
                Err(error) => r == Err::<Ledger, NodeError>(NodeError::Ledger(error))
                    && final(storage)@ == old(storage)@,
                Ok(ledger) => final(storage)@ == with_beginning(old(storage)@, ledger).0 && r
                    == if with_beginning(old(storage)@, ledger).1 {
                    Ok::<Ledger, NodeError>(ledger)
                } else {
                    Err(
                        NodeError::Storage(
                            StorageError::Integrity("transaction index exceeds u32"),
                        ),
                    )
                },
            },
        },
{
    proof {
        crate::storage::journaled_reflexive(*storage);
    }
    match storage.load_tip() {
        Err(error) => Err(NodeError::Storage(error)),
        Ok(Some(_)) => match storage.load_ledger(state_root) {
            Err(error) => Err(NodeError::Storage(error)),
            Ok(ledger) => Ok(ledger),
        },
        Ok(None) => match genesis {
            Err(error) => Err(NodeError::Ledger(error)),
            Ok(ledger) => match storage.save_ledger(&ledger) {
                Err(error) => Err(NodeError::Storage(error)),
                Ok(()) => {
                    let ghost saved = *storage;
                    storage.save_genesis_accounts(&ledger.accounts);
                    proof {
                        crate::storage::journaled_transitive(*old(storage), saved, *storage);
                    }
                    Ok(ledger)
                },
            },
        },
    }
}

impl Node {
    /// A node on the ledger that it starts from, with the accounts of the
    /// beginning that its database holds or its ledger shows.
    pub fn init_or_load(
        ledger: Ledger,
        storage: Storage,
        best_tip: Option<BlockHash>,
        difficulty: u32,
        params: ChainParams,
    ) -> (r: Result<Node, NodeError>)
        requires
            ledger.wf(),
            storage.wf(),
        ensures
            match r {
                Err(error) => storage@.genesis_accounts matches Some(Err(words)) && error
                    == NodeError::Storage(crate::storage::undecoded(words)),
                Ok(node) => node.wf() && node.begins_on(
                    ledger,
                    storage,
                    best_tip,
                    difficulty,
                    params,
                ) && match storage@.genesis_accounts {
                    Some(Ok(accounts)) => node.genesis_accounts == accounts,
                    Some(Err(_)) => false,
                    None => if ledger.tip_height_spec() == Some(Height(0)) {
                        node.genesis_accounts == ledger.accounts
                    } else {
                        node.genesis_accounts.rows().len() == 0
                    },
                },
            },
    {
        match genesis_accounts_of(&storage, &ledger) {
            Err(error) => Err(error),
            Ok(accounts) => Ok(
                Node::with_genesis_accounts(
                    ledger,
                    storage,
                    accounts,
                    best_tip,
                    difficulty,
                    params,
                ),
            ),
        }
    }
}

} // verus!
