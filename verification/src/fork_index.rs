//! The blocks that the fork choice knows.

use crate::ordered_map::OrderedMap;
use crate::types::{Block, BlockHash, Digest};
use vstd::prelude::*;

verus! {

/// The known blocks by hash, and the tip that the fork choice prefers.
#[derive(Clone, Debug, PartialEq, Eq)]
pub struct ForkIndex {
    nodes: OrderedMap<Digest, Block>,
    best_tip: Option<Digest>,
}

/// What is known.
#[verifier::ext_equal]
pub struct Known {
    pub blocks: Map<Digest, Block>,
    pub best_tip: Option<Digest>,
}

impl Known {
    /// A block more, after which `best_tip` is preferred.
    pub open spec fn with_block(self, block: Block, best_tip: Option<Digest>) -> Known {
        Known { blocks: self.blocks.insert(block.data.hash, block), best_tip }
    }
}

impl View for ForkIndex {
    type V = Known;

    closed spec fn view(&self) -> Known {
        Known { blocks: self.nodes@, best_tip: self.best_tip }
    }
}

impl ForkIndex {
    /// The blocks lie in key order.
    pub closed spec fn wf(&self) -> bool {
        self.nodes.wf()
    }

    /// Nothing is known.
    pub fn new() -> (r: Self)
        ensures
            r.wf(),
            r@.blocks == Map::<Digest, Block>::empty(),
            r@.best_tip is None,
    {
        ForkIndex { nodes: OrderedMap::new(), best_tip: None }
    }

    /// Notes a block that the fork choice took in, and the tip that it prefers
    /// since.
    pub fn insert(&mut self, block: &Block, best_tip: Option<BlockHash>)
        requires
            old(self).wf(),
        ensures
            final(self).wf(),
            final(self)@ == old(self)@.with_block(*block, best_tip),
    {
        self.nodes.insert(block.hash(), block.clone());
        self.best_tip = best_tip;
    }

    /// Whether a block is known.
    pub fn contains(&self, hash: &BlockHash) -> (r: bool)
        requires
            self.wf(),
        ensures
            r == self@.blocks.contains_key(*hash),
    {
        self.nodes.contains_key(hash)
    }

    /// A known block.
    pub fn get(&self, hash: &BlockHash) -> (r: Option<Block>)
        requires
            self.wf(),
        ensures
            r == if self@.blocks.contains_key(*hash) {
                Some(self@.blocks[*hash])
            } else {
                None
            },
    {
        match self.nodes.get(hash) {
            Some(block) => Some(block.clone()),
            None => None,
        }
    }

    /// The preferred tip.
    pub fn best_tip(&self) -> (r: Option<BlockHash>)
        ensures
            r == self@.best_tip,
    {
        self.best_tip
    }
}

} // verus!
