//! The accounts and blocks that the node keeps at hand.

use crate::ledger::Ledger;
use crate::ordered_map::OrderedMap;
use crate::types::{Account, Address, Block, BlockHash, BlockHeight, Digest, Height};
use vstd::prelude::*;

verus! {

/// Accounts by address, blocks by height and by hash, and the tip.
#[derive(Clone, Debug, PartialEq, Eq)]
pub struct CoreCache {
    accounts: OrderedMap<Address, Account>,
    blocks_by_height: OrderedMap<Height, Block>,
    blocks_by_hash: OrderedMap<Digest, Block>,
    tip_height: Option<Height>,
    tip_hash: Option<Digest>,
}

/// What a cache holds.
#[verifier::ext_equal]
pub struct Cached {
    pub accounts: Map<Address, Account>,
    pub blocks_by_height: Map<Height, Block>,
    pub blocks_by_hash: Map<Digest, Block>,
    pub tip_height: Option<Height>,
    pub tip_hash: Option<Digest>,
}

impl Cached {
    /// Nothing.
    pub open spec fn nothing() -> Cached {
        Cached {
            accounts: Map::empty(),
            blocks_by_height: Map::empty(),
            blocks_by_hash: Map::empty(),
            tip_height: None,
            tip_hash: None,
        }
    }

    /// An account more.
    pub open spec fn with_account(self, account: Account) -> Cached {
        Cached { accounts: self.accounts.insert(account.address, account), ..self }
    }

    /// A block more, which is the tip.
    pub open spec fn with_block(self, block: Block) -> Cached {
        Cached {
            blocks_by_height: self.blocks_by_height.insert(block.data.height, block),
            blocks_by_hash: self.blocks_by_hash.insert(block.data.hash, block),
            tip_height: Some(block.data.height),
            tip_hash: Some(block.data.hash),
            ..self
        }
    }

    /// The first `n` of some accounts more.
    pub open spec fn with_accounts(self, accounts: Seq<(Address, Account)>, n: int) -> Cached
        decreases n,
    {
        if n <= 0 {
            self
        } else {
            self.with_accounts(accounts, n - 1).with_account(accounts[n - 1].1)
        }
    }

    /// The first `n` of some blocks more.
    pub open spec fn with_blocks(self, blocks: Seq<(Height, Block)>, n: int) -> Cached
        decreases n,
    {
        if n <= 0 {
            self
        } else {
            self.with_blocks(blocks, n - 1).with_block(blocks[n - 1].1)
        }
    }

    /// A ledger's accounts and blocks.
    pub open spec fn of_ledger(ledger: Ledger) -> Cached {
        let accounts = ledger.accounts.rows();
        let blocks = ledger.blocks.rows();
        Cached {
            tip_height: ledger.tip_height_spec(),
            tip_hash: ledger.tip_hash_spec(),
            ..Cached::nothing().with_accounts(accounts, accounts.len() as int).with_blocks(
                blocks,
                blocks.len() as int,
            )
        }
    }
}

impl View for CoreCache {
    type V = Cached;

    closed spec fn view(&self) -> Cached {
        Cached {
            accounts: self.accounts@,
            blocks_by_height: self.blocks_by_height@,
            blocks_by_hash: self.blocks_by_hash@,
            tip_height: self.tip_height,
            tip_hash: self.tip_hash,
        }
    }
}

impl CoreCache {
    /// Accounts and blocks lie in key order.
    pub closed spec fn wf(&self) -> bool {
        self.accounts.wf() && self.blocks_by_height.wf() && self.blocks_by_hash.wf()
    }

    /// An empty cache.
    pub fn new() -> (r: Self)
        ensures
            r.wf(),
            r@ == Cached::nothing(),
    {
        CoreCache {
            accounts: OrderedMap::new(),
            blocks_by_height: OrderedMap::new(),
            blocks_by_hash: OrderedMap::new(),
            tip_height: None,
            tip_hash: None,
        }
    }

    /// A cache of a ledger.
    pub fn from_ledger(ledger: &Ledger) -> (r: Self)
        requires
            ledger.wf(),
        ensures
            r.wf(),
            r@ == Cached::of_ledger(*ledger),
    {
        let ghost accounts = ledger.accounts.rows();
        let ghost blocks = ledger.blocks.rows();
        let mut cache = CoreCache::new();
        let mut i: usize = 0;
        while i < ledger.accounts.len()
            invariant
                accounts == ledger.accounts.rows(),
                i <= accounts.len(),
                cache.wf(),
                cache@ == Cached::nothing().with_accounts(accounts, i as int),
            decreases accounts.len() - i,
        {
            cache.insert_account(*ledger.accounts.value(i));
            i = i + 1;
        }
        let ghost filled = cache@;
        let mut j: usize = 0;
        while j < ledger.blocks.len()
            invariant
                blocks == ledger.blocks.rows(),
                j <= blocks.len(),
                cache.wf(),
                cache@ == filled.with_blocks(blocks, j as int),
            decreases blocks.len() - j,
        {
            cache.insert_block(ledger.blocks.value(j).clone());
            j = j + 1;
        }
        cache.tip_height = ledger.tip_height();
        cache.tip_hash = ledger.tip_hash();
        cache
    }

    /// Keeps an account.
    pub fn insert_account(&mut self, account: Account)
        requires
            old(self).wf(),
        ensures
            final(self).wf(),
            final(self)@ == old(self)@.with_account(account),
    {
        self.accounts.insert(account.address, account);
    }

    /// The account at an address.
    pub fn account(&self, address: &Address) -> (r: Option<Account>)
        requires
            self.wf(),
        ensures
            r == if self@.accounts.contains_key(*address) {
                Some(self@.accounts[*address])
            } else {
                None
            },
    {
        match self.accounts.get(address) {
            Some(account) => Some(*account),
            None => None,
        }
    }

    /// Keeps a block, and takes it for the tip.
    pub fn insert_block(&mut self, block: Block)
        requires
            old(self).wf(),
        ensures
            final(self).wf(),
            final(self)@ == old(self)@.with_block(block),
    {
        let height = block.height();
        let hash = block.hash();
        self.blocks_by_height.insert(height, block.clone());
        self.blocks_by_hash.insert(hash, block);
        self.tip_height = Some(height);
        self.tip_hash = Some(hash);
    }

    /// The block at a height.
    pub fn block_by_height(&self, height: &BlockHeight) -> (r: Option<Block>)
        requires
            self.wf(),
        ensures
            r == if self@.blocks_by_height.contains_key(*height) {
                Some(self@.blocks_by_height[*height])
            } else {
                None
            },
    {
        match self.blocks_by_height.get(height) {
            Some(block) => Some(block.clone()),
            None => None,
        }
    }

    /// The block with a hash.
    pub fn block_by_hash(&self, hash: &BlockHash) -> (r: Option<Block>)
        requires
            self.wf(),
        ensures
            r == if self@.blocks_by_hash.contains_key(*hash) {
                Some(self@.blocks_by_hash[*hash])
            } else {
                None
            },
    {
        match self.blocks_by_hash.get(hash) {
            Some(block) => Some(block.clone()),
            None => None,
        }
    }

    /// The height of the tip.
    pub fn tip_height(&self) -> (r: Option<BlockHeight>)
        ensures
            r == self@.tip_height,
    {
        self.tip_height
    }

    /// The hash of the tip.
    pub fn tip_hash(&self) -> (r: Option<BlockHash>)
        ensures
            r == self@.tip_hash,
    {
        self.tip_hash
    }

    /// Drops everything.
    pub fn clear(&mut self)
        ensures
            final(self).wf(),
            final(self)@ == Cached::nothing(),
    {
        self.accounts.clear();
        self.blocks_by_height.clear();
        self.blocks_by_hash.clear();
        self.tip_height = None;
        self.tip_hash = None;
    }
}

} // verus!
