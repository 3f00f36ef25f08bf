//! The state of the chain as the node reads it.

use crate::ordered_map::OrderedMap;
use crate::types::{Account, Address, Block, Digest, Height};
use std::sync::Arc;
use vstd::prelude::*;

verus! {

/// Accounts by address.
pub type AccountMap = OrderedMap<Address, Account>;

/// The accounts and the blocks of the active chain, with the root of the state.
#[derive(Clone, Debug, PartialEq, Eq)]
pub struct Ledger {
    pub accounts: Arc<AccountMap>,
    pub blocks: OrderedMap<Height, Block>,
    pub state_root: Digest,
}

impl Ledger {
    /// Accounts and blocks lie in key order.
    pub open spec fn wf(&self) -> bool {
        self.accounts.wf() && self.blocks.wf()
    }

    /// The last block of the chain.
    pub open spec fn tip(&self) -> Option<Block> {
        if self.blocks.rows().len() == 0 {
            None
        } else {
            Some(self.blocks.rows().last().1)
        }
    }

    /// The height of the last block.
    pub open spec fn tip_height_spec(&self) -> Option<Height> {
        match self.tip() {
            Some(block) => Some(block.data.height),
            None => None,
        }
    }

    /// The hash of the last block.
    pub open spec fn tip_hash_spec(&self) -> Option<Digest> {
        match self.tip() {
            Some(block) => Some(block.data.hash),
            None => None,
        }
    }

    /// The account at `address`.
    pub open spec fn account_spec(&self, address: Address) -> Option<Account> {
        if self.accounts@.contains_key(address) {
            Some(self.accounts@[address])
        } else {
            None
        }
    }

    /// A ledger without accounts and blocks.
    pub fn new(state_root: Digest) -> (r: Self)
        ensures
            r.wf(),
            r.accounts@ == Map::<Address, Account>::empty(),
            r.blocks@ == Map::<Height, Block>::empty(),
            r.blocks.rows().len() == 0,
            r.state_root == state_root,
    {
        Ledger { accounts: Arc::new(OrderedMap::new()), blocks: OrderedMap::new(), state_root }
    }

    /// The height of the last block.
    pub fn tip_height(&self) -> (r: Option<Height>)
        ensures
            r == self.tip_height_spec(),
    {
        if self.blocks.len() == 0 {
            None
        } else {
            Some(self.blocks.value(self.blocks.len() - 1).height())
        }
    }

    /// The hash of the last block.
    pub fn tip_hash(&self) -> (r: Option<Digest>)
        ensures
            r == self.tip_hash_spec(),
    {
        if self.blocks.len() == 0 {
            None
        } else {
            Some(self.blocks.value(self.blocks.len() - 1).hash())
        }
    }

    /// The account at `address`.
    pub fn account(&self, address: &Address) -> (r: Option<Account>)
        requires
            self.wf(),
        ensures
            r == self.account_spec(*address),
    {
        match self.accounts.get(address) {
            Some(account) => Some(*account),
            None => None,
        }
    }
}

} // verus!
