//! The plain values that the node works on.
//!
//! What only the consensus code of the chain can compute of a transaction or a
//! block (its hash, its serialized size, whether its signature holds) stands
//! beside it as a value.

use crate::order::{self, OrderedKey, Rank};
use std::sync::Arc;
use vstd::prelude::*;

pub use self::Digest as BlockHash;
pub use self::Digest as TransactionHash;
pub use self::Height as BlockHeight;

verus! {

/// The number of bytes of a hash.
pub const HASH_SIZE: usize = 64;

/// The number of bytes of an address.
pub const ADDRESS_SIZE: usize = 20;

/// The hash of a block, a transaction, a state or a merkle tree.
#[derive(Clone, Copy, Debug, PartialEq, Eq, PartialOrd, Ord, Hash)]
pub struct Digest(pub [u8; 64]);

/// The address of an account.
#[derive(Clone, Copy, Debug, PartialEq, Eq, PartialOrd, Ord, Hash)]
pub struct Address(pub [u8; 20]);

/// A number of coin units.
#[derive(Clone, Copy, Debug, PartialEq, Eq, Structural)]
pub struct Amount(pub u32);

/// The height of a block.
#[derive(Clone, Copy, Debug, PartialEq, Eq, Structural)]
pub struct Height(pub u64);

/// The count of an account's transactions, or the nonce of a block.
#[derive(Clone, Copy, Debug, PartialEq, Eq, Structural)]
pub struct Nonce(pub u64);

impl Digest {
    /// All bytes are zero.
    pub open spec fn is_zero_spec(self) -> bool {
        forall|i: int| 0 <= i < 64 ==> self.0@[i] == 0u8
    }

    /// Whether all bytes are zero.
    pub fn is_zero(&self) -> (r: bool)
        ensures
            r == self.is_zero_spec(),
    {
        let mut i: usize = 0;
        while i < 64
            invariant
                i <= 64,
                forall|j: int| 0 <= j < i ==> self.0@[j] == 0u8,
            decreases 64 - i,
        {
            if self.0[i] != 0 {
                return false;
            }
            i = i + 1;
        }
        true
    }

    /// The hash of 64 zero bytes.
    pub fn zero() -> (r: Self)
        ensures
            r.is_zero_spec(),
    {
        Digest([0u8;64])
    }

    /// Whether two hashes are equal.
    pub fn same(&self, other: &Self) -> (r: bool)
        ensures
            r == (*self == *other),
    {
        match self.rank(other) {
            Rank::Same => true,
            _ => false,
        }
    }
}

impl Address {
    /// Whether two addresses are equal.
    pub fn same(&self, other: &Self) -> (r: bool)
        ensures
            r == (*self == *other),
    {
        match self.rank(other) {
            Rank::Same => true,
            _ => false,
        }
    }
}

/// There is one zero hash.
pub proof fn zero_hash_is_unique(a: Digest, b: Digest)
    requires
        a.is_zero_spec(),
        b.is_zero_spec(),
    ensures
        a == b,
{
    assert(a.0 =~= b.0);
}

/// Hashes with the same bytes are equal.
pub proof fn hash_is_its_bytes(a: Digest, b: Digest)
    ensures
        a == b <==> a.0@ == b.0@,
{
    if a.0@ == b.0@ {
        assert(forall|i: int| 0 <= i < 64 ==> a.0@[i] == b.0@[i]);
        assert(a.0 =~= b.0);
    }
}

/// Addresses with the same bytes are equal.
pub proof fn address_is_its_bytes(a: Address, b: Address)
    ensures
        a == b <==> a.0@ == b.0@,
{
    if a.0@ == b.0@ {
        assert(forall|i: int| 0 <= i < 20 ==> a.0@[i] == b.0@[i]);
        assert(a.0 =~= b.0);
    }
}

/// The hash that 64 bytes spell.
pub fn hash_from_slice(bytes: &[u8]) -> (r: Option<Digest>)
    ensures
        match r {
            Some(hash) => bytes@.len() == 64 && hash.0@ == bytes@,
            None => bytes@.len() != 64,
        },
{
    if bytes.len() != 64 {
        return None;
    }
    let mut out: [u8; 64] = [0u8;64];
    let mut i: usize = 0;
    while i < 64
        invariant
            bytes@.len() == 64,
            i <= 64,
            forall|j: int| 0 <= j < i ==> out@[j] == bytes@[j],
        decreases 64 - i,
    {
        out[i] = bytes[i];
        i = i + 1;
    }
    assert(out@ =~= bytes@);
    Some(Digest(out))
}

/// The address that 20 bytes spell.
pub fn address_from_slice(bytes: &[u8]) -> (r: Option<Address>)
    ensures
        match r {
            Some(address) => bytes@.len() == 20 && address.0@ == bytes@,
            None => bytes@.len() != 20,
        },
{
    if bytes.len() != 20 {
        return None;
    }
    let mut out: [u8; 20] = [0u8;20];
    let mut i: usize = 0;
    while i < 20
        invariant
            bytes@.len() == 20,
            i <= 20,
            forall|j: int| 0 <= j < i ==> out@[j] == bytes@[j],
        decreases 20 - i,
    {
        out[i] = bytes[i];
        i = i + 1;
    }
    assert(out@ =~= bytes@);
    Some(Address(out))
}

impl OrderedKey for Digest {
    open spec fn precedes(self, other: Self) -> bool {
        order::lex_less(self.0@, other.0@)
    }

    proof fn irreflexive(a: Self) {
        order::lex_less_irreflexive(a.0@);
    }

    proof fn transitive(a: Self, b: Self, c: Self) {
        order::lex_less_transitive(a.0@, b.0@, c.0@);
    }

    fn rank(&self, other: &Self) -> (r: Rank) {
        proof {
            hash_is_its_bytes(*self, *other);
        }
        order::rank(self.0.as_slice(), other.0.as_slice())
    }
}

impl OrderedKey for Address {
    open spec fn precedes(self, other: Self) -> bool {
        order::lex_less(self.0@, other.0@)
    }

    proof fn irreflexive(a: Self) {
        order::lex_less_irreflexive(a.0@);
    }

    proof fn transitive(a: Self, b: Self, c: Self) {
        order::lex_less_transitive(a.0@, b.0@, c.0@);
    }

    fn rank(&self, other: &Self) -> (r: Rank) {
        proof {
            address_is_its_bytes(*self, *other);
        }
        order::rank(self.0.as_slice(), other.0.as_slice())
    }
}

impl OrderedKey for Height {
    open spec fn precedes(self, other: Self) -> bool {
        self.0 < other.0
    }

    proof fn irreflexive(a: Self) {
    }

    proof fn transitive(a: Self, b: Self, c: Self) {
    }

    fn rank(&self, other: &Self) -> (r: Rank) {
        if self.0 < other.0 {
            Rank::Before
        } else if other.0 < self.0 {
            Rank::After
        } else {
            Rank::Same
        }
    }
}

/// Why a transaction is refused. `Other` carries the code of a refusal that the
/// node does not tell apart.
#[derive(Clone, Copy, Debug, PartialEq, Eq, Structural)]
pub enum TransactionError {
    SenderAddressMismatch,
    InvalidSignature,
    Expired,
    FromFuture,
    Other(u32),
}

/// Why an account's state does not admit a transaction.
#[derive(Clone, Copy, Debug, PartialEq, Eq, Structural)]
pub enum StateError {
    InvalidNonce,
    BalanceOverflow,
    InsufficientBalance,
    Other(u32),
}

/// Why the ledger refuses a block or a transaction.
#[derive(Clone, Copy, Debug, PartialEq, Eq, Structural)]
pub enum LedgerError {
    AccountNotFound,
    DuplicateBlock,
    InvalidStateRoot,
    InvalidState(StateError),
    Other(u32),
}

/// Why a block is malformed.
#[derive(Clone, Copy, Debug, PartialEq, Eq, Structural)]
pub enum BlockError {
    FutureTimestamp,
    InvalidStateRoot,
    Other(u32),
}

/// Why the consensus rules refuse a block.
#[derive(Clone, Copy, Debug, PartialEq, Eq, Structural)]
pub enum ConsensusError {
    UnexpectedDifficulty,
    InvalidBlock(BlockError),
    Other(u32),
}

/// Why the fork choice refuses a block.
#[derive(Clone, Copy, Debug, PartialEq, Eq, Structural)]
pub enum ForkChoiceError {
    MissingParent,
    DuplicateBlock,
    Other(u32),
}

/// What a sender signs.
#[derive(Clone, Copy, Debug, PartialEq, Eq)]
pub struct Transaction {
    pub from: Address,
    pub to: Address,
    pub amount: Amount,
    pub fee: Amount,
    pub nonce: Nonce,
    pub timestamp: u64,
}

/// A signed transaction, with its hash, its serialized size and the outcome of
/// the signature check.
#[derive(Clone, Copy, Debug, PartialEq, Eq)]
pub struct SignedTransaction {
    pub transaction: Transaction,
    pub hash: Digest,
    pub size: usize,
    pub signed: Result<(), TransactionError>,
}

impl SignedTransaction {
    /// The hash of the transaction.
    pub fn hash(&self) -> (r: Digest)
        ensures
            r == self.hash,
    {
        self.hash
    }

    /// The number of bytes of the serialized transaction.
    pub fn serialized_size(&self) -> (r: usize)
        ensures
            r == self.size,
    {
        self.size
    }

    /// Whether sender and signature belong together.
    pub fn validate_signed(&self) -> (r: Result<(), TransactionError>)
        ensures
            r == self.signed,
    {
        self.signed
    }
}

/// An account as it stands at the tip of the chain: `available` and
/// `unspendable` are the parts of its balance that it may and may not spend
/// there, `credits` counts its credit entries.
#[derive(Clone, Copy, Debug, PartialEq, Eq)]
pub struct Account {
    pub address: Address,
    pub balance: Amount,
    pub nonce: Nonce,
    pub available: Amount,
    pub unspendable: Amount,
    pub credits: usize,
}

impl Account {
    /// An account that may spend its whole balance.
    pub fn new(address: Address, balance: Amount) -> (r: Self)
        ensures
            r == (Account {
                address,
                balance,
                nonce: Nonce(0),
                available: balance,
                unspendable: Amount(0),
                credits: 0,
            }),
    {
        Account {
            address,
            balance,
            nonce: Nonce(0),
            available: balance,
            unspendable: Amount(0),
            credits: 0,
        }
    }
}

/// What a block pays its miner.
#[derive(Clone, Copy, Debug, PartialEq, Eq)]
pub struct Coinbase {
    pub to: Address,
    pub subsidy: Amount,
    pub fees: Amount,
    pub total: Amount,
}

/// What the first block hands out.
#[derive(Clone, Copy, Debug, PartialEq, Eq)]
pub struct GenesisAllocation {
    pub to: Address,
    pub amount: Amount,
}

/// The contents of a block, with its hash, its serialized size and whether it
/// is the first block of the chain.
#[derive(Debug, PartialEq, Eq)]
pub struct BlockData {
    pub height: Height,
    pub previous_hash: Digest,
    pub merkle_root: Digest,
    pub state_root: Digest,
    pub miner_address: Address,
    pub difficulty: u32,
    pub timestamp: u64,
    pub nonce: Nonce,
    pub hash: Digest,
    pub size: usize,
    pub genesis: bool,
    pub coinbase: Option<Coinbase>,
    pub genesis_allocations: Vec<GenesisAllocation>,
    pub transactions: Vec<SignedTransaction>,
}

/// A block, shared by all that hold it.
#[derive(Debug, PartialEq, Eq)]
pub struct Block {
    pub data: Arc<BlockData>,
}

/// `Arc::clone`: another pointer to the same value. The contract says that both
/// point to equal values.
#[verifier::external_body]
pub(crate) fn share<T>(data: &Arc<T>) -> (r: Arc<T>)
    ensures
        r == *data,
{
    Arc::clone(data)
}

impl Clone for Block {
    fn clone(&self) -> (r: Self)
        ensures
            r == *self,
    {
        Block { data: share(&self.data) }
    }
}

impl Block {
    /// The block with these contents.
    pub fn new(data: BlockData) -> (r: Self)
        ensures
            *r.data == data,
    {
        Block { data: Arc::new(data) }
    }

    /// The height of the block.
    pub fn height(&self) -> (r: Height)
        ensures
            r == self.data.height,
    {
        self.data.height
    }

    /// The hash of the block.
    pub fn hash(&self) -> (r: Digest)
        ensures
            r == self.data.hash,
    {
        self.data.hash
    }

    /// The hash of the block's parent.
    pub fn previous_hash(&self) -> (r: Digest)
        ensures
            r == self.data.previous_hash,
    {
        self.data.previous_hash
    }

    /// The root of the state after the block.
    pub fn state_root(&self) -> (r: Digest)
        ensures
            r == self.data.state_root,
    {
        self.data.state_root
    }

    /// The address that the block pays.
    pub fn miner_address(&self) -> (r: Address)
        ensures
            r == self.data.miner_address,
    {
        self.data.miner_address
    }

    /// The number of leading zero bits that the block's work has to show.
    pub fn difficulty(&self) -> (r: u32)
        ensures
            r == self.data.difficulty,
    {
        self.data.difficulty
    }

    /// The time at which the block was made.
    pub fn timestamp(&self) -> (r: u64)
        ensures
            r == self.data.timestamp,
    {
        self.data.timestamp
    }

    /// Whether the block is the first of the chain.
    pub fn is_genesis(&self) -> (r: bool)
        ensures
            r == self.data.genesis,
    {
        self.data.genesis
    }

    /// The number of the block's transactions.
    pub fn transaction_count(&self) -> (r: usize)
        ensures
            r == self.data.transactions@.len(),
    {
        self.data.transactions.len()
    }

    /// The number of bytes of the serialized block.
    pub fn serialized_size(&self) -> (r: usize)
        ensures
            r == self.data.size,
    {
        self.data.size
    }

    /// The block's transaction at position `i`.
    pub fn transaction(&self, i: usize) -> (r: SignedTransaction)
        requires
            i < self.data.transactions@.len(),
        ensures
            r == self.data.transactions@[i as int],
    {
        self.data.transactions[i]
    }
}

} // verus!
