//! The numbers that the node goes by.

use vstd::prelude::*;

verus! {

/// The version of the layout of the node's database.
pub const STORAGE_VERSION: u8 = 1;

/// How old a transaction may be when it is relayed, in seconds: one day.
pub const MAX_RELAY_TRANSACTION_AGE_SECS: u64 = 86_400;

/// How long a transaction below the market fee stays pending: half an hour.
pub const LOW_FEE_EXPIRY_SECS: u64 = 1_800;

/// How long a transaction stays pending: one day.
pub const MEMPOOL_EXPIRY_SECS: u64 = 86_400;

/// How many transactions may be pending.
pub const MAX_MEMPOOL_TXS: usize = 1_000;

/// How many bytes of transactions may be pending: ten mebibytes.
pub const MAX_MEMPOOL_BYTES: usize = 10_485_760;

/// How many bytes a message between nodes may have: eight mebibytes.
pub const MAX_NETWORK_MESSAGE_SIZE: usize = 8_388_608;

/// The usual fee of a transaction.
pub const BASE_FEE: u32 = 2;

/// The fee of a transaction whose sender names none.
pub const DEFAULT_TRANSACTION_FEE: u32 = 2;

/// The least fee that any node may ask for.
pub const MIN_RELAY_FEE_FLOOR: u32 = 1;

/// The least fee that a node asks for unless it is told otherwise.
pub const DEFAULT_MIN_RELAY_FEE: u32 = 1;

/// The market fee unless a node is told otherwise.
pub const DEFAULT_MARKET_FEE: u32 = 2;

/// The numbers that the protocol of the chain fixes.
#[derive(Clone, Copy, Debug, PartialEq, Eq)]
pub struct ChainParams {
    pub protocol_version: u8,
    pub network_magic: [u8; 4],
    pub block_time: u32,
    pub difficulty_start: u32,
    pub difficulty_adjustment_interval: u64,
    pub confirmation_depth: u32,
    pub max_block_txs: usize,
    pub secret_key_size: usize,
}

impl ChainParams {
    /// How far ahead of the clock a transaction's time may lie: one block time.
    pub fn max_relay_transaction_future_secs(&self) -> (r: u64)
        ensures
            r == self.block_time,
    {
        self.block_time as u64
    }
}

} // verus!
