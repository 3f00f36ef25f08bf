//! Errors in words.

use crate::mempool::MempoolError;
use crate::message::{IoErrorKind, NetworkError, RejectReason};
use crate::node::NodeError;
use crate::storage::{SerializationError, StorageError};
use crate::text;
use vstd::prelude::*;
use vstd::string::*;

verus! {

/// The words of a failure to decode or to encode.
pub open spec fn serialization_words(error: SerializationError) -> Seq<char> {
    match error {
        SerializationError::Reason(reason) => reason@,
        SerializationError::InvalidBool(byte) => "Invalid bool representation: "@ + text::decimal(
            byte as nat,
        ),
        SerializationError::Words(words) => words@,
    }
}

/// A storage error in words.
pub open spec fn storage_words(error: StorageError) -> Seq<char> {
    match error {
        StorageError::Database(words) => "storage database error: "@ + words@,
        StorageError::Serialization(error) => "storage serialization error: "@
            + serialization_words(error),
        StorageError::Integrity(reason) => "storage integrity error: "@ + reason@,
        StorageError::MissingStorageVersion => {
            "storage version is missing from existing database"@
        },
        StorageError::UnsupportedStorageVersion { expected, found } => {
            "unsupported storage version: expected "@ + text::decimal(expected as nat) + ", found "@
                + text::decimal(found as nat)
        },
    }
}

impl StorageError {
    /// The error in words.
    pub fn message(&self) -> (r: String)
        ensures
            r@ == storage_words(*self),
    {
        match self {
            StorageError::Database(words) => text::join2(
                "storage database error: ",
                words.as_str(),
            ),
            StorageError::Serialization(SerializationError::Reason(reason)) => text::join2(
                "storage serialization error: ",
                reason,
            ),
            StorageError::Serialization(SerializationError::InvalidBool(byte)) => text::join3(
                "storage serialization error: ",
                "Invalid bool representation: ",
                text::decimal_text(*byte as u64).as_str(),
            ),
            StorageError::Serialization(SerializationError::Words(words)) => text::join2(
                "storage serialization error: ",
                words.as_str(),
            ),
            StorageError::Integrity(reason) => text::join2("storage integrity error: ", reason),
            StorageError::MissingStorageVersion => text::owned(
                "storage version is missing from existing database",
            ),
            StorageError::UnsupportedStorageVersion { expected, found } => text::join4(
                "unsupported storage version: expected ",
                text::decimal_text(*expected as u64).as_str(),
                ", found ",
                text::decimal_text(*found as u64).as_str(),
            ),
        }
    }
}

/// A mempool error in words; `inner` are the words of the error that it carries.
pub open spec fn mempool_words(error: MempoolError, inner: Seq<char>) -> Seq<char> {
    match error {
        MempoolError::DuplicateTransaction => "duplicate transaction"@,
        MempoolError::MempoolFull => "mempool is full"@,
        MempoolError::FeeTooLow => "transaction fee is too low"@,
        MempoolError::ReplacementFeeTooLow => "replacement fee is too low"@,
        MempoolError::InvalidTransaction(_) => "invalid transaction: "@ + inner,
        MempoolError::InvalidLedgerState(_) => "invalid ledger state: "@ + inner,
    }
}

impl MempoolError {
    /// The error in words; `inner` are the words of the error that it carries.
    pub fn message(&self, inner: &str) -> (r: String)
        ensures
            r@ == mempool_words(*self, inner@),
    {
        match self {
            MempoolError::DuplicateTransaction => text::owned("duplicate transaction"),
            MempoolError::MempoolFull => text::owned("mempool is full"),
            MempoolError::FeeTooLow => text::owned("transaction fee is too low"),
            MempoolError::ReplacementFeeTooLow => text::owned("replacement fee is too low"),
            MempoolError::InvalidTransaction(_) => text::join2("invalid transaction: ", inner),
            MempoolError::InvalidLedgerState(_) => text::join2("invalid ledger state: ", inner),
        }
    }
}

/// A node error in words; `inner` are the words of the error of the chain's rules
/// that it carries, itself or within another.
pub open spec fn node_words(error: NodeError, inner: Seq<char>) -> Seq<char> {
    match error {
        NodeError::Consensus(_) => "consensus error: "@ + inner,
        NodeError::Genesis(_) => "genesis error: "@ + inner,
        NodeError::ForkChoice(_) => "fork choice error: "@ + inner,
        NodeError::Ledger(_) => "ledger error: "@ + inner,
        NodeError::Mempool(error) => "mempool error: "@ + mempool_words(error, inner),
        NodeError::Storage(error) => "storage error: "@ + storage_words(error),
        NodeError::MiningExhausted => "mining attempt budget was exhausted"@,
        NodeError::MissingGenesisState => "node cannot reorg without a genesis state snapshot"@,
        NodeError::ReorgRequired => "fork choice selected a non-linear best tip"@,
        NodeError::CheckpointMismatch => "block does not match a checkpoint"@,
    }
}

impl NodeError {
    /// The error in words; `inner` are the words of the error of the chain's rules
    /// that it carries, itself or within another.
    pub fn message(&self, inner: &str) -> (r: String)
        ensures
            r@ == node_words(*self, inner@),
    {
        match self {
            NodeError::Consensus(_) => text::join2("consensus error: ", inner),
            NodeError::Genesis(_) => text::join2("genesis error: ", inner),
            NodeError::ForkChoice(_) => text::join2("fork choice error: ", inner),
            NodeError::Ledger(_) => text::join2("ledger error: ", inner),
            NodeError::Mempool(error) => text::join2(
                "mempool error: ",
                error.message(inner).as_str(),
            ),
            NodeError::Storage(error) => text::join2(
                "storage error: ",
                error.message().as_str(),
            ),
            NodeError::MiningExhausted => text::owned("mining attempt budget was exhausted"),
            NodeError::MissingGenesisState => text::owned(
                "node cannot reorg without a genesis state snapshot",
            ),
            NodeError::ReorgRequired => text::owned("fork choice selected a non-linear best tip"),
            NodeError::CheckpointMismatch => text::owned("block does not match a checkpoint"),
        }
    }
}

/// An input error in words.
pub open spec fn io_words(kind: IoErrorKind) -> Seq<char> {
    match kind {
        IoErrorKind::UnexpectedEof => "unexpected end of file"@,
        IoErrorKind::WouldBlock => "operation would block"@,
        IoErrorKind::TimedOut => "timed out"@,
        IoErrorKind::ConnectionReset => "connection reset"@,
        IoErrorKind::BrokenPipe => "broken pipe"@,
        IoErrorKind::Other => "other error"@,
    }
}

fn io_text(kind: IoErrorKind) -> (r: &'static str)
    ensures
        r@ == io_words(kind),
{
    match kind {
        IoErrorKind::UnexpectedEof => "unexpected end of file",
        IoErrorKind::WouldBlock => "operation would block",
        IoErrorKind::TimedOut => "timed out",
        IoErrorKind::ConnectionReset => "connection reset",
        IoErrorKind::BrokenPipe => "broken pipe",
        IoErrorKind::Other => "other error",
    }
}

/// A network error in words; `inner` are the words of an error that a node error
/// carries.
pub open spec fn network_words(error: NetworkError, inner: Seq<char>) -> Seq<char> {
    match error {
        NetworkError::MessageTooLarge => "network message exceeds maximum size"@,
        NetworkError::Node(error) => "network node handler error: "@ + node_words(error, inner),
        NetworkError::Serialization(reason) => "network message serialization error: "@ + reason@,
        NetworkError::Io(kind) => "network io error: "@ + io_words(kind),
    }
}

impl NetworkError {
    /// The error in words; `inner` are the words of an error that a node error
    /// carries.
    pub fn message(&self, inner: &str) -> (r: String)
        ensures
            r@ == network_words(*self, inner@),
    {
        match self {
            NetworkError::MessageTooLarge => text::owned("network message exceeds maximum size"),
            NetworkError::Node(error) => text::join2(
                "network node handler error: ",
                error.message(inner).as_str(),
            ),
            NetworkError::Serialization(reason) => text::join2(
                "network message serialization error: ",
                reason,
            ),
            NetworkError::Io(kind) => text::join2("network io error: ", io_text(*kind)),
        }
    }
}

impl RejectReason {
    /// The name of the reason.
    pub fn name(&self) -> (r: &'static str)
        ensures
            r@ == "ProtocolVersionMismatch"@,
    {
        "ProtocolVersionMismatch"
    }
}

} // verus!
