//! The vocabulary of the parallel executor: transaction versions, memory values
//! and entries, read origins, tasks and execution flags.
use vstd::prelude::*;

use crate::primitives::{B256, U256};

verus! {

/// The index of a transaction in the block.
pub type TxIdx = usize;

/// The i-th time a transaction is re-executed, counting from 0.
pub type TxIncarnation = usize;

/// Basic information of an account.
#[derive(Clone, Copy, PartialEq, Eq, Structural, Debug, Default)]
pub struct AccountBasic {
    /// The balance of the account.
    pub balance: U256,
    /// The nonce of the account.
    pub nonce: u64,
}

/// A version of a transaction: which transaction and which of its executions.
#[derive(Clone, Copy, PartialEq, Eq, Structural, Debug)]
pub struct TxVersion {
    pub tx_idx: TxIdx,
    pub tx_incarnation: TxIncarnation,
}

/// A value written to a memory location.
#[derive(Clone, Copy, PartialEq, Eq, Structural, Debug)]
pub enum MemoryValue {
    Basic(AccountBasic),
    CodeHash(B256),
    Storage(U256),
    /// We lazily update the beneficiary balance to avoid continuous dependencies
    /// as all transactions read and write to it. We also lazily update the senders
    /// and recipients of raw transfers. These account states are fully evaluated at
    /// the end of the block or when there is an explicit read.
    /// Explicit balance addition.
    LazyRecipient(U256),
    /// Explicit balance subtraction and implicit nonce increment.
    LazySender(U256),
    /// The account was self-destructed.
    SelfDestructed,
}

/// An entry of the multi-version data of a location.
#[derive(Clone, Copy, PartialEq, Eq, Structural, Debug)]
pub enum MemoryEntry {
    Data(TxIncarnation, MemoryValue),
    /// When an incarnation is aborted by a failed validation, the entries of its
    /// write set are replaced with this marker: the next incarnation is estimated
    /// to write to the same locations, and a higher transaction that reads it stops
    /// at once instead of wasting a full execution.
    Estimate,
}

/// The origin of a read: the multi-version data, or the chain state before the block.
#[derive(Clone, Copy, PartialEq, Eq, Structural, Debug)]
pub enum ReadOrigin {
    MvMemory(TxVersion),
    Storage,
}

/// A scheduled worker task.
#[derive(Clone, Copy, PartialEq, Eq, Structural, Debug)]
pub enum Task {
    Execution(TxVersion),
    Validation(TxVersion),
}

/// Flags that an execution hands to the scheduler when it finishes.
#[derive(Clone, Copy, PartialEq, Eq, Structural, Debug, Default)]
pub struct FinishExecFlags {
    pub bits: u8,
}

impl FinishExecFlags {
    /// Do we need to validate from this transaction? Its bit value is zero, so
    /// setting it leaves the bits unchanged: a transaction without it is still
    /// validated when a lower one broke the dependency chain.
    pub open spec fn need_validation_bits() -> u8 {
        0
    }

    /// We need to validate from the next transaction if this execution wrote
    /// to a new location.
    pub open spec fn wrote_new_location_bits() -> u8 {
        1
    }

    pub fn empty() -> (r: FinishExecFlags)
        ensures
            r.bits == 0,
    {
        FinishExecFlags { bits: 0 }
    }

    pub fn need_validation() -> (r: FinishExecFlags)
        ensures
            r.bits == Self::need_validation_bits(),
    {
        FinishExecFlags { bits: 0 }
    }

    pub fn wrote_new_location() -> (r: FinishExecFlags)
        ensures
            r.bits == Self::wrote_new_location_bits(),
    {
        FinishExecFlags { bits: 1 }
    }

    /// The union of two sets of flags.
    pub fn union(self, other: FinishExecFlags) -> (r: FinishExecFlags)
        ensures
            r.bits == self.bits | other.bits,
    {
        FinishExecFlags { bits: self.bits | other.bits }
    }

    /// Whether every flag of `other` is set in `self`.
    pub fn contains(self, other: FinishExecFlags) -> (r: bool)
        ensures
            r == (self.bits & other.bits == other.bits),
    {
        self.bits & other.bits == other.bits
    }
}

} // verus!
