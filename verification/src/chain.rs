//! What differs between the chains the executor supports: hardfork schedules,
//! gas prices, fee recipients and the initial shape of the multi-version memory.
use vstd::prelude::*;

use crate::primitives::{Address, B256, U256};

pub mod ethereum;
pub mod optimism;
pub mod rise;

verus! {

/// The hardforks of Ethereum, in the order they activate.
#[allow(non_camel_case_types)]
#[derive(Clone, Copy, PartialEq, Eq, Structural, Debug)]
pub enum SpecId {
    FRONTIER,
    FRONTIER_THAWING,
    HOMESTEAD,
    DAO_FORK,
    TANGERINE,
    SPURIOUS_DRAGON,
    BYZANTIUM,
    CONSTANTINOPLE,
    PETERSBURG,
    ISTANBUL,
    MUIR_GLACIER,
    BERLIN,
    LONDON,
    ARROW_GLACIER,
    GRAY_GLACIER,
    MERGE,
    SHANGHAI,
    CANCUN,
    PRAGUE,
    OSAKA,
}

impl SpecId {
    /// The position of the hardfork in the activation order.
    pub open spec fn rank(self) -> nat {
        match self {
            SpecId::FRONTIER => 0,
            SpecId::FRONTIER_THAWING => 1,
            SpecId::HOMESTEAD => 2,
            SpecId::DAO_FORK => 3,
            SpecId::TANGERINE => 4,
            SpecId::SPURIOUS_DRAGON => 5,
            SpecId::BYZANTIUM => 6,
            SpecId::CONSTANTINOPLE => 7,
            SpecId::PETERSBURG => 8,
            SpecId::ISTANBUL => 9,
            SpecId::MUIR_GLACIER => 10,
            SpecId::BERLIN => 11,
            SpecId::LONDON => 12,
            SpecId::ARROW_GLACIER => 13,
            SpecId::GRAY_GLACIER => 14,
            SpecId::MERGE => 15,
            SpecId::SHANGHAI => 16,
            SpecId::CANCUN => 17,
            SpecId::PRAGUE => 18,
            SpecId::OSAKA => 19,
        }
    }

    /// The position of the hardfork in the activation order.
    pub fn position(&self) -> (r: u8)
        ensures
            r == self.rank(),
    {
        match self {
            SpecId::FRONTIER => 0,
            SpecId::FRONTIER_THAWING => 1,
            SpecId::HOMESTEAD => 2,
            SpecId::DAO_FORK => 3,
            SpecId::TANGERINE => 4,
            SpecId::SPURIOUS_DRAGON => 5,
            SpecId::BYZANTIUM => 6,
            SpecId::CONSTANTINOPLE => 7,
            SpecId::PETERSBURG => 8,
            SpecId::ISTANBUL => 9,
            SpecId::MUIR_GLACIER => 10,
            SpecId::BERLIN => 11,
            SpecId::LONDON => 12,
            SpecId::ARROW_GLACIER => 13,
            SpecId::GRAY_GLACIER => 14,
            SpecId::MERGE => 15,
            SpecId::SHANGHAI => 16,
            SpecId::CANCUN => 17,
            SpecId::PRAGUE => 18,
            SpecId::OSAKA => 19,
        }
    }

    /// Whether `other` is active once `self` is: `other` comes no later.
    pub fn is_enabled_in(&self, other: SpecId) -> (r: bool)
        ensures
            r == (other.rank() <= self.rank()),
    {
        other.position() <= self.position()
    }
}

/// The hardforks of Optimism, in the order they activate.
#[allow(non_camel_case_types)]
#[derive(Clone, Copy, PartialEq, Eq, Structural, Debug)]
pub enum OpSpecId {
    BEDROCK,
    REGOLITH,
    CANYON,
    ECOTONE,
    FJORD,
    GRANITE,
    HOLOCENE,
    ISTHMUS,
    JOVIAN,
    KARST,
    INTEROP,
}

impl OpSpecId {
    /// The position of the hardfork in the activation order.
    pub open spec fn rank(self) -> nat {
        match self {
            OpSpecId::BEDROCK => 0,
            OpSpecId::REGOLITH => 1,
            OpSpecId::CANYON => 2,
            OpSpecId::ECOTONE => 3,
            OpSpecId::FJORD => 4,
            OpSpecId::GRANITE => 5,
            OpSpecId::HOLOCENE => 6,
            OpSpecId::ISTHMUS => 7,
            OpSpecId::JOVIAN => 8,
            OpSpecId::KARST => 9,
            OpSpecId::INTEROP => 10,
        }
    }

    /// The position of the hardfork in the activation order.
    pub fn position(&self) -> (r: u8)
        ensures
            r == self.rank(),
    {
        match self {
            OpSpecId::BEDROCK => 0,
            OpSpecId::REGOLITH => 1,
            OpSpecId::CANYON => 2,
            OpSpecId::ECOTONE => 3,
            OpSpecId::FJORD => 4,
            OpSpecId::GRANITE => 5,
            OpSpecId::HOLOCENE => 6,
            OpSpecId::ISTHMUS => 7,
            OpSpecId::JOVIAN => 8,
            OpSpecId::KARST => 9,
            OpSpecId::INTEROP => 10,
        }
    }

    /// Whether `other` is active once `self` is.
    pub fn is_enabled_in(&self, other: OpSpecId) -> (r: bool)
        ensures
            r == (other.rank() <= self.rank()),
    {
        other.position() <= self.position()
    }
}

/// The fields of a block header that the executor reads.
#[derive(Clone, Copy, PartialEq, Eq, Structural, Debug, Default)]
pub struct Header {
    pub number: u64,
    pub beneficiary: Address,
    pub timestamp: u64,
    pub gas_limit: u64,
    pub gas_used: u64,
    pub base_fee_per_gas: Option<u64>,
    pub difficulty: U256,
    pub mix_hash: B256,
    pub excess_blob_gas: Option<u64>,
}

/// The kinds of transaction envelopes, Optimism's deposits and RISE's post-execution
/// transactions included.
#[derive(Clone, Copy, PartialEq, Eq, Structural, Debug)]
pub enum TxType {
    Legacy,
    Eip2930,
    Eip1559,
    Eip4844,
    Eip7702,
    Deposit,
    PostExec,
}

/// The error type of receipt root calculations.
#[derive(Debug, Clone, PartialEq, Eq)]
pub enum CalculateReceiptRootError {
    /// Unsupported
    Unsupported,
    /// Invalid transaction type
    InvalidTxType(u8),
    /// Arbitrary error message
    Custom(String),
    /// Optimism deposit is missing sender
    OpDepositMissingSender,
}

} // verus!
