//! Optimism.
use vstd::prelude::*;

use crate::chain::{CalculateReceiptRootError, Header, OpSpecId, TxType};
use crate::receipts::{
    b256_from_bytes, deposit_sender_missing, optimism_encodings, optimism_receipt_root, paired_len, receipt_leaves,
    receipt_well_formed, trie_root, TxReceipt,
};
use crate::hashing::{address_hash, hash_address, MemoryLocationHash};
use crate::mv_memory::{basic_hash, index_lists, initial_entries, MvMemory};
use crate::primitives::{lemma_word, saturating_mul_spec, u256_saturating_mul, word, Address, B256, U256};
use crate::types::TxIdx;
use crate::hashing::{hash_deterministic, MemoryLocation};

verus! {

/// The recipient of the L1 data fees.
pub open spec fn l1_fee_recipient_spec() -> Address {
    Address { w0: 0x4200_0000, w1: 0, w2: 0x1A }
}

/// The recipient of the base fees.
pub open spec fn base_fee_recipient_spec() -> Address {
    Address { w0: 0x4200_0000, w1: 0, w2: 0x19 }
}

/// The recipient of the operator fees.
pub open spec fn operator_fee_recipient_spec() -> Address {
    Address { w0: 0x4200_0000, w1: 0, w2: 0x1B }
}

/// `0x420000000000000000000000000000000000001A`, the recipient of the L1 data fees.
pub fn l1_fee_recipient() -> (r: Address)
    ensures
        r == l1_fee_recipient_spec(),
{
    Address { w0: 0x4200_0000, w1: 0, w2: 0x1A }
}

/// `0x4200000000000000000000000000000000000019`, the recipient of the base fees.
pub fn base_fee_recipient() -> (r: Address)
    ensures
        r == base_fee_recipient_spec(),
{
    Address { w0: 0x4200_0000, w1: 0, w2: 0x19 }
}

/// `0x420000000000000000000000000000000000001B`, the recipient of the operator fees.
pub fn operator_fee_recipient() -> (r: Address)
    ensures
        r == operator_fee_recipient_spec(),
{
    Address { w0: 0x4200_0000, w1: 0, w2: 0x1B }
}

/// An Optimism chain, by its chain id.
#[derive(Debug, Clone, Copy, PartialEq, Eq, Structural)]
pub struct PevmOptimism {
    pub id: u64,
}

#[derive(Debug, Clone, Copy, PartialEq, Eq, Structural)]
pub enum OptimismBlockSpecError {
    /// The block predates Bedrock, which the EVM does not support.
    UnsupportedSpec,
}

/// Represents errors that can occur when parsing transactions
#[derive(Debug, Clone, Copy, PartialEq, Eq, Structural)]
pub enum OptimismTransactionParsingError {
    /// A legacy or EIP-2930 transaction has no gas price.
    MissingGasPrice,
}

/// The hardfork of an Optimism Mainnet block. Bedrock and Regolith activated
/// together there, so Bedrock never comes out; older blocks are not supported.
pub open spec fn optimism_block_spec_of(number: u64, timestamp: u64) -> Result<OpSpecId, OptimismBlockSpecError> {
    if timestamp >= 1720627201 {
        Ok(OpSpecId::FJORD)
    } else if timestamp >= 1710374401 {
        Ok(OpSpecId::ECOTONE)
    } else if timestamp >= 1704992401 {
        Ok(OpSpecId::CANYON)
    } else if number >= 105235063 {
        Ok(OpSpecId::REGOLITH)
    } else {
        Err(OptimismBlockSpecError::UnsupportedSpec)
    }
}

/// Whether an Optimism hardfork is active on Optimism Mainnet at a block:
/// Bedrock and Regolith from the Bedrock block, later forks by time.
pub open spec fn optimism_fork_active(fork: OpSpecId, number: u64, timestamp: u64) -> bool {
    match fork {
        OpSpecId::BEDROCK | OpSpecId::REGOLITH => number >= 105_235_063,
        OpSpecId::CANYON => timestamp >= 1_704_992_401,
        OpSpecId::ECOTONE => timestamp >= 1_710_374_401,
        OpSpecId::FJORD => timestamp >= 1_720_627_201,
        _ => false,
    }
}

/// The hardfork of an Optimism block is the latest one active at it; a block
/// at which no fork is active (before Bedrock) is refused.
pub proof fn lemma_optimism_block_spec_is_latest_active(number: u64, timestamp: u64, fork: OpSpecId)
    ensures
        optimism_block_spec_of(number, timestamp) matches Ok(s) ==> optimism_fork_active(s, number, timestamp),
        optimism_block_spec_of(number, timestamp) matches Ok(s) ==> (optimism_fork_active(fork, number, timestamp)
            ==> fork.rank() <= s.rank()),
        optimism_block_spec_of(number, timestamp) is Err <==> (forall|f: OpSpecId| !#[trigger] optimism_fork_active(f, number, timestamp)),
{
    if optimism_block_spec_of(number, timestamp) is Err {
        assert forall|f: OpSpecId| !#[trigger] optimism_fork_active(f, number, timestamp) by {}
    } else {
        if let Ok(s) = optimism_block_spec_of(number, timestamp) {
            assert(optimism_fork_active(s, number, timestamp));
        }
    }
}

/// The gas price of an Optimism transaction: its gas price for legacy and
/// EIP-2930 transactions, its maximal fee per gas for EIP-1559 and EIP-7702
/// ones, and zero for deposits.
pub open spec fn optimism_gas_price_spec(tx_type: TxType, gas_price: Option<u128>, max_fee_per_gas: u128) -> Result<
    u128,
    OptimismTransactionParsingError,
> {
    match tx_type {
        TxType::Legacy | TxType::Eip2930 => match gas_price {
            Some(p) => Ok(p),
            None => Err(OptimismTransactionParsingError::MissingGasPrice),
        },
        TxType::Deposit => Ok(0),
        _ => Ok(max_fee_per_gas),
    }
}

/// The gas price of an Optimism transaction.
pub fn get_optimism_gas_price(tx_type: TxType, gas_price: Option<u128>, max_fee_per_gas: u128) -> (r: Result<
    u128,
    OptimismTransactionParsingError,
>)
    requires
        !(tx_type is Eip4844 || tx_type is PostExec),
    ensures
        r == optimism_gas_price_spec(tx_type, gas_price, max_fee_per_gas),
{
    match tx_type {
        TxType::Legacy | TxType::Eip2930 => match gas_price {
            Some(p) => Ok(p),
            None => Err(OptimismTransactionParsingError::MissingGasPrice),
        },
        TxType::Deposit => Ok(0),
        _ => Ok(max_fee_per_gas),
    }
}

/// The positions of the transactions whose flag is `value`, in order.
pub open spec fn indices_where(flags: Seq<bool>, value: bool) -> Seq<TxIdx>
    decreases flags.len(),
{
    if flags.len() == 0 {
        Seq::empty()
    } else {
        let rest = indices_where(flags.drop_last(), value);
        if flags.last() == value {
            rest.push((flags.len() - 1) as TxIdx)
        } else {
            rest
        }
    }
}

/// Every position listed by `indices_where` is a position of the flags.
pub proof fn lemma_indices_where_bound(flags: Seq<bool>, value: bool)
    ensures
        forall|j: int| 0 <= j < indices_where(flags, value).len() ==> #[trigger] indices_where(flags, value)[j] < flags.len(),
    decreases flags.len(),
{
    if flags.len() > 0 {
        lemma_indices_where_bound(flags.drop_last(), value);
        let rest = indices_where(flags.drop_last(), value);
        assert forall|j: int| 0 <= j < indices_where(flags, value).len() implies #[trigger] indices_where(flags, value)[j] < flags.len() by {
            if j < rest.len() {
                assert(indices_where(flags, value)[j] == rest[j]);
            }
        }
    }
}

/// The estimated locations of an Optimism block: deposits write to the
/// beneficiary, other transactions to the L1 and base fee recipients.
pub open spec fn optimism_estimates(beneficiary: Address, deposits: Seq<bool>) -> Seq<(MemoryLocationHash, Seq<TxIdx>)> {
    let deposit_idxs = indices_where(deposits, true);
    let other_idxs = indices_where(deposits, false);
    (if deposit_idxs.len() > 0 {
        seq![(basic_hash(beneficiary), deposit_idxs)]
    } else {
        Seq::empty()
    }) + (if other_idxs.len() > 0 {
        seq![(address_hash(l1_fee_recipient_spec(), usize::BITS), other_idxs), (address_hash(base_fee_recipient_spec(), usize::BITS), other_idxs)]
    } else {
        Seq::empty()
    })
}

impl PevmOptimism {
    /// Optimism Mainnet
    pub fn mainnet() -> (r: PevmOptimism)
        ensures
            r.id == 10,
    {
        PevmOptimism { id: 10 }
    }

    /// Custom network
    pub fn custom(id: u64) -> (r: PevmOptimism)
        ensures
            r.id == id,
    {
        PevmOptimism { id }
    }

    /// The chain id.
    pub fn id(&self) -> (r: u64)
        ensures
            r == self.id,
    {
        self.id
    }

    /// The hardfork of a block, on the schedule of Optimism Mainnet.
    pub fn get_block_spec(&self, header: &Header) -> (r: Result<OpSpecId, OptimismBlockSpecError>)
        ensures
            r == optimism_block_spec_of(header.number, header.timestamp),
    {
        if header.timestamp >= 1720627201 {
            Ok(OpSpecId::FJORD)
        } else if header.timestamp >= 1710374401 {
            Ok(OpSpecId::ECOTONE)
        } else if header.timestamp >= 1704992401 {
            Ok(OpSpecId::CANYON)
        } else if header.number >= 105235063 {
            Ok(OpSpecId::REGOLITH)
        } else {
            Err(OptimismBlockSpecError::UnsupportedSpec)
        }
    }

    /// The multi-version memory of a block whose transactions are deposits or
    /// not as `deposits` says. The beneficiary and the fee recipients are updated
    /// lazily.
    pub fn build_mv_memory(&self, beneficiary: Address, deposits: &Vec<bool>) -> (r: MvMemory)
        ensures
            r.wf(),
            r.size() == deposits@.len(),
            r.lazy().to_set() == seq![beneficiary, l1_fee_recipient_spec(), base_fee_recipient_spec()].to_set(),
            r.entries() == initial_entries(
                optimism_estimates(beneficiary, deposits@),
                seq![beneficiary, l1_fee_recipient_spec(), base_fee_recipient_spec()],
            ),
    {
        let mut deposit_idxs: Vec<TxIdx> = Vec::new();
        let mut other_idxs: Vec<TxIdx> = Vec::new();
        let mut i: usize = 0;
        while i < deposits.len()
            invariant
                i <= deposits@.len(),
                deposit_idxs@ == indices_where(deposits@.take(i as int), true),
                other_idxs@ == indices_where(deposits@.take(i as int), false),
            decreases deposits@.len() - i,
        {
            proof {
                assert(deposits@.take(i + 1).drop_last() =~= deposits@.take(i as int));
            }
            if deposits[i] {
                deposit_idxs.push(i);
            } else {
                other_idxs.push(i);
            }
            i = i + 1;
        }
        proof {
            assert(deposits@.take(deposits@.len() as int) =~= deposits@);
            lemma_indices_where_bound(deposits@, true);
            lemma_indices_where_bound(deposits@, false);
        }
        let l1 = l1_fee_recipient();
        let base = base_fee_recipient();
        let mut estimated: Vec<(MemoryLocationHash, Vec<TxIdx>)> = Vec::new();
        if deposit_idxs.len() > 0 {
            estimated.push((hash_deterministic(MemoryLocation::Basic(beneficiary)), deposit_idxs));
        }
        if other_idxs.len() > 0 {
            let copy = copy_indices(&other_idxs);
            estimated.push((hash_address(l1), copy));
            estimated.push((hash_address(base), other_idxs));
        }
        proof {
            assert(index_lists(estimated@) =~= optimism_estimates(beneficiary, deposits@));
        }
        let mut lazy: Vec<Address> = Vec::new();
        lazy.push(beneficiary);
        lazy.push(l1);
        lazy.push(base);
        proof {
            assert(lazy@ =~= seq![beneficiary, l1_fee_recipient_spec(), base_fee_recipient_spec()]);
        }
        MvMemory::new(deposits.len(), estimated, lazy)
    }

    /// The fees of a transaction: none for a deposit; otherwise the priority fee
    /// to the beneficiary, the L1 data fee to its recipient and the base fee to
    /// the base fee vault.
    pub fn get_rewards(
        &self,
        beneficiary_location_hash: MemoryLocationHash,
        gas_used: U256,
        gas_price: U256,
        basefee: u64,
        is_deposit: bool,
        l1_cost: U256,
    ) -> (r: Vec<(MemoryLocationHash, U256)>)
        ensures
            r@ == if is_deposit {
                Seq::empty()
            } else {
                seq![
                    (beneficiary_location_hash, word(saturating_mul_spec(gas_price.value(), gas_used.value()))),
                    (address_hash(l1_fee_recipient_spec(), usize::BITS), l1_cost),
                    (address_hash(base_fee_recipient_spec(), usize::BITS), word(saturating_mul_spec(basefee as nat, gas_used.value()))),
                ]
            },
    {
        let mut r: Vec<(MemoryLocationHash, U256)> = Vec::new();
        if !is_deposit {
            let priority = u256_saturating_mul(gas_price, gas_used);
            let base = u256_saturating_mul(U256::from_u64(basefee), gas_used);
            proof {
                lemma_word(priority);
                lemma_word(base);
            }
            r.push((beneficiary_location_hash, priority));
            r.push((hash_address(l1_fee_recipient()), l1_cost));
            r.push((hash_address(base_fee_recipient()), base));
        }
        proof {
            if !is_deposit {
                assert(r@ =~= seq![
                    (beneficiary_location_hash, word(saturating_mul_spec(gas_price.value(), gas_used.value()))),
                    (address_hash(l1_fee_recipient_spec(), usize::BITS), l1_cost),
                    (address_hash(base_fee_recipient_spec(), usize::BITS), word(saturating_mul_spec(basefee as nat, gas_used.value()))),
                ]);
            } else {
                assert(r@ =~= Seq::empty());
            }
        }
        r
    }

    /// EIP-1559 is always enabled.
    pub fn is_eip_1559_enabled(&self, spec_id: OpSpecId) -> (r: bool)
        ensures
            r,
    {
        true
    }

    /// EIP-161 is always enabled.
    pub fn is_eip_161_enabled(&self, spec_id: OpSpecId) -> (r: bool)
        ensures
            r,
    {
        true
    }
}

/// A copy of a list of transaction indices.
pub fn copy_indices(idxs: &Vec<TxIdx>) -> (r: Vec<TxIdx>)
    ensures
        r@ == idxs@,
{
    let mut r: Vec<TxIdx> = Vec::new();
    let mut i: usize = 0;
    while i < idxs.len()
        invariant
            i <= idxs@.len(),
            r@ == idxs@.take(i as int),
        decreases idxs@.len() - i,
    {
        r.push(idxs[i]);
        proof {
            assert(idxs@.take(i + 1) =~= idxs@.take(i as int).push(idxs@[i as int]));
        }
        i = i + 1;
    }
    proof {
        assert(idxs@.take(idxs@.len() as int) =~= idxs@);
    }
    r
}

impl PevmOptimism {
    /// The receipt root of a block from the types of its transactions, their
    /// receipts, and the nonce of each transaction's sender after it (`None`
    /// when the sender is not among its changed accounts). A deposit receipt
    /// carries its nonce and version from Canyon; a deposit whose sender is
    /// missing fails.
    pub fn calculate_receipt_root(
        &self,
        spec_id: OpSpecId,
        tx_types: &Vec<TxType>,
        receipts: &Vec<TxReceipt>,
        sender_nonces: &Vec<Option<u64>>,
    ) -> (r: Result<B256, CalculateReceiptRootError>)
        requires
            sender_nonces@.len() == receipts@.len(),
            forall|i: int| 0 <= i < tx_types@.len() ==> !((#[trigger] tx_types@[i]) is Eip4844 || tx_types@[i] is PostExec),
            forall|i: int| 0 <= i < receipts@.len() ==> receipt_well_formed(#[trigger] receipts@[i]),
            forall|i: int|
                0 <= i < paired_len(tx_types@.len(), receipts@.len()) && (#[trigger] tx_types@[i]) is Deposit
                    && sender_nonces@[i] is Some ==> sender_nonces@[i]->0 > 0,
        ensures
            r == if deposit_sender_missing(tx_types@, sender_nonces@, paired_len(tx_types@.len(), receipts@.len())) {
                Err::<B256, CalculateReceiptRootError>(CalculateReceiptRootError::OpDepositMissingSender)
            } else {
                Ok(
                    b256_from_bytes(
                        trie_root(
                            receipt_leaves(
                                optimism_encodings(
                                    tx_types@,
                                    receipts@,
                                    sender_nonces@,
                                    spec_id.rank() >= OpSpecId::CANYON.rank(),
                                ),
                            ),
                        ),
                    ),
                )
            },
    {
        optimism_receipt_root(spec_id.is_enabled_in(OpSpecId::CANYON), tx_types, receipts, sender_nonces)
    }
}

} // verus!
