//! RISE.
use vstd::prelude::*;

use crate::chain::optimism::{
    base_fee_recipient, base_fee_recipient_spec, copy_indices, indices_where, l1_fee_recipient,
    l1_fee_recipient_spec, lemma_indices_where_bound, operator_fee_recipient,
    operator_fee_recipient_spec,
};
use crate::chain::{CalculateReceiptRootError, Header, OpSpecId, TxType};
use crate::receipts::{
    b256_from_bytes, deposit_sender_missing, optimism_encodings, optimism_receipt_root, paired_len, receipt_leaves,
    receipt_well_formed, trie_root, TxReceipt,
};
use crate::hashing::{hash_deterministic, MemoryLocation, MemoryLocationHash};
use crate::mv_memory::{basic_hash, index_lists, initial_entries, MvMemory};
use crate::primitives::{lemma_word, saturating_mul_spec, u256_saturating_mul, word, Address, B256, U256};
use crate::types::TxIdx;

verus! {

/// The chain id of RISE Mainnet.
pub const RISE_CHAIN_ID: u64 = 4153;

/// The RISE chain.
#[derive(Debug, Clone, Copy, PartialEq, Eq, Structural)]
pub struct PevmRise;

/// Represents errors that can occur when parsing RISE transactions
#[derive(Debug, Clone, Copy, PartialEq, Eq, Structural)]
pub enum RiseTransactionParsingError {
    /// Transaction is missing a gas price
    MissingGasPrice,
}

/// The gas price of a RISE transaction: its gas price for legacy and EIP-2930
/// transactions, its maximal fee per gas for EIP-1559 and EIP-7702 ones, and
/// zero for deposits and post-execution transactions.
pub open spec fn rise_gas_price_spec(tx_type: TxType, gas_price: Option<u128>, max_fee_per_gas: u128) -> Result<
    u128,
    RiseTransactionParsingError,
> {
    match tx_type {
        TxType::Legacy | TxType::Eip2930 => match gas_price {
            Some(p) => Ok(p),
            None => Err(RiseTransactionParsingError::MissingGasPrice),
        },
        TxType::Deposit | TxType::PostExec => Ok(0),
        _ => Ok(max_fee_per_gas),
    }
}

/// The gas price of a RISE transaction.
pub fn get_gas_price(tx_type: TxType, gas_price: Option<u128>, max_fee_per_gas: u128) -> (r: Result<
    u128,
    RiseTransactionParsingError,
>)
    requires
        !(tx_type is Eip4844),
    ensures
        r == rise_gas_price_spec(tx_type, gas_price, max_fee_per_gas),
{
    match tx_type {
        TxType::Legacy | TxType::Eip2930 => match gas_price {
            Some(p) => Ok(p),
            None => Err(RiseTransactionParsingError::MissingGasPrice),
        },
        TxType::Deposit | TxType::PostExec => Ok(0),
        _ => Ok(max_fee_per_gas),
    }
}

/// The accounts every non-deposit transaction pays: the beneficiary and the
/// three fee recipients.
pub open spec fn rise_recipients(beneficiary: Address) -> Seq<Address> {
    seq![beneficiary, base_fee_recipient_spec(), l1_fee_recipient_spec(), operator_fee_recipient_spec()]
}

/// The estimated locations of a RISE block: the accounts paid by the
/// non-deposit transactions.
pub open spec fn rise_estimates(beneficiary: Address, deposits: Seq<bool>) -> Seq<(MemoryLocationHash, Seq<TxIdx>)> {
    let idxs = indices_where(deposits, false);
    if idxs.len() > 0 {
        rise_recipients(beneficiary).map_values(|a: Address| (basic_hash(a), idxs))
    } else {
        Seq::empty()
    }
}

impl PevmRise {
    /// The chain id.
    pub fn id(&self) -> (r: u64)
        ensures
            r == RISE_CHAIN_ID,
    {
        RISE_CHAIN_ID
    }

    /// RISE Mainnet launched on Jovian: every block uses it.
    pub fn get_block_spec(&self, header: &Header) -> (r: Result<OpSpecId, std::convert::Infallible>)
        ensures
            r == Ok::<OpSpecId, std::convert::Infallible>(OpSpecId::JOVIAN),
    {
        Ok(OpSpecId::JOVIAN)
    }

    /// The multi-version memory of a block: the beneficiary and the fee
    /// recipients, written by every non-deposit transaction, are estimated and
    /// updated lazily.
    pub fn build_mv_memory(&self, beneficiary: Address, deposits: &Vec<bool>) -> (r: MvMemory)
        ensures
            r.wf(),
            r.size() == deposits@.len(),
            r.lazy().to_set() == rise_recipients(beneficiary).to_set(),
            r.entries() == initial_entries(rise_estimates(beneficiary, deposits@), rise_recipients(beneficiary)),
    {
        let mut idxs: Vec<TxIdx> = Vec::new();
        let mut i: usize = 0;
        while i < deposits.len()
            invariant
                i <= deposits@.len(),
                idxs@ == indices_where(deposits@.take(i as int), false),
            decreases deposits@.len() - i,
        {
            proof {
                assert(deposits@.take(i + 1).drop_last() =~= deposits@.take(i as int));
            }
            if !deposits[i] {
                idxs.push(i);
            }
            i = i + 1;
        }
        proof {
            assert(deposits@.take(deposits@.len() as int) =~= deposits@);
            lemma_indices_where_bound(deposits@, false);
        }
        let mut recipients: Vec<Address> = Vec::new();
        recipients.push(beneficiary);
        recipients.push(base_fee_recipient());
        recipients.push(l1_fee_recipient());
        recipients.push(operator_fee_recipient());
        let mut estimated: Vec<(MemoryLocationHash, Vec<TxIdx>)> = Vec::new();
        if idxs.len() > 0 {
            let mut k: usize = 0;
            while k < 4
                invariant
                    k <= 4,
                    recipients@ == rise_recipients(beneficiary),
                    idxs@ == indices_where(deposits@, false),
                    forall|j: int| 0 <= j < idxs@.len() ==> #[trigger] idxs@[j] < deposits@.len(),
                    index_lists(estimated@) == rise_recipients(beneficiary).take(k as int).map_values(
                        |a: Address| (basic_hash(a), idxs@),
                    ),
                    forall|a: int, j: int|
                        0 <= a < estimated@.len() && 0 <= j < estimated@[a].1@.len() ==> #[trigger] estimated@[a].1@[j]
                            < deposits@.len(),
                decreases 4 - k,
            {
                let copy = copy_indices(&idxs);
                let ghost before = estimated@;
                estimated.push((hash_deterministic(MemoryLocation::Basic(recipients[k])), copy));
                proof {
                    assert(index_lists(estimated@) =~= index_lists(before).push((basic_hash(recipients@[k as int]), idxs@)));
                    assert(index_lists(estimated@) =~= rise_recipients(beneficiary).take(k + 1).map_values(
                        |a: Address| (basic_hash(a), idxs@),
                    ));
                }
                k = k + 1;
            }
            proof {
                assert(rise_recipients(beneficiary).take(4) =~= rise_recipients(beneficiary));
            }
        }
        proof {
            assert(index_lists(estimated@) =~= rise_estimates(beneficiary, deposits@));
            assert(recipients@ =~= rise_recipients(beneficiary));
            assert forall|a: int, j: int|
                0 <= a < estimated@.len() && 0 <= j < estimated@[a].1@.len() implies #[trigger] estimated@[a].1@[j]
                    < deposits@.len() by {
                assert(index_lists(estimated@)[a].1 == estimated@[a].1@);
            }
        }
        MvMemory::new(deposits.len(), estimated, recipients)
    }

    /// The fees of a transaction: none for a deposit; otherwise the priority fee
    /// to the beneficiary and the base fee to the base fee vault. RISE disables
    /// the data and operator fees, but their recipients are still touched with
    /// zero to match a sequential execution.
    pub fn get_rewards(
        &self,
        beneficiary_location_hash: MemoryLocationHash,
        gas_used: U256,
        gas_price: U256,
        basefee: u64,
        is_deposit: bool,
    ) -> (r: Vec<(MemoryLocationHash, U256)>)
        ensures
            r@ == if is_deposit {
                Seq::empty()
            } else {
                seq![
                    (beneficiary_location_hash, word(saturating_mul_spec(gas_price.value(), gas_used.value()))),
                    (basic_hash(base_fee_recipient_spec()), word(saturating_mul_spec(basefee as nat, gas_used.value()))),
                    (basic_hash(l1_fee_recipient_spec()), word(0)),
                    (basic_hash(operator_fee_recipient_spec()), word(0)),
                ]
            },
    {
        let mut r: Vec<(MemoryLocationHash, U256)> = Vec::new();
        if !is_deposit {
            let priority = u256_saturating_mul(gas_price, gas_used);
            let base = u256_saturating_mul(U256::from_u64(basefee), gas_used);
            let zero = U256::zero();
            proof {
                lemma_word(priority);
                lemma_word(base);
                lemma_word(zero);
            }
            r.push((beneficiary_location_hash, priority));
            r.push((hash_deterministic(MemoryLocation::Basic(base_fee_recipient())), base));
            r.push((hash_deterministic(MemoryLocation::Basic(l1_fee_recipient())), zero));
            r.push((hash_deterministic(MemoryLocation::Basic(operator_fee_recipient())), zero));
            proof {
                assert(r@ =~= seq![
                    (beneficiary_location_hash, word(saturating_mul_spec(gas_price.value(), gas_used.value()))),
                    (basic_hash(base_fee_recipient_spec()), word(saturating_mul_spec(basefee as nat, gas_used.value()))),
                    (basic_hash(l1_fee_recipient_spec()), word(0)),
                    (basic_hash(operator_fee_recipient_spec()), word(0)),
                ]);
            }
        } else {
            proof {
                assert(r@ =~= Seq::empty());
            }
        }
        r
    }

    /// Deposits skip the nonce check: a transaction has a nonce unless it is one.
    pub fn has_nonce(&self, is_deposit: bool) -> (r: bool)
        ensures
            r == !is_deposit,
    {
        !is_deposit
    }

    /// EIP-1559 is always enabled.
    pub fn is_eip_1559_enabled(&self, spec_id: OpSpecId) -> (r: bool)
        ensures
            r,
    {
        true
    }

    /// EIP-161 is always enabled.
    pub fn is_eip_161_enabled(&self, spec_id: OpSpecId) -> (r: bool)
        ensures
            r,
    {
        true
    }
}

impl PevmRise {
    /// The receipt root of a block from the types of its transactions, their
    /// receipts, and the nonce of each transaction's sender after it (`None`
    /// when the sender is not among its changed accounts). Every deposit receipt
    /// carries its nonce and version; a deposit whose sender is missing fails.
    pub fn calculate_receipt_root(
        &self,
        spec_id: OpSpecId,
        tx_types: &Vec<TxType>,
        receipts: &Vec<TxReceipt>,
        sender_nonces: &Vec<Option<u64>>,
    ) -> (r: Result<B256, CalculateReceiptRootError>)
        requires
            sender_nonces@.len() == receipts@.len(),
            forall|i: int| 0 <= i < tx_types@.len() ==> !((#[trigger] tx_types@[i]) is Eip4844),
            forall|i: int| 0 <= i < receipts@.len() ==> receipt_well_formed(#[trigger] receipts@[i]),
            forall|i: int|
                0 <= i < paired_len(tx_types@.len(), receipts@.len()) && (#[trigger] tx_types@[i]) is Deposit
                    && sender_nonces@[i] is Some ==> sender_nonces@[i]->0 > 0,
        ensures
            r == if deposit_sender_missing(tx_types@, sender_nonces@, paired_len(tx_types@.len(), receipts@.len())) {
                Err::<B256, CalculateReceiptRootError>(CalculateReceiptRootError::OpDepositMissingSender)
            } else {
                Ok(b256_from_bytes(trie_root(receipt_leaves(optimism_encodings(tx_types@, receipts@, sender_nonces@, true)))))
            },
    {
        optimism_receipt_root(true, tx_types, receipts, sender_nonces)
    }
}

} // verus!
