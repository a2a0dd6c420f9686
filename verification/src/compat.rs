//! The block environment of the EVM, from a block header.
use vstd::prelude::*;

use crate::chain::{Header, OpSpecId, SpecId};
use crate::primitives::{Address, B256, U256};

verus! {

/// The blob base fee update fraction from Cancun.
pub const BLOB_BASE_FEE_UPDATE_FRACTION_CANCUN: u64 = 3_338_477;

/// The blob base fee update fraction from Prague.
pub const BLOB_BASE_FEE_UPDATE_FRACTION_PRAGUE: u64 = 5_007_716;

/// The sum of the Taylor terms of `e ** (numerator / denominator)` (scaled by
/// the denominator) from the term `accum` of rank `i` on: each next term is
/// the last times the numerator over the denominator times the rank, rounded
/// down, until a term is zero.
pub open spec fn taylor_terms(accum: nat, numerator: nat, denominator: nat, i: nat) -> nat
    decreases (if i * denominator <= numerator {
        (numerator - i * denominator + 1) as nat
    } else {
        0nat
    }), accum,
{
    if accum == 0 || denominator == 0 || i == 0 {
        0
    } else {
        proof {
            lemma_taylor_step(accum, numerator, denominator, i);
        }
        accum + taylor_terms(accum * numerator / (denominator * i), numerator, denominator, i + 1)
    }
}

/// Each Taylor step brings the loop closer to its end: the rank grows towards
/// the ratio, and past it the terms shrink.
pub proof fn lemma_taylor_step(accum: nat, numerator: nat, denominator: nat, i: nat)
    requires
        accum > 0,
        denominator > 0,
        i > 0,
    ensures
        (i + 1) * denominator == i * denominator + denominator,
        i * denominator > numerator ==> accum * numerator / (denominator * i) < accum,
{
    assert((i + 1) * denominator == i * denominator + denominator) by (nonlinear_arith);
    if i * denominator > numerator {
        assert(accum * numerator / (denominator * i) < accum) by (nonlinear_arith)
            requires
                accum > 0,
                denominator * i > numerator,
                denominator * i > 0,
        {
            assert(accum * numerator < accum * (denominator * i));
        }
    }
}

/// `factor * e ** (numerator / denominator)` as revm's `fake_exponential`
/// approximates it: the sum of the Taylor terms, scaled by the denominator,
/// divided by the denominator.
pub open spec fn fake_exponential(factor: nat, numerator: nat, denominator: nat) -> nat {
    taylor_terms(factor * denominator, numerator, denominator, 1) / denominator
}

/// The excess blob gas of a block and the blob gas price it gives.
#[derive(Debug, Clone, Copy, PartialEq, Eq, Structural)]
pub struct BlobExcessGasAndPrice {
    pub excess_blob_gas: u64,
    pub blob_gasprice: u128,
}

/// Whether revm's Taylor loop, from the term `accum` of rank `i` with the
/// running sum `output`, computes without overflowing `u128`: each step adds
/// the term to the sum, multiplies it by the numerator and the denominator by
/// the rank, and each of these must fit.
pub open spec fn taylor_fits(accum: nat, numerator: nat, denominator: nat, i: nat, output: nat) -> bool
    decreases (if i * denominator <= numerator {
        (numerator - i * denominator + 1) as nat
    } else {
        0nat
    }), accum,
{
    if accum == 0 || denominator == 0 || i == 0 {
        true
    } else {
        proof {
            lemma_taylor_step(accum, numerator, denominator, i);
        }
        &&& output + accum <= u128::MAX
        &&& accum * numerator <= u128::MAX
        &&& denominator * i <= u128::MAX
        &&& taylor_fits(accum * numerator / (denominator * i), numerator, denominator, i + 1, output + accum)
    }
}

/// Whether `calc_blob_gasprice` computes: a fraction that is not zero, and a
/// Taylor loop that never overflows `u128`.
pub open spec fn blob_price_in_range(excess_blob_gas: u64, blob_base_fee_update_fraction: u64) -> bool {
    &&& blob_base_fee_update_fraction > 0
    &&& taylor_fits(blob_base_fee_update_fraction as nat, excess_blob_gas as nat, blob_base_fee_update_fraction as nat, 1, 0)
}

/// Wraps `revm::context_interface::block::BlobExcessGasAndPrice::new`, which keeps
/// the excess blob gas and computes the price with `calc_blob_gasprice` (a
/// Taylor approximation of an exponential, from a minimal price of 1). It
/// asserts that the fraction is not zero, and its `u128` loop panics on an
/// overflow, so the call is made only on inputs where neither happens
/// (`blob_price_in_range`). On those inputs the loop computes in `u128`
/// exactly what `fake_exponential` states over the integers.
#[verifier::external_body]
fn new_blob_excess_gas_and_price(excess_blob_gas: u64, blob_base_fee_update_fraction: u64) -> (r: BlobExcessGasAndPrice)
    requires
        blob_price_in_range(excess_blob_gas, blob_base_fee_update_fraction),
    ensures
        r.excess_blob_gas == excess_blob_gas,
        r.blob_gasprice == fake_exponential(1, excess_blob_gas as nat, blob_base_fee_update_fraction as nat),
{
    let b = revm::context_interface::block::BlobExcessGasAndPrice::new(excess_blob_gas, blob_base_fee_update_fraction);
    BlobExcessGasAndPrice { excess_blob_gas: b.excess_blob_gas, blob_gasprice: b.blob_gasprice }
}

impl BlobExcessGasAndPrice {
    /// The blob gas price of a block from its excess blob gas.
    pub fn new(excess_blob_gas: u64, blob_base_fee_update_fraction: u64) -> (r: BlobExcessGasAndPrice)
        requires
            blob_price_in_range(excess_blob_gas, blob_base_fee_update_fraction),
        ensures
            r.excess_blob_gas == excess_blob_gas,
            r.blob_gasprice == fake_exponential(1, excess_blob_gas as nat, blob_base_fee_update_fraction as nat),
    {
        new_blob_excess_gas_and_price(excess_blob_gas, blob_base_fee_update_fraction)
    }
}

/// The environment of a block for the EVM.
#[derive(Debug, Clone, Copy, PartialEq, Eq, Structural)]
pub struct BlockEnv {
    pub number: U256,
    pub beneficiary: Address,
    pub timestamp: U256,
    pub gas_limit: u64,
    pub basefee: u64,
    pub difficulty: U256,
    pub prevrandao: Option<B256>,
    pub blob_excess_gas_and_price: Option<BlobExcessGasAndPrice>,
}

/// The blob base fee update fraction of a hardfork.
pub open spec fn blob_fraction(spec_id: SpecId) -> u64 {
    if spec_id.rank() >= SpecId::PRAGUE.rank() {
        BLOB_BASE_FEE_UPDATE_FRACTION_PRAGUE
    } else {
        BLOB_BASE_FEE_UPDATE_FRACTION_CANCUN
    }
}

/// The block environment of a header: its fields as they are, no base fee read
/// as zero, the mix hash as the randomness, and the blob gas price from the
/// excess blob gas at the fraction of the hardfork.
pub fn get_block_env(header: &Header, spec_id: SpecId) -> (r: BlockEnv)
    requires
        header.excess_blob_gas matches Some(e) ==> blob_price_in_range(e, blob_fraction(spec_id)),
    ensures
        r.number.value() == header.number,
        r.beneficiary == header.beneficiary,
        r.timestamp.value() == header.timestamp,
        r.gas_limit == header.gas_limit,
        r.basefee == match header.base_fee_per_gas {
            Some(f) => f,
            None => 0,
        },
        r.difficulty == header.difficulty,
        r.prevrandao == Some(header.mix_hash),
        r.blob_excess_gas_and_price == match header.excess_blob_gas {
            Some(e) => Some(BlobExcessGasAndPrice { excess_blob_gas: e, blob_gasprice: fake_exponential(1, e as nat, blob_fraction(spec_id) as nat) as u128 }),
            None => None::<BlobExcessGasAndPrice>,
        },
{
    let blob_excess_gas_and_price = match header.excess_blob_gas {
        Some(excess_blob_gas) => Some(BlobExcessGasAndPrice::new(
            excess_blob_gas,
            if spec_id.is_enabled_in(SpecId::PRAGUE) {
                BLOB_BASE_FEE_UPDATE_FRACTION_PRAGUE
            } else {
                BLOB_BASE_FEE_UPDATE_FRACTION_CANCUN
            },
        )),
        None => None,
    };
    BlockEnv {
        number: U256::from_u64(header.number),
        beneficiary: header.beneficiary,
        timestamp: U256::from_u64(header.timestamp),
        gas_limit: header.gas_limit,
        basefee: match header.base_fee_per_gas {
            Some(f) => f,
            None => 0,
        },
        difficulty: header.difficulty,
        prevrandao: Some(header.mix_hash),
        blob_excess_gas_and_price,
    }
}

impl OpSpecId {
    /// The Ethereum hardfork an Optimism hardfork builds on.
    pub fn into_eth_spec(self) -> (r: SpecId)
        ensures
            r == match self {
                OpSpecId::BEDROCK | OpSpecId::REGOLITH => SpecId::MERGE,
                OpSpecId::CANYON => SpecId::SHANGHAI,
                OpSpecId::ECOTONE | OpSpecId::FJORD | OpSpecId::GRANITE | OpSpecId::HOLOCENE => SpecId::CANCUN,
                OpSpecId::ISTHMUS | OpSpecId::JOVIAN | OpSpecId::INTEROP => SpecId::PRAGUE,
                OpSpecId::KARST => SpecId::OSAKA,
            },
    {
        match self {
            OpSpecId::BEDROCK | OpSpecId::REGOLITH => SpecId::MERGE,
            OpSpecId::CANYON => SpecId::SHANGHAI,
            OpSpecId::ECOTONE | OpSpecId::FJORD | OpSpecId::GRANITE | OpSpecId::HOLOCENE => SpecId::CANCUN,
            OpSpecId::ISTHMUS | OpSpecId::JOVIAN | OpSpecId::INTEROP => SpecId::PRAGUE,
            OpSpecId::KARST => SpecId::OSAKA,
        }
    }
}

} // verus!
