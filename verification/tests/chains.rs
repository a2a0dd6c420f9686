use std::hash::BuildHasher;

use pevm::chain::ethereum::{get_ethereum_gas_price, EthereumTransactionParsingError, PevmEthereum};
use pevm::chain::optimism::{
    base_fee_recipient, copy_indices, get_optimism_gas_price, l1_fee_recipient, operator_fee_recipient,
    OptimismBlockSpecError, OptimismTransactionParsingError, PevmOptimism,
};
use pevm::chain::rise::{get_gas_price, PevmRise, RiseTransactionParsingError, RISE_CHAIN_ID};
use pevm::chain::{Header, OpSpecId, SpecId, TxType};
use pevm::execution::RewardPolicy;
use pevm::hashing::MemoryLocation;
use pevm::primitives::{Address, U256};

fn address(n: u64) -> Address {
    Address { w0: 0, w1: 0, w2: n }
}

fn word(n: u64) -> U256 {
    U256::from_u64(n)
}

fn basic(a: Address) -> u64 {
    rustc_hash::FxBuildHasher.hash_one(MemoryLocation::Basic(a))
}

fn header(number: u64, timestamp: u64) -> Header {
    Header { number, timestamp, ..Default::default() }
}

#[test]
fn mainnet_follows_the_canonical_schedule() {
    let chain = PevmEthereum::mainnet();
    assert_eq!(chain.get_block_spec(&header(0, 0)), Ok(SpecId::FRONTIER));
    assert_eq!(chain.get_block_spec(&header(12_965_000, 0)), Ok(SpecId::LONDON));
    assert_eq!(chain.get_block_spec(&header(15_537_394, 0)), Ok(SpecId::MERGE));
    assert_eq!(chain.get_block_spec(&header(20_000_000, 1_710_338_135)), Ok(SpecId::CANCUN));
}

#[test]
fn ethereum_fees_and_flags_follow_the_hardforks() {
    let chain = PevmEthereum::mainnet();
    assert_eq!(chain.max_blobs_per_tx(SpecId::SHANGHAI), None);
    assert_eq!(chain.max_blobs_per_tx(SpecId::CANCUN), Some(6));
    assert_eq!(chain.max_blobs_per_tx(SpecId::PRAGUE), Some(9));
    assert!(!chain.is_eip_1559_enabled(SpecId::BERLIN));
    assert!(chain.is_eip_1559_enabled(SpecId::LONDON));
    assert!(!chain.is_eip_161_enabled(SpecId::TANGERINE));
    assert!(chain.is_eip_161_enabled(SpecId::SPURIOUS_DRAGON));
    assert_eq!(chain.reward_policy(), RewardPolicy::Ethereum);
    assert_eq!(chain.get_rewards(7, word(21_000), word(3)), vec![(7, word(63_000))]);
}

#[test]
fn ethereum_gas_prices_come_from_the_transaction_type() {
    assert_eq!(get_ethereum_gas_price(TxType::Legacy, Some(5), 9), Ok(5));
    assert_eq!(get_ethereum_gas_price(TxType::Eip2930, None, 9), Err(EthereumTransactionParsingError::MissingGasPrice));
    assert_eq!(get_ethereum_gas_price(TxType::Eip1559, None, 9), Ok(9));
}

#[test]
fn the_ethereum_beneficiary_is_lazy_and_dense() {
    let beneficiary = address(9);
    let mut mv = PevmEthereum::mainnet().build_mv_memory(beneficiary, 3);
    assert!(mv.is_lazy(&beneficiary));
    assert_eq!(mv.dense_slots(basic(beneficiary)), Some(vec![None, None, None]));
}

#[test]
fn optimism_schedule_starts_at_regolith() {
    let chain = PevmOptimism::mainnet();
    assert_eq!(chain.id(), 10);
    assert_eq!(PevmOptimism::custom(8453).id(), 8453);
    assert_eq!(chain.get_block_spec(&header(105_235_062, 0)), Err(OptimismBlockSpecError::UnsupportedSpec));
    assert_eq!(chain.get_block_spec(&header(105_235_063, 0)), Ok(OpSpecId::REGOLITH));
    assert_eq!(chain.get_block_spec(&header(0, 1_704_992_401)), Ok(OpSpecId::CANYON));
    assert_eq!(chain.get_block_spec(&header(0, 1_710_374_401)), Ok(OpSpecId::ECOTONE));
    assert_eq!(chain.get_block_spec(&header(0, 1_720_627_201)), Ok(OpSpecId::FJORD));
}

#[test]
fn optimism_deposits_pay_nothing() {
    assert_eq!(get_optimism_gas_price(TxType::Deposit, None, 9), Ok(0));
    assert_eq!(get_optimism_gas_price(TxType::Legacy, None, 9), Err(OptimismTransactionParsingError::MissingGasPrice));
    assert_eq!(get_optimism_gas_price(TxType::Eip7702, None, 9), Ok(9));
    let chain = PevmOptimism::mainnet();
    assert!(chain.get_rewards(7, word(10), word(2), 3, true, word(4)).is_empty());
}

#[test]
fn optimism_pays_the_fee_vaults() {
    let chain = PevmOptimism::mainnet();
    let l1 = rustc_hash::FxBuildHasher.hash_one(l1_fee_recipient());
    let base = rustc_hash::FxBuildHasher.hash_one(base_fee_recipient());
    assert_eq!(chain.get_rewards(7, word(10), word(2), 3, false, word(4)), vec![(7, word(20)), (l1, word(4)), (base, word(30))]);
}

#[test]
fn optimism_fee_recipients_are_lazy_and_dense() {
    let beneficiary = address(9);
    let mut mv = PevmOptimism::mainnet().build_mv_memory(beneficiary, &vec![true, false, false]);
    assert!(mv.is_lazy(&beneficiary));
    assert!(mv.is_lazy(&l1_fee_recipient()));
    assert!(mv.is_lazy(&base_fee_recipient()));
    // The bare address hashes like its basic location, whose lazy layout replaces
    // the estimates.
    let l1 = rustc_hash::FxBuildHasher.hash_one(l1_fee_recipient());
    assert_eq!(l1, basic(l1_fee_recipient()));
    assert_eq!(mv.entry_below(l1, 3), Some(None));
    assert_eq!(mv.dense_slots(l1), Some(vec![None, None, None]));
}

#[test]
fn rise_is_always_on_jovian() {
    let chain = PevmRise;
    assert_eq!(chain.id(), RISE_CHAIN_ID);
    assert_eq!(chain.get_block_spec(&header(0, 0)), Ok(OpSpecId::JOVIAN));
    assert!(chain.has_nonce(false));
    assert!(!chain.has_nonce(true));
    assert!(chain.is_eip_1559_enabled(OpSpecId::JOVIAN));
    assert!(chain.is_eip_161_enabled(OpSpecId::JOVIAN));
}

#[test]
fn rise_touches_the_disabled_fee_recipients_with_zero() {
    let chain = PevmRise;
    assert_eq!(
        chain.get_rewards(7, word(10), word(2), 3, false),
        vec![
            (7, word(20)),
            (basic(base_fee_recipient()), word(30)),
            (basic(l1_fee_recipient()), word(0)),
            (basic(operator_fee_recipient()), word(0)),
        ]
    );
    assert!(chain.get_rewards(7, word(10), word(2), 3, true).is_empty());
}

#[test]
fn rise_post_execution_transactions_are_free() {
    assert_eq!(get_gas_price(TxType::PostExec, None, 9), Ok(0));
    assert_eq!(get_gas_price(TxType::Deposit, Some(4), 9), Ok(0));
    assert_eq!(get_gas_price(TxType::Eip2930, None, 9), Err(RiseTransactionParsingError::MissingGasPrice));
}

#[test]
fn copying_indices_keeps_them() {
    assert_eq!(copy_indices(&vec![0, 3, 4]), vec![0, 3, 4]);
}
