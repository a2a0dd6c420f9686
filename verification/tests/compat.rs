use pevm::chain::{Header, OpSpecId, SpecId};
use pevm::compat::{
    get_block_env, BlobExcessGasAndPrice, BlockEnv, BLOB_BASE_FEE_UPDATE_FRACTION_CANCUN,
    BLOB_BASE_FEE_UPDATE_FRACTION_PRAGUE,
};
use pevm::primitives::{Address, B256, U256};

fn repeated_address(byte: u8) -> Address {
    let b = byte as u64;
    let word = b * 0x0101_0101_0101_0101;
    Address { w0: (b * 0x0101_0101) as u32, w1: word, w2: word }
}

fn repeated_hash(byte: u8) -> B256 {
    let word = (byte as u64) * 0x0101_0101_0101_0101;
    B256 { w0: word, w1: word, w2: word, w3: word }
}

fn test_header() -> Header {
    Header {
        number: 42,
        beneficiary: repeated_address(0x11),
        timestamp: 1_717_171_717,
        gas_limit: 30_000_000,
        base_fee_per_gas: Some(123),
        difficulty: U256::from_u64(456),
        mix_hash: repeated_hash(0x22),
        ..Default::default()
    }
}

#[test]
fn get_block_env_copies_basic_fields_and_keeps_blob_none() {
    let header = test_header();

    assert_eq!(
        get_block_env(&header, SpecId::CANCUN),
        BlockEnv {
            number: U256::from_u64(header.number),
            beneficiary: header.beneficiary,
            timestamp: U256::from_u64(header.timestamp),
            gas_limit: header.gas_limit,
            basefee: header.base_fee_per_gas.unwrap(),
            difficulty: header.difficulty,
            prevrandao: Some(header.mix_hash),
            blob_excess_gas_and_price: None,
        }
    );
}

#[test]
fn get_block_env_uses_prague_blob_fraction_when_enabled() {
    let mut header = test_header();
    header.excess_blob_gas = Some(10_000_000);

    let cancun = BlobExcessGasAndPrice::new(header.excess_blob_gas.unwrap(), BLOB_BASE_FEE_UPDATE_FRACTION_CANCUN);
    let prague = BlobExcessGasAndPrice::new(header.excess_blob_gas.unwrap(), BLOB_BASE_FEE_UPDATE_FRACTION_PRAGUE);

    assert_ne!(cancun, prague);
    assert_eq!(get_block_env(&header, SpecId::CANCUN).blob_excess_gas_and_price, Some(cancun));
    assert_eq!(get_block_env(&header, SpecId::PRAGUE).blob_excess_gas_and_price, Some(prague));
}

#[test]
fn the_blob_price_is_the_one_revm_computes() {
    for (excess, fraction) in [(0u64, 3_338_477u64), (10_000_000, 3_338_477), (10_000_000, 5_007_716), (1, 1)] {
        let ours = BlobExcessGasAndPrice::new(excess, fraction);
        let theirs = revm::context_interface::block::BlobExcessGasAndPrice::new(excess, fraction);
        assert_eq!(ours.excess_blob_gas, theirs.excess_blob_gas);
        assert_eq!(ours.blob_gasprice, theirs.blob_gasprice);
    }
}

#[test]
fn no_excess_blob_gas_costs_the_minimum_price() {
    assert_eq!(BlobExcessGasAndPrice::new(0, BLOB_BASE_FEE_UPDATE_FRACTION_PRAGUE).blob_gasprice, 1);
}

#[test]
fn a_missing_base_fee_reads_as_zero() {
    let mut header = test_header();
    header.base_fee_per_gas = None;
    assert_eq!(get_block_env(&header, SpecId::LONDON).basefee, 0);
}

#[test]
fn osaka_keeps_the_prague_fraction() {
    let mut header = test_header();
    header.excess_blob_gas = Some(1_000_000);
    let prague = BlobExcessGasAndPrice::new(1_000_000, BLOB_BASE_FEE_UPDATE_FRACTION_PRAGUE);
    assert_eq!(get_block_env(&header, SpecId::OSAKA).blob_excess_gas_and_price, Some(prague));
}

#[test]
fn optimism_hardforks_map_to_their_ethereum_base() {
    assert_eq!(OpSpecId::BEDROCK.into_eth_spec(), SpecId::MERGE);
    assert_eq!(OpSpecId::CANYON.into_eth_spec(), SpecId::SHANGHAI);
    assert_eq!(OpSpecId::FJORD.into_eth_spec(), SpecId::CANCUN);
    assert_eq!(OpSpecId::ISTHMUS.into_eth_spec(), SpecId::PRAGUE);
}

#[test]
fn the_blob_price_follows_the_taylor_approximation() {
    assert_eq!(BlobExcessGasAndPrice::new(2, 1).blob_gasprice, 6);
    assert_eq!(BlobExcessGasAndPrice::new(3, 1).blob_gasprice, 16);
    assert_eq!(BlobExcessGasAndPrice::new(50_000_000, 2_225_652).blob_gasprice, 5_709_098_764);
}
