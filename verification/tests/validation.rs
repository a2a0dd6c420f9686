use pevm::chain::SpecId;
use pevm::primitives::B256;
use pevm::validation::{
    check_initial_tx_gas, try_validate_initial_tx_gas, validate_eip4844_tx, validate_env,
    validate_legacy_gas_price, validate_priority_fee_tx, validate_tx_env, BlockFields, CfgFields, EnvError,
    InitialAndFloorGas, InvalidHeader, InvalidTransaction, TransactionType, TxFields,
};

fn kzg_hash() -> B256 {
    B256 { w0: 0x0100_0000_0000_0000, w1: 0, w2: 0, w3: 7 }
}

fn tx(tx_type: TransactionType) -> TxFields {
    TxFields {
        tx_type,
        chain_id: Some(1),
        gas_limit: 21_000,
        gas_price: 100,
        max_fee_per_gas: 100,
        max_priority_fee_per_gas: Some(2),
        blob_versioned_hashes: vec![kzg_hash()],
        max_fee_per_blob_gas: 10,
        authorization_list_len: 1,
        is_create: false,
        input_len: 0,
        nonce: 0,
    }
}

fn cfg() -> CfgFields {
    CfgFields {
        chain_id: 1,
        tx_chain_id_check: true,
        base_fee_check_disabled: false,
        priority_fee_check_disabled: false,
        block_gas_limit_disabled: false,
        amsterdam_eip8037_enabled: false,
        tx_gas_limit_cap: 30_000_000,
        max_blobs_per_tx: Some(6),
        max_initcode_size: 49_152,
    }
}

fn block() -> BlockFields {
    BlockFields {
        basefee: 50,
        gas_limit: 30_000_000,
        blob_gasprice: Some(1),
        has_prevrandao: true,
        has_blob_excess_gas_and_price: true,
    }
}

#[test]
fn a_legacy_price_must_cover_the_base_fee() {
    assert_eq!(validate_legacy_gas_price(49, Some(50)), Err(InvalidTransaction::GasPriceLessThanBasefee));
    assert_eq!(validate_legacy_gas_price(50, Some(50)), Ok(()));
    assert_eq!(validate_legacy_gas_price(0, None), Ok(()));
}

#[test]
fn a_priority_fee_must_fit_under_the_max_fee() {
    assert_eq!(validate_priority_fee_tx(10, 11, None, false), Err(InvalidTransaction::PriorityFeeGreaterThanMaxFee));
    assert_eq!(validate_priority_fee_tx(10, 11, None, true), Ok(()));
    assert_eq!(validate_priority_fee_tx(40, 1, Some(50), false), Err(InvalidTransaction::GasPriceLessThanBasefee));
    assert_eq!(validate_priority_fee_tx(u128::MAX, u128::MAX, Some(50), false), Ok(()));
}

#[test]
fn blob_transactions_are_checked_in_order() {
    assert_eq!(
        validate_eip4844_tx(&vec![kzg_hash()], 1, 2, None),
        Err(InvalidTransaction::BlobGasPriceGreaterThanMax { block_blob_gas_price: 2, tx_max_fee_per_blob_gas: 1 })
    );
    assert_eq!(validate_eip4844_tx(&vec![], 1, 1, None), Err(InvalidTransaction::EmptyBlobs));
    let wrong = B256 { w0: 0x0200_0000_0000_0000, w1: 0, w2: 0, w3: 0 };
    assert_eq!(validate_eip4844_tx(&vec![kzg_hash(), wrong], 1, 1, None), Err(InvalidTransaction::BlobVersionNotSupported));
    assert_eq!(
        validate_eip4844_tx(&vec![kzg_hash(); 3], 1, 1, Some(2)),
        Err(InvalidTransaction::TooManyBlobs { have: 3, max: 2 })
    );
    assert_eq!(validate_eip4844_tx(&vec![kzg_hash(); 2], 1, 1, Some(2)), Ok(()));
}

#[test]
fn the_chain_id_is_checked_unless_legacy() {
    let mut t = tx(TransactionType::Eip1559);
    t.chain_id = Some(5);
    assert_eq!(validate_tx_env(&t, &cfg(), &block(), SpecId::CANCUN), Err(InvalidTransaction::InvalidChainId));
    t.chain_id = None;
    assert_eq!(validate_tx_env(&t, &cfg(), &block(), SpecId::CANCUN), Err(InvalidTransaction::MissingChainId));
    let mut legacy = tx(TransactionType::Legacy);
    legacy.chain_id = None;
    assert_eq!(validate_tx_env(&legacy, &cfg(), &block(), SpecId::CANCUN), Ok(()));
}

#[test]
fn the_gas_limit_cap_and_the_block_limit_apply() {
    let mut t = tx(TransactionType::Legacy);
    t.gas_limit = 30_000_001;
    assert_eq!(
        validate_tx_env(&t, &cfg(), &block(), SpecId::CANCUN),
        Err(InvalidTransaction::TxGasLimitGreaterThanCap { gas_limit: 30_000_001, cap: 30_000_000 })
    );
    let mut small = block();
    small.gas_limit = 20_000;
    assert_eq!(
        validate_tx_env(&tx(TransactionType::Legacy), &cfg(), &small, SpecId::CANCUN),
        Err(InvalidTransaction::CallerGasLimitMoreThanBlock)
    );
}

#[test]
fn each_type_needs_its_hardfork() {
    let c = cfg();
    let b = block();
    assert_eq!(
        validate_tx_env(&tx(TransactionType::Eip2930), &c, &b, SpecId::ISTANBUL),
        Err(InvalidTransaction::Eip2930NotSupported)
    );
    assert_eq!(
        validate_tx_env(&tx(TransactionType::Eip1559), &c, &b, SpecId::BERLIN),
        Err(InvalidTransaction::Eip1559NotSupported)
    );
    assert_eq!(
        validate_tx_env(&tx(TransactionType::Eip4844), &c, &b, SpecId::SHANGHAI),
        Err(InvalidTransaction::Eip4844NotSupported)
    );
    assert_eq!(
        validate_tx_env(&tx(TransactionType::Eip7702), &c, &b, SpecId::CANCUN),
        Err(InvalidTransaction::Eip7702NotSupported)
    );
    for t in [TransactionType::Eip2930, TransactionType::Eip1559, TransactionType::Eip4844, TransactionType::Eip7702] {
        assert_eq!(validate_tx_env(&tx(t), &c, &b, SpecId::PRAGUE), Ok(()));
    }
}

#[test]
fn an_authorization_list_must_not_be_empty() {
    let mut t = tx(TransactionType::Eip7702);
    t.authorization_list_len = 0;
    assert_eq!(validate_tx_env(&t, &cfg(), &block(), SpecId::PRAGUE), Err(InvalidTransaction::EmptyAuthorizationList));
}

#[test]
fn init_code_and_nonce_limits_apply() {
    let mut t = tx(TransactionType::Legacy);
    t.is_create = true;
    t.input_len = 49_153;
    assert_eq!(validate_tx_env(&t, &cfg(), &block(), SpecId::SHANGHAI), Err(InvalidTransaction::CreateInitCodeSizeLimit));
    assert_eq!(validate_tx_env(&t, &cfg(), &block(), SpecId::MERGE), Ok(()));
    let mut t = tx(TransactionType::Legacy);
    t.nonce = u64::MAX;
    assert_eq!(validate_tx_env(&t, &cfg(), &block(), SpecId::CANCUN), Err(InvalidTransaction::NonceOverflowInTransaction));
}

#[test]
fn the_header_is_checked_before_the_transaction() {
    let mut b = block();
    b.has_prevrandao = false;
    assert_eq!(
        validate_env(&tx(TransactionType::Legacy), &cfg(), &b, SpecId::MERGE),
        Err(EnvError::Header(InvalidHeader::PrevrandaoNotSet))
    );
    assert_eq!(validate_env(&tx(TransactionType::Legacy), &cfg(), &b, SpecId::LONDON), Ok(()));
    let mut b = block();
    b.has_blob_excess_gas_and_price = false;
    assert_eq!(
        validate_env(&tx(TransactionType::Legacy), &cfg(), &b, SpecId::CANCUN),
        Err(EnvError::Header(InvalidHeader::ExcessBlobGasNotSet))
    );
    let mut t = tx(TransactionType::Legacy);
    t.gas_price = 1;
    assert_eq!(
        validate_env(&t, &cfg(), &block(), SpecId::CANCUN),
        Err(EnvError::Transaction(InvalidTransaction::GasPriceLessThanBasefee))
    );
}

#[test]
fn a_plain_call_costs_twenty_one_thousand_gas() {
    assert_eq!(
        try_validate_initial_tx_gas(&vec![], false, 0, 0, 0, 20_999, SpecId::LONDON, false, false, 30_000_000),
        Some(Err(InvalidTransaction::CallGasCostMoreThanGasLimit { gas_limit: 20_999, initial_gas: 21_000 }))
    );
    let ok = try_validate_initial_tx_gas(&vec![], false, 0, 0, 0, 21_000, SpecId::LONDON, false, false, 30_000_000);
    assert!(matches!(ok, Some(Ok(g)) if g.initial_regular_gas == 21_000 && g.initial_state_gas == 0));
}

#[test]
fn the_intrinsic_gas_is_revms() {
    let input = vec![1u8; 100];
    for (ours, theirs) in [
        (SpecId::LONDON, revm::primitives::hardfork::SpecId::LONDON),
        (SpecId::PRAGUE, revm::primitives::hardfork::SpecId::PRAGUE),
    ] {
        let expected =
            revm::context_interface::cfg::gas::calculate_initial_tx_gas(theirs, &input, true, 1, 2, 0, None);
        let got = try_validate_initial_tx_gas(&input, true, 1, 2, 0, 1_000_000, ours, false, false, 30_000_000);
        assert_eq!(
            got,
            Some(Ok(InitialAndFloorGas {
                initial_regular_gas: expected.initial_regular_gas,
                initial_state_gas: expected.initial_state_gas,
                floor_gas: expected.floor_gas,
            }))
        );
    }
}

#[test]
fn the_calldata_floor_applies_from_prague() {
    let gas = InitialAndFloorGas { initial_regular_gas: 22_600, initial_state_gas: 0, floor_gas: 25_000 };
    assert_eq!(
        check_initial_tx_gas(gas, 24_000, SpecId::PRAGUE, false, false, 30_000_000),
        Err(InvalidTransaction::GasFloorMoreThanGasLimit { gas_floor: 25_000, gas_limit: 24_000 })
    );
    assert_eq!(check_initial_tx_gas(gas, 24_000, SpecId::CANCUN, false, false, 30_000_000), Ok(gas));
    assert_eq!(
        check_initial_tx_gas(gas, 24_000, SpecId::PRAGUE, true, false, 30_000_000),
        Ok(InitialAndFloorGas { floor_gas: 0, ..gas })
    );
}

#[test]
fn state_gas_caps_the_regular_part() {
    let gas = InitialAndFloorGas { initial_regular_gas: 40_000, initial_state_gas: 10, floor_gas: 0 };
    assert_eq!(
        check_initial_tx_gas(gas, 100_000, SpecId::PRAGUE, false, true, 30_000),
        Err(InvalidTransaction::GasFloorMoreThanGasLimit { gas_floor: 40_000, gas_limit: 30_000 })
    );
}
