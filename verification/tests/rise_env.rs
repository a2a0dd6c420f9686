use pevm::chain::SpecId;
use pevm::deposits::{validate_rise_tx_env, RiseEnvError, RiseTransactionError, DEPOSIT_TRANSACTION_TYPE};
use pevm::validation::{BlockFields, CfgFields, InvalidHeader, InvalidTransaction, TransactionType, TxFields};

fn tx(gas_price: u128) -> TxFields {
    TxFields {
        tx_type: TransactionType::Legacy,
        chain_id: Some(1),
        gas_limit: 21_000,
        gas_price,
        max_fee_per_gas: gas_price,
        max_priority_fee_per_gas: None,
        blob_versioned_hashes: vec![],
        max_fee_per_blob_gas: 0,
        authorization_list_len: 0,
        is_create: false,
        input_len: 0,
        nonce: 0,
    }
}

fn cfg() -> CfgFields {
    CfgFields {
        chain_id: 1,
        tx_chain_id_check: true,
        base_fee_check_disabled: false,
        priority_fee_check_disabled: false,
        block_gas_limit_disabled: false,
        amsterdam_eip8037_enabled: false,
        tx_gas_limit_cap: 30_000_000,
        max_blobs_per_tx: Some(6),
        max_initcode_size: 49_152,
    }
}

fn block(has_prevrandao: bool) -> BlockFields {
    BlockFields {
        basefee: 50,
        gas_limit: 30_000_000,
        blob_gasprice: Some(1),
        has_prevrandao,
        has_blob_excess_gas_and_price: true,
    }
}

#[test]
fn a_deposit_skips_the_mainnet_checks() {
    assert_eq!(validate_rise_tx_env(DEPOSIT_TRANSACTION_TYPE, false, false, &tx(0), &cfg(), &block(false), SpecId::CANCUN), Ok(()));
    assert_eq!(
        validate_rise_tx_env(DEPOSIT_TRANSACTION_TYPE, true, false, &tx(0), &cfg(), &block(true), SpecId::CANCUN),
        Err(RiseEnvError::Transaction(RiseTransactionError::DepositSystemTxPostRegolith))
    );
}

#[test]
fn other_transactions_need_their_envelope_then_pass_the_mainnet_checks() {
    assert_eq!(
        validate_rise_tx_env(0, false, false, &tx(100), &cfg(), &block(true), SpecId::CANCUN),
        Err(RiseEnvError::Transaction(RiseTransactionError::MissingEnvelopedTx))
    );
    assert_eq!(
        validate_rise_tx_env(0, false, true, &tx(100), &cfg(), &block(false), SpecId::CANCUN),
        Err(RiseEnvError::Header(InvalidHeader::PrevrandaoNotSet))
    );
    assert_eq!(
        validate_rise_tx_env(0, false, true, &tx(10), &cfg(), &block(true), SpecId::CANCUN),
        Err(RiseEnvError::Transaction(RiseTransactionError::Base(InvalidTransaction::GasPriceLessThanBasefee)))
    );
    assert_eq!(validate_rise_tx_env(0, false, true, &tx(100), &cfg(), &block(true), SpecId::CANCUN), Ok(()));
}
