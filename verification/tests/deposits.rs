use pevm::deposits::{
    check_deposit_outcome, deposit_caller_balance, is_failed_deposit, rise_base_fee_amount, rise_effective_gas_price,
    rise_tx_type, validate_rise_env, DepositTransactionParts, RiseTransactionError, DEPOSIT_TRANSACTION_TYPE,
};
use pevm::primitives::{B256, U256};

#[test]
fn a_source_hash_makes_a_deposit() {
    let none = DepositTransactionParts::default();
    assert_eq!(rise_tx_type(2, &none), 2);
    let deposit = DepositTransactionParts::new(B256 { w0: 0, w1: 0, w2: 0, w3: 1 }, Some(5), false);
    assert_eq!(rise_tx_type(2, &deposit), DEPOSIT_TRANSACTION_TYPE);
    assert_eq!(deposit.mint, Some(5));
}

#[test]
fn deposits_pay_their_own_gas_price() {
    assert_eq!(rise_effective_gas_price(DEPOSIT_TRANSACTION_TYPE, 0, 77), 0);
    assert_eq!(rise_effective_gas_price(2, 0, 77), 77);
}

#[test]
fn the_environment_checks_of_rise() {
    assert_eq!(
        validate_rise_env(DEPOSIT_TRANSACTION_TYPE, true, true),
        Err(RiseTransactionError::DepositSystemTxPostRegolith)
    );
    assert_eq!(validate_rise_env(DEPOSIT_TRANSACTION_TYPE, false, false), Ok(false));
    assert_eq!(validate_rise_env(2, false, false), Err(RiseTransactionError::MissingEnvelopedTx));
    assert_eq!(validate_rise_env(2, false, true), Ok(true));
}

#[test]
fn a_deposit_credits_its_mint() {
    assert_eq!(deposit_caller_balance(U256::from_u64(10), Some(5)), U256::from_u64(15));
    assert_eq!(deposit_caller_balance(U256::from_u64(10), None), U256::from_u64(10));
    assert_eq!(deposit_caller_balance(U256::max_value(), Some(1)), U256::max_value());
}

#[test]
fn the_base_fee_vault_is_paid_for_gas_beyond_the_reservoir() {
    assert_eq!(rise_base_fee_amount(7, 21_000, 1_000), U256::from_u64(140_000));
    assert_eq!(rise_base_fee_amount(7, 100, 1_000), U256::from_u64(0));
    assert_eq!(rise_base_fee_amount(u64::MAX, u64::MAX, 0), U256::from_u128(u64::MAX as u128 * u64::MAX as u128));
}

#[test]
fn a_halted_deposit_is_an_error() {
    assert_eq!(check_deposit_outcome(true, DEPOSIT_TRANSACTION_TYPE), Err(RiseTransactionError::HaltedDepositPostRegolith));
    assert_eq!(check_deposit_outcome(true, 2), Ok(()));
    assert_eq!(check_deposit_outcome(false, DEPOSIT_TRANSACTION_TYPE), Ok(()));
    assert!(is_failed_deposit(true, DEPOSIT_TRANSACTION_TYPE));
    assert!(!is_failed_deposit(true, 2));
    assert!(!is_failed_deposit(false, DEPOSIT_TRANSACTION_TYPE));
}
