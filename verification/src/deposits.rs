//! The rules that RISE's EVM adds for deposit transactions: which transactions
//! are deposits, how they are validated, credited and charged, and how their
//! failures are reported.
use vstd::prelude::*;

use crate::primitives::{saturating_add_spec, u256_saturating_add, B256, U256};
use crate::chain::SpecId;
use crate::validation::{tx_env_check, validate_env, BlockFields, CfgFields, EnvError, InvalidHeader, InvalidTransaction, TxFields};

verus! {

/// The type byte of deposit transactions.
pub const DEPOSIT_TRANSACTION_TYPE: u8 = 0x7E;

/// The parts of a deposit transaction that other transactions do not have.
#[derive(Clone, Copy, Debug, Default, PartialEq, Eq, Structural)]
pub struct DepositTransactionParts {
    pub source_hash: B256,
    pub mint: Option<u128>,
    pub is_system_transaction: bool,
}

impl DepositTransactionParts {
    pub fn new(source_hash: B256, mint: Option<u128>, is_system_transaction: bool) -> (r: Self)
        ensures
            r == (DepositTransactionParts { source_hash, mint, is_system_transaction }),
    {
        DepositTransactionParts { source_hash, mint, is_system_transaction }
    }
}

/// Why RISE refuses a transaction.
#[derive(Clone, Copy, Debug, PartialEq, Eq, Structural)]
pub enum RiseTransactionError {
    Base(InvalidTransaction),
    DepositSystemTxPostRegolith,
    HaltedDepositPostRegolith,
    MissingEnvelopedTx,
}

/// The zero hash.
pub open spec fn zero_hash() -> B256 {
    B256 { w0: 0, w1: 0, w2: 0, w3: 0 }
}

/// The type of a transaction: a deposit when its source hash is not zero, else
/// the type of its base transaction.
pub fn rise_tx_type(base_tx_type: u8, deposit: &DepositTransactionParts) -> (r: u8)
    ensures
        r == if deposit.source_hash == zero_hash() {
            base_tx_type
        } else {
            DEPOSIT_TRANSACTION_TYPE
        },
{
    if deposit.source_hash == (B256 { w0: 0, w1: 0, w2: 0, w3: 0 }) {
        base_tx_type
    } else {
        DEPOSIT_TRANSACTION_TYPE
    }
}

/// The gas price a transaction pays per gas: a deposit pays its gas price (zero),
/// others the effective gas price of their base transaction.
pub fn rise_effective_gas_price(tx_type: u8, gas_price: u128, base_effective_gas_price: u128) -> (r: u128)
    ensures
        r == if tx_type == DEPOSIT_TRANSACTION_TYPE {
            gas_price
        } else {
            base_effective_gas_price
        },
{
    if tx_type == DEPOSIT_TRANSACTION_TYPE {
        gas_price
    } else {
        base_effective_gas_price
    }
}

/// Validates the environment of a transaction for RISE, which is always past
/// Regolith: a deposit must not be a system transaction and needs no other
/// check; any other transaction must carry its enveloped bytes (for the L1
/// cost) and then goes through the mainnet checks, which `Ok(true)` asks for.
pub fn validate_rise_env(tx_type: u8, is_system_transaction: bool, has_enveloped_tx: bool) -> (r: Result<
    bool,
    RiseTransactionError,
>)
    ensures
        r == if tx_type == DEPOSIT_TRANSACTION_TYPE {
            if is_system_transaction {
                Err(RiseTransactionError::DepositSystemTxPostRegolith)
            } else {
                Ok(false)
            }
        } else if !has_enveloped_tx {
            Err(RiseTransactionError::MissingEnvelopedTx)
        } else {
            Ok::<bool, RiseTransactionError>(true)
        },
{
    if tx_type == DEPOSIT_TRANSACTION_TYPE {
        if is_system_transaction {
            return Err(RiseTransactionError::DepositSystemTxPostRegolith);
        }
        return Ok(false);
    }
    if !has_enveloped_tx {
        return Err(RiseTransactionError::MissingEnvelopedTx);
    }
    Ok(true)
}

/// Why RISE refuses the environment of a transaction: its block header, or the
/// transaction (with the mainnet refusals as `Base`).
#[derive(Clone, Copy, Debug, PartialEq, Eq, Structural)]
pub enum RiseEnvError {
    Header(InvalidHeader),
    Transaction(RiseTransactionError),
}

/// Validates the environment of a transaction for RISE: the RISE checks of
/// `validate_rise_env` and then, for a transaction they pass on, the mainnet
/// checks of the block and the transaction.
pub fn validate_rise_tx_env(
    tx_type: u8,
    is_system_transaction: bool,
    has_enveloped_tx: bool,
    tx: &TxFields,
    cfg: &CfgFields,
    block: &BlockFields,
    spec_id: SpecId,
) -> (r: Result<(), RiseEnvError>)
    requires
        cfg.max_blobs_per_tx matches Some(m) ==> m <= usize::MAX,
    ensures
        r == if tx_type == DEPOSIT_TRANSACTION_TYPE {
            if is_system_transaction {
                Err(RiseEnvError::Transaction(RiseTransactionError::DepositSystemTxPostRegolith))
            } else {
                Ok(())
            }
        } else if !has_enveloped_tx {
            Err(RiseEnvError::Transaction(RiseTransactionError::MissingEnvelopedTx))
        } else if spec_id.rank() >= SpecId::MERGE.rank() && !block.has_prevrandao {
            Err(RiseEnvError::Header(InvalidHeader::PrevrandaoNotSet))
        } else if spec_id.rank() >= SpecId::CANCUN.rank() && !block.has_blob_excess_gas_and_price {
            Err(RiseEnvError::Header(InvalidHeader::ExcessBlobGasNotSet))
        } else {
            match tx_env_check(*tx, *cfg, *block, spec_id) {
                Ok(()) => Ok::<(), RiseEnvError>(()),
                Err(e) => Err(RiseEnvError::Transaction(RiseTransactionError::Base(e))),
            }
        },
{
    match validate_rise_env(tx_type, is_system_transaction, has_enveloped_tx) {
        Err(e) => Err(RiseEnvError::Transaction(e)),
        Ok(false) => Ok(()),
        Ok(true) => match validate_env(tx, cfg, block, spec_id) {
            Ok(()) => Ok(()),
            Err(EnvError::Header(h)) => Err(RiseEnvError::Header(h)),
            Err(EnvError::Transaction(e)) => Err(RiseEnvError::Transaction(RiseTransactionError::Base(e))),
        },
    }
}

/// The balance of a deposit's caller before execution: the minted amount is
/// credited (held at the largest word). A deposit has a zero gas price and no
/// blobs, so it is charged nothing else.
pub fn deposit_caller_balance(balance: U256, mint: Option<u128>) -> (r: U256)
    ensures
        r.value() == saturating_add_spec(
            balance.value(),
            match mint {
                Some(m) => m as nat,
                None => 0,
            },
        ),
{
    let minted = match mint {
        Some(m) => m,
        None => 0,
    };
    u256_saturating_add(balance, U256::from_u128(minted))
}

/// The base fee a non-deposit transaction pays to the base fee vault: the base
/// fee times the gas used beyond the state gas reservoir (a product of two
/// `u64`, which a `u128` always holds).
pub fn rise_base_fee_amount(basefee: u64, gas_used: u64, reservoir: u64) -> (r: U256)
    ensures
        r.value() == basefee * (if gas_used >= reservoir {
            gas_used - reservoir
        } else {
            0
        }),
{
    let effective = gas_used.saturating_sub(reservoir);
    let (b, e) = (basefee as u128, effective as u128);
    assert(b * e <= u64::MAX * u64::MAX) by (nonlinear_arith)
        requires
            b <= u64::MAX,
            e <= u64::MAX,
    ;
    U256::from_u128(b * e)
}

/// Checks the outcome of an execution: a halted deposit is an error after
/// Regolith, which RISE always is.
pub fn check_deposit_outcome(is_halt: bool, tx_type: u8) -> (r: Result<(), RiseTransactionError>)
    ensures
        r == if is_halt && tx_type == DEPOSIT_TRANSACTION_TYPE {
            Err(RiseTransactionError::HaltedDepositPostRegolith)
        } else {
            Ok::<(), RiseTransactionError>(())
        },
{
    if is_halt && tx_type == DEPOSIT_TRANSACTION_TYPE {
        Err(RiseTransactionError::HaltedDepositPostRegolith)
    } else {
        Ok(())
    }
}

/// Whether a failed transaction becomes a failed deposit: a deposit refused as a
/// transaction still bumps its caller's nonce, credits the mint, and spends its
/// whole gas limit, instead of failing the block.
pub fn is_failed_deposit(is_transaction_error: bool, tx_type: u8) -> (r: bool)
    ensures
        r == (is_transaction_error && tx_type == DEPOSIT_TRANSACTION_TYPE),
{
    is_transaction_error && tx_type == DEPOSIT_TRANSACTION_TYPE
}

} // verus!
