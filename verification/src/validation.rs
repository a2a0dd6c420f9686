//! Validation of a transaction against its block and the EVM configuration,
//! before it executes.
use vstd::prelude::*;

use crate::chain::SpecId;
use crate::primitives::B256;

verus! {

/// Why a transaction is invalid.
#[derive(Clone, Copy, PartialEq, Eq, Structural, Debug)]
pub enum InvalidTransaction {
    GasPriceLessThanBasefee,
    PriorityFeeGreaterThanMaxFee,
    BlobGasPriceGreaterThanMax { block_blob_gas_price: u128, tx_max_fee_per_blob_gas: u128 },
    EmptyBlobs,
    BlobVersionNotSupported,
    TooManyBlobs { have: usize, max: usize },
    InvalidChainId,
    MissingChainId,
    TxGasLimitGreaterThanCap { gas_limit: u64, cap: u64 },
    Eip2930NotSupported,
    Eip1559NotSupported,
    Eip4844NotSupported,
    Eip7702NotSupported,
    EmptyAuthorizationList,
    CallerGasLimitMoreThanBlock,
    CreateInitCodeSizeLimit,
    NonceOverflowInTransaction,
    CallGasCostMoreThanGasLimit { gas_limit: u64, initial_gas: u64 },
    GasFloorMoreThanGasLimit { gas_floor: u64, gas_limit: u64 },
}

/// Why a block header is invalid for its hardfork.
#[derive(Clone, Copy, PartialEq, Eq, Structural, Debug)]
pub enum InvalidHeader {
    PrevrandaoNotSet,
    ExcessBlobGasNotSet,
}

/// A failed validation of the environment.
#[derive(Clone, Copy, PartialEq, Eq, Structural, Debug)]
pub enum EnvError {
    Header(InvalidHeader),
    Transaction(InvalidTransaction),
}

/// The kinds of transactions the validation tells apart.
#[derive(Clone, Copy, PartialEq, Eq, Structural, Debug)]
pub enum TransactionType {
    Legacy,
    Eip2930,
    Eip1559,
    Eip4844,
    Eip7702,
    Custom,
}

/// What the validation reads of a transaction.
pub struct TxFields {
    pub tx_type: TransactionType,
    pub chain_id: Option<u64>,
    pub gas_limit: u64,
    pub gas_price: u128,
    pub max_fee_per_gas: u128,
    pub max_priority_fee_per_gas: Option<u128>,
    pub blob_versioned_hashes: Vec<B256>,
    pub max_fee_per_blob_gas: u128,
    pub authorization_list_len: usize,
    pub is_create: bool,
    pub input_len: usize,
    pub nonce: u64,
}

/// What the validation reads of the EVM configuration.
#[derive(Clone, Copy, PartialEq, Eq, Structural, Debug)]
pub struct CfgFields {
    pub chain_id: u64,
    pub tx_chain_id_check: bool,
    pub base_fee_check_disabled: bool,
    pub priority_fee_check_disabled: bool,
    pub block_gas_limit_disabled: bool,
    pub amsterdam_eip8037_enabled: bool,
    pub tx_gas_limit_cap: u64,
    pub max_blobs_per_tx: Option<u64>,
    pub max_initcode_size: usize,
}

/// What the validation reads of the block.
#[derive(Clone, Copy, PartialEq, Eq, Structural, Debug)]
pub struct BlockFields {
    pub basefee: u64,
    pub gas_limit: u64,
    pub blob_gasprice: Option<u128>,
    pub has_prevrandao: bool,
    pub has_blob_excess_gas_and_price: bool,
}

/// Validate legacy transaction gas price against basefee.
pub fn validate_legacy_gas_price(gas_price: u128, base_fee: Option<u128>) -> (r: Result<(), InvalidTransaction>)
    ensures
        r == match base_fee {
            Some(b) => if gas_price < b {
                Err(InvalidTransaction::GasPriceLessThanBasefee)
            } else {
                Ok(())
            },
            None => Ok::<(), InvalidTransaction>(()),
        },
{
    // Gas price must be at least the basefee.
    if let Some(base_fee) = base_fee {
        if gas_price < base_fee {
            return Err(InvalidTransaction::GasPriceLessThanBasefee);
        }
    }
    Ok(())
}

/// The outcome of the fee checks of a transaction with a priority fee.
pub open spec fn priority_fee_check(
    max_fee: u128,
    max_priority_fee: u128,
    base_fee: Option<u128>,
    disable_priority_fee_check: bool,
) -> Result<(), InvalidTransaction> {
    if !disable_priority_fee_check && max_priority_fee > max_fee {
        Err(InvalidTransaction::PriorityFeeGreaterThanMaxFee)
    } else {
        match base_fee {
            Some(b) => {
                let capped = if b + max_priority_fee > u128::MAX {
                    u128::MAX as int
                } else {
                    b + max_priority_fee
                };
                let effective = if max_fee < capped {
                    max_fee as int
                } else {
                    capped
                };
                if effective < b {
                    Err(InvalidTransaction::GasPriceLessThanBasefee)
                } else {
                    Ok(())
                }
            },
            None => Ok(()),
        }
    }
}

/// Validate transaction that has EIP-1559 priority fee: the priority fee is at
/// most the maximal fee, and the effective gas price at least the base fee.
pub fn validate_priority_fee_tx(
    max_fee: u128,
    max_priority_fee: u128,
    base_fee: Option<u128>,
    disable_priority_fee_check: bool,
) -> (r: Result<(), InvalidTransaction>)
    ensures
        r == priority_fee_check(max_fee, max_priority_fee, base_fee, disable_priority_fee_check),
{
    if !disable_priority_fee_check && max_priority_fee > max_fee {
        return Err(InvalidTransaction::PriorityFeeGreaterThanMaxFee);
    }
    // Check minimal cost against basefee
    if let Some(base_fee) = base_fee {
        let capped = base_fee.saturating_add(max_priority_fee);
        let effective_gas_price = if max_fee < capped {
            max_fee
        } else {
            capped
        };
        if effective_gas_price < base_fee {
            return Err(InvalidTransaction::GasPriceLessThanBasefee);
        }
    }
    Ok(())
}

/// The version byte of KZG versioned blob hashes.
pub const VERSIONED_HASH_VERSION_KZG: u8 = 1;

/// The first byte of a hash.
pub open spec fn first_byte(h: B256) -> u64 {
    h.w0 / 0x100_0000_0000_0000
}

/// The outcome of the checks of an EIP-4844 transaction.
pub open spec fn eip4844_check(blobs: Seq<B256>, max_blob_fee: u128, block_blob_gas_price: u128, max_blobs: Option<u64>) -> Result<
    (),
    InvalidTransaction,
> {
    if block_blob_gas_price > max_blob_fee {
        Err(InvalidTransaction::BlobGasPriceGreaterThanMax {
            block_blob_gas_price,
            tx_max_fee_per_blob_gas: max_blob_fee,
        })
    } else if blobs.len() == 0 {
        Err(InvalidTransaction::EmptyBlobs)
    } else if exists|i: int| 0 <= i < blobs.len() && first_byte(#[trigger] blobs[i]) != VERSIONED_HASH_VERSION_KZG {
        Err(InvalidTransaction::BlobVersionNotSupported)
    } else {
        match max_blobs {
            Some(m) => if blobs.len() > m {
                Err(InvalidTransaction::TooManyBlobs { have: blobs.len() as usize, max: m as usize })
            } else {
                Ok(())
            },
            None => Ok(()),
        }
    }
}

/// Validate EIP-4844 transaction: the blob fee covers the block's blob gas
/// price, there is a blob, every blob hash is a KZG one, and there are not too
/// many blobs.
pub fn validate_eip4844_tx(blobs: &Vec<B256>, max_blob_fee: u128, block_blob_gas_price: u128, max_blobs: Option<u64>) -> (r: Result<
    (),
    InvalidTransaction,
>)
    requires
        max_blobs matches Some(m) ==> m <= usize::MAX,
    ensures
        r == eip4844_check(blobs@, max_blob_fee, block_blob_gas_price, max_blobs),
{
    // Ensure that the user was willing to at least pay the current blob gasprice.
    if block_blob_gas_price > max_blob_fee {
        return Err(InvalidTransaction::BlobGasPriceGreaterThanMax {
            block_blob_gas_price,
            tx_max_fee_per_blob_gas: max_blob_fee,
        });
    }
    // There must be at least one blob.
    if blobs.len() == 0 {
        return Err(InvalidTransaction::EmptyBlobs);
    }
    // All versioned blob hashes must start with the KZG version.
    let mut i: usize = 0;
    while i < blobs.len()
        invariant
            i <= blobs@.len(),
            blobs@.len() > 0,
            block_blob_gas_price <= max_blob_fee,
            forall|j: int| 0 <= j < i ==> first_byte(#[trigger] blobs@[j]) == VERSIONED_HASH_VERSION_KZG,
        decreases blobs@.len() - i,
    {
        if blobs[i].w0 / 0x100_0000_0000_0000 != 1 {
            proof {
                assert(first_byte(blobs@[i as int]) != VERSIONED_HASH_VERSION_KZG);
            }
            return Err(InvalidTransaction::BlobVersionNotSupported);
        }
        i = i + 1;
    }
    // Ensure the total blob gas spent is at most equal to the limit.
    if let Some(max_blobs) = max_blobs {
        if blobs.len() as u64 > max_blobs {
            return Err(InvalidTransaction::TooManyBlobs { have: blobs.len(), max: max_blobs as usize });
        }
    }
    Ok(())
}

/// The outcome of validating a transaction against its block and configuration.
pub open spec fn tx_env_check(tx: TxFields, cfg: CfgFields, block: BlockFields, spec_id: SpecId) -> Result<(), InvalidTransaction> {
    let base_fee = if cfg.base_fee_check_disabled {
        None
    } else {
        Some(block.basefee as u128)
    };
    let is_legacy = tx.tx_type is Legacy;
    let is_custom = tx.tx_type is Custom;
    let priority = priority_fee_check(
        tx.max_fee_per_gas,
        match tx.max_priority_fee_per_gas {
            Some(p) => p,
            None => 0,
        },
        base_fee,
        cfg.priority_fee_check_disabled,
    );
    if cfg.tx_chain_id_check && tx.chain_id is Some && tx.chain_id->0 != cfg.chain_id {
        Err(InvalidTransaction::InvalidChainId)
    } else if cfg.tx_chain_id_check && tx.chain_id is None && !is_legacy && !is_custom {
        Err(InvalidTransaction::MissingChainId)
    } else if !cfg.amsterdam_eip8037_enabled && tx.gas_limit > cfg.tx_gas_limit_cap {
        Err(InvalidTransaction::TxGasLimitGreaterThanCap { gas_limit: tx.gas_limit, cap: cfg.tx_gas_limit_cap })
    } else {
        let by_type = match tx.tx_type {
            TransactionType::Legacy => validate_legacy_spec(tx.gas_price, base_fee),
            TransactionType::Eip2930 => if spec_id.rank() < SpecId::BERLIN.rank() {
                Err(InvalidTransaction::Eip2930NotSupported)
            } else {
                validate_legacy_spec(tx.gas_price, base_fee)
            },
            TransactionType::Eip1559 => if spec_id.rank() < SpecId::LONDON.rank() {
                Err(InvalidTransaction::Eip1559NotSupported)
            } else {
                priority
            },
            TransactionType::Eip4844 => if spec_id.rank() < SpecId::CANCUN.rank() {
                Err(InvalidTransaction::Eip4844NotSupported)
            } else if priority is Err {
                priority
            } else {
                eip4844_check(
                    tx.blob_versioned_hashes@,
                    tx.max_fee_per_blob_gas,
                    match block.blob_gasprice {
                        Some(p) => p,
                        None => 0,
                    },
                    cfg.max_blobs_per_tx,
                )
            },
            TransactionType::Eip7702 => if spec_id.rank() < SpecId::PRAGUE.rank() {
                Err(InvalidTransaction::Eip7702NotSupported)
            } else if priority is Err {
                priority
            } else if tx.authorization_list_len == 0 {
                Err(InvalidTransaction::EmptyAuthorizationList)
            } else {
                Ok(())
            },
            TransactionType::Custom => Ok(()),
        };
        if by_type is Err {
            by_type
        } else if !cfg.block_gas_limit_disabled && tx.gas_limit > block.gas_limit {
            Err(InvalidTransaction::CallerGasLimitMoreThanBlock)
        } else if spec_id.rank() >= SpecId::SHANGHAI.rank() && tx.is_create && tx.input_len > cfg.max_initcode_size {
            Err(InvalidTransaction::CreateInitCodeSizeLimit)
        } else if tx.nonce == u64::MAX {
            Err(InvalidTransaction::NonceOverflowInTransaction)
        } else {
            Ok(())
        }
    }
}

/// The outcome of the legacy gas price check.
pub open spec fn validate_legacy_spec(gas_price: u128, base_fee: Option<u128>) -> Result<(), InvalidTransaction> {
    match base_fee {
        Some(b) => if gas_price < b {
            Err(InvalidTransaction::GasPriceLessThanBasefee)
        } else {
            Ok(())
        },
        None => Ok(()),
    }
}

/// What an accepted transaction is known to satisfy: its chain id (when
/// checked) is the chain's; its gas limit is within the cap and the block's;
/// its nonce can be bumped; its type is active at the hardfork; and, with the
/// base fee check on, what it may pay per gas covers the base fee (its gas
/// price for legacy and EIP-2930 transactions, its maximal fee otherwise),
/// with a priority fee no greater than its maximal fee unless that check is off.
pub proof fn lemma_accepted_transaction(tx: TxFields, cfg: CfgFields, block: BlockFields, spec_id: SpecId)
    requires
        tx_env_check(tx, cfg, block, spec_id) is Ok,
    ensures
        cfg.tx_chain_id_check && tx.chain_id is Some ==> tx.chain_id->0 == cfg.chain_id,
        !cfg.amsterdam_eip8037_enabled ==> tx.gas_limit <= cfg.tx_gas_limit_cap,
        !cfg.block_gas_limit_disabled ==> tx.gas_limit <= block.gas_limit,
        tx.nonce < u64::MAX,
        tx.tx_type is Eip2930 ==> spec_id.rank() >= SpecId::BERLIN.rank(),
        tx.tx_type is Eip1559 ==> spec_id.rank() >= SpecId::LONDON.rank(),
        tx.tx_type is Eip4844 ==> spec_id.rank() >= SpecId::CANCUN.rank() && tx.blob_versioned_hashes@.len() > 0,
        tx.tx_type is Eip4844 ==> (match block.blob_gasprice {
            Some(p) => p,
            None => 0,
        }) <= tx.max_fee_per_blob_gas,
        tx.tx_type is Eip4844 ==> forall|i: int|
            0 <= i < tx.blob_versioned_hashes@.len() ==> first_byte(#[trigger] tx.blob_versioned_hashes@[i])
                == 1,
        tx.tx_type is Eip4844 && cfg.max_blobs_per_tx is Some ==> tx.blob_versioned_hashes@.len()
            <= cfg.max_blobs_per_tx->0,
        spec_id.rank() >= SpecId::SHANGHAI.rank() && tx.is_create ==> tx.input_len <= cfg.max_initcode_size,
        tx.tx_type is Eip7702 ==> spec_id.rank() >= SpecId::PRAGUE.rank() && tx.authorization_list_len > 0,
        !cfg.base_fee_check_disabled && (tx.tx_type is Legacy || tx.tx_type is Eip2930) ==> tx.gas_price
            >= block.basefee,
        !cfg.base_fee_check_disabled && (tx.tx_type is Eip1559 || tx.tx_type is Eip4844 || tx.tx_type is Eip7702)
            ==> tx.max_fee_per_gas >= block.basefee,
        !cfg.priority_fee_check_disabled && (tx.tx_type is Eip1559 || tx.tx_type is Eip4844 || tx.tx_type is Eip7702)
            ==> (match tx.max_priority_fee_per_gas {
            Some(p) => p,
            None => 0,
        }) <= tx.max_fee_per_gas,
{
}

/// An accepted intrinsic gas fits the gas limit: the initial gas (regular and
/// state) never exceeds it, and from Prague neither does the floor (unless
/// EIP-7623 is off).
pub proof fn lemma_accepted_initial_gas(
    gas: InitialAndFloorGas,
    gas_limit: u64,
    spec: SpecId,
    is_eip7623_disabled: bool,
    is_amsterdam_eip8037_enabled: bool,
    tx_gas_limit_cap: u64,
)
    requires
        initial_gas_check(gas, gas_limit, spec, is_eip7623_disabled, is_amsterdam_eip8037_enabled, tx_gas_limit_cap) is Ok,
    ensures
        gas.initial_regular_gas + gas.initial_state_gas <= gas_limit,
        spec.rank() >= SpecId::PRAGUE.rank() && !is_eip7623_disabled ==> gas.floor_gas <= gas_limit,
{
}

/// Validate transaction against block and configuration for mainnet: the chain
/// id, the gas limit cap, the fees and features of its type at the hardfork,
/// the block gas limit, the init code size and the nonce.
pub fn validate_tx_env(tx: &TxFields, cfg: &CfgFields, block: &BlockFields, spec_id: SpecId) -> (r: Result<(), InvalidTransaction>)
    requires
        cfg.max_blobs_per_tx matches Some(m) ==> m <= usize::MAX,
    ensures
        r == tx_env_check(*tx, *cfg, *block, spec_id),
{
    let base_fee = if cfg.base_fee_check_disabled {
        None
    } else {
        Some(block.basefee as u128)
    };
    let is_legacy = match tx.tx_type {
        TransactionType::Legacy => true,
        _ => false,
    };
    let is_custom = match tx.tx_type {
        TransactionType::Custom => true,
        _ => false,
    };
    // EIP-155: simple replay attack protection.
    if cfg.tx_chain_id_check {
        if let Some(chain_id) = tx.chain_id {
            if chain_id != cfg.chain_id {
                return Err(InvalidTransaction::InvalidChainId);
            }
        } else if !is_legacy && !is_custom {
            // Legacy transactions are the only ones that can omit the chain id.
            return Err(InvalidTransaction::MissingChainId);
        }
    }
    // EIP-7825: the gas limit cap, not enforced when state gas is enabled.
    if !cfg.amsterdam_eip8037_enabled {
        if tx.gas_limit > cfg.tx_gas_limit_cap {
            return Err(InvalidTransaction::TxGasLimitGreaterThanCap { gas_limit: tx.gas_limit, cap: cfg.tx_gas_limit_cap });
        }
    }
    let disable_priority_fee_check = cfg.priority_fee_check_disabled;
    let max_priority_fee = match tx.max_priority_fee_per_gas {
        Some(p) => p,
        None => 0,
    };
    match tx.tx_type {
        TransactionType::Legacy => {
            validate_legacy_gas_price(tx.gas_price, base_fee)?;
        },
        TransactionType::Eip2930 => {
            if !spec_id.is_enabled_in(SpecId::BERLIN) {
                return Err(InvalidTransaction::Eip2930NotSupported);
            }
            validate_legacy_gas_price(tx.gas_price, base_fee)?;
        },
        TransactionType::Eip1559 => {
            if !spec_id.is_enabled_in(SpecId::LONDON) {
                return Err(InvalidTransaction::Eip1559NotSupported);
            }
            validate_priority_fee_tx(tx.max_fee_per_gas, max_priority_fee, base_fee, disable_priority_fee_check)?;
        },
        TransactionType::Eip4844 => {
            if !spec_id.is_enabled_in(SpecId::CANCUN) {
                return Err(InvalidTransaction::Eip4844NotSupported);
            }
            validate_priority_fee_tx(tx.max_fee_per_gas, max_priority_fee, base_fee, disable_priority_fee_check)?;
            let blob_gasprice = match block.blob_gasprice {
                Some(p) => p,
                None => 0,
            };
            validate_eip4844_tx(&tx.blob_versioned_hashes, tx.max_fee_per_blob_gas, blob_gasprice, cfg.max_blobs_per_tx)?;
        },
        TransactionType::Eip7702 => {
            if !spec_id.is_enabled_in(SpecId::PRAGUE) {
                return Err(InvalidTransaction::Eip7702NotSupported);
            }
            validate_priority_fee_tx(tx.max_fee_per_gas, max_priority_fee, base_fee, disable_priority_fee_check)?;
            // The transaction is invalid if its authorization list is empty.
            if tx.authorization_list_len == 0 {
                return Err(InvalidTransaction::EmptyAuthorizationList);
            }
        },
        TransactionType::Custom => {},
    }
    // The gas limit must fit in the block's.
    if !cfg.block_gas_limit_disabled && tx.gas_limit > block.gas_limit {
        return Err(InvalidTransaction::CallerGasLimitMoreThanBlock);
    }
    // EIP-3860: limit and meter init code.
    if spec_id.is_enabled_in(SpecId::SHANGHAI) && tx.is_create && tx.input_len > cfg.max_initcode_size {
        return Err(InvalidTransaction::CreateInitCodeSizeLimit);
    }
    // Incrementing the nonce would overflow. Cannot happen in the real world.
    if tx.nonce == u64::MAX {
        return Err(InvalidTransaction::NonceOverflowInTransaction);
    }
    Ok(())
}

/// Validates the execution environment: the randomness from the merge, the
/// excess blob gas from Cancun, then the transaction.
pub fn validate_env(tx: &TxFields, cfg: &CfgFields, block: &BlockFields, spec_id: SpecId) -> (r: Result<(), EnvError>)
    requires
        cfg.max_blobs_per_tx matches Some(m) ==> m <= usize::MAX,
    ensures
        r == if spec_id.rank() >= SpecId::MERGE.rank() && !block.has_prevrandao {
            Err(EnvError::Header(InvalidHeader::PrevrandaoNotSet))
        } else if spec_id.rank() >= SpecId::CANCUN.rank() && !block.has_blob_excess_gas_and_price {
            Err(EnvError::Header(InvalidHeader::ExcessBlobGasNotSet))
        } else {
            match tx_env_check(*tx, *cfg, *block, spec_id) {
                Ok(()) => Ok::<(), EnvError>(()),
                Err(e) => Err(EnvError::Transaction(e)),
            }
        },
        r is Ok ==> tx_env_check(*tx, *cfg, *block, spec_id) is Ok,
        r is Ok && spec_id.rank() >= SpecId::MERGE.rank() ==> block.has_prevrandao,
        r is Ok && spec_id.rank() >= SpecId::CANCUN.rank() ==> block.has_blob_excess_gas_and_price,
        tx_env_check(*tx, *cfg, *block, spec_id) matches Err(e) ==> r is Err,
{
    if spec_id.is_enabled_in(SpecId::MERGE) && !block.has_prevrandao {
        return Err(EnvError::Header(InvalidHeader::PrevrandaoNotSet));
    }
    if spec_id.is_enabled_in(SpecId::CANCUN) && !block.has_blob_excess_gas_and_price {
        return Err(EnvError::Header(InvalidHeader::ExcessBlobGasNotSet));
    }
    match validate_tx_env(tx, cfg, block, spec_id) {
        Ok(()) => Ok(()),
        Err(e) => Err(EnvError::Transaction(e)),
    }
}

/// The intrinsic gas of a transaction.
#[derive(Clone, Copy, PartialEq, Eq, Structural, Debug)]
pub struct InitialAndFloorGas {
    /// The regular (non-state) part of the initial gas.
    pub initial_regular_gas: u64,
    /// The state gas charged before the first frame.
    pub initial_state_gas: u64,
    /// The least gas a call spends from Prague (EIP-7623).
    pub floor_gas: u64,
}

/// The intrinsic gas that `revm::context_interface::cfg::gas::calculate_initial_tx_gas`
/// computes for a hardfork (by its number in revm), the call data, whether the
/// transaction creates a contract, and the sizes of its access and authorization lists.
pub uninterp spec fn initial_tx_gas(
    revm_spec: u8,
    input: Seq<u8>,
    is_create: bool,
    access_list_accounts: u64,
    access_list_storages: u64,
    authorization_list_num: u64,
) -> InitialAndFloorGas;

/// The number of a hardfork in revm's own list, which skips the hardforks that
/// changed nothing for execution.
pub open spec fn revm_spec_number(spec: SpecId) -> u8 {
    match spec {
        SpecId::FRONTIER | SpecId::FRONTIER_THAWING => 0,
        SpecId::HOMESTEAD | SpecId::DAO_FORK => 1,
        SpecId::TANGERINE => 2,
        SpecId::SPURIOUS_DRAGON => 3,
        SpecId::BYZANTIUM => 4,
        SpecId::CONSTANTINOPLE | SpecId::PETERSBURG => 5,
        SpecId::ISTANBUL | SpecId::MUIR_GLACIER => 6,
        SpecId::BERLIN => 7,
        SpecId::LONDON | SpecId::ARROW_GLACIER | SpecId::GRAY_GLACIER => 8,
        SpecId::MERGE => 9,
        SpecId::SHANGHAI => 10,
        SpecId::CANCUN => 11,
        SpecId::PRAGUE => 12,
        SpecId::OSAKA => 13,
    }
}

/// The number of a hardfork in revm's own list.
pub fn revm_spec(spec: SpecId) -> (r: u8)
    ensures
        r == revm_spec_number(spec),
        r <= 13,
{
    match spec {
        SpecId::FRONTIER | SpecId::FRONTIER_THAWING => 0,
        SpecId::HOMESTEAD | SpecId::DAO_FORK => 1,
        SpecId::TANGERINE => 2,
        SpecId::SPURIOUS_DRAGON => 3,
        SpecId::BYZANTIUM => 4,
        SpecId::CONSTANTINOPLE | SpecId::PETERSBURG => 5,
        SpecId::ISTANBUL | SpecId::MUIR_GLACIER => 6,
        SpecId::BERLIN => 7,
        SpecId::LONDON | SpecId::ARROW_GLACIER | SpecId::GRAY_GLACIER => 8,
        SpecId::MERGE => 9,
        SpecId::SHANGHAI => 10,
        SpecId::CANCUN => 11,
        SpecId::PRAGUE => 12,
        SpecId::OSAKA => 13,
    }
}

/// Wraps `revm::context_interface::cfg::gas::calculate_initial_tx_gas` (without
/// EIP-2780 information), at the hardfork numbered `revm_spec` in revm's list.
/// The result is only named: the gas schedule of each hardfork is revm's.
#[verifier::external_body]
fn calculate_initial_tx_gas(
    revm_spec: u8,
    input: &Vec<u8>,
    is_create: bool,
    access_list_accounts: u64,
    access_list_storages: u64,
    authorization_list_num: u64,
) -> (r: InitialAndFloorGas)
    requires
        revm_spec <= 13,
    ensures
        r == initial_tx_gas(revm_spec, input@, is_create, access_list_accounts, access_list_storages, authorization_list_num),
{
    let spec = revm::primitives::hardfork::SpecId::try_from_u8(revm_spec).unwrap();
    let g = revm::context_interface::cfg::gas::calculate_initial_tx_gas(
        spec, input, is_create, access_list_accounts, access_list_storages, authorization_list_num, None,
    );
    InitialAndFloorGas { initial_regular_gas: g.initial_regular_gas, initial_state_gas: g.initial_state_gas, floor_gas: g.floor_gas }
}

/// The outcome of the intrinsic gas checks of a transaction with gas `gas`.
pub open spec fn initial_gas_check(
    gas: InitialAndFloorGas,
    gas_limit: u64,
    spec: SpecId,
    is_eip7623_disabled: bool,
    is_amsterdam_eip8037_enabled: bool,
    tx_gas_limit_cap: u64,
) -> Result<InitialAndFloorGas, InvalidTransaction> {
    let gas = if is_eip7623_disabled {
        InitialAndFloorGas { floor_gas: 0, ..gas }
    } else {
        gas
    };
    let total = gas.initial_regular_gas + gas.initial_state_gas;
    let min_regular = if gas.initial_regular_gas >= gas.floor_gas {
        gas.initial_regular_gas
    } else {
        gas.floor_gas
    };
    if total > gas_limit {
        Err(InvalidTransaction::CallGasCostMoreThanGasLimit { gas_limit, initial_gas: total as u64 })
    } else if spec.rank() >= SpecId::PRAGUE.rank() && gas.floor_gas > gas_limit {
        Err(InvalidTransaction::GasFloorMoreThanGasLimit { gas_floor: gas.floor_gas, gas_limit })
    } else if is_amsterdam_eip8037_enabled && gas_limit > tx_gas_limit_cap && min_regular > tx_gas_limit_cap {
        Err(InvalidTransaction::GasFloorMoreThanGasLimit { gas_floor: min_regular, gas_limit: tx_gas_limit_cap })
    } else {
        Ok(gas)
    }
}

/// Checks the intrinsic gas `gas` of a transaction: it must fit in the gas
/// limit, the EIP-7623 floor too from Prague, and with state gas enabled the
/// regular part must fit in the gas limit cap. Returns the gas, without the
/// floor when EIP-7623 is disabled.
pub fn check_initial_tx_gas(
    gas: InitialAndFloorGas,
    gas_limit: u64,
    spec: SpecId,
    is_eip7623_disabled: bool,
    is_amsterdam_eip8037_enabled: bool,
    tx_gas_limit_cap: u64,
) -> (r: Result<InitialAndFloorGas, InvalidTransaction>)
    requires
        gas.initial_regular_gas + gas.initial_state_gas <= u64::MAX,
    ensures
        r == initial_gas_check(gas, gas_limit, spec, is_eip7623_disabled, is_amsterdam_eip8037_enabled, tx_gas_limit_cap),
{
    let mut gas = gas;
    if is_eip7623_disabled {
        gas.floor_gas = 0;
    }
    let total = gas.initial_regular_gas + gas.initial_state_gas;
    // The limit must be big enough to cover the initial gas.
    if total > gas_limit {
        return Err(InvalidTransaction::CallGasCostMoreThanGasLimit { gas_limit, initial_gas: total });
    }
    // EIP-7623: the floor gas must fit in the gas limit.
    if spec.is_enabled_in(SpecId::PRAGUE) && gas.floor_gas > gas_limit {
        return Err(InvalidTransaction::GasFloorMoreThanGasLimit { gas_floor: gas.floor_gas, gas_limit });
    }
    // EIP-8037: the regular gas is capped; state gas has its own reservoir.
    if is_amsterdam_eip8037_enabled && gas_limit > tx_gas_limit_cap {
        let min_regular_gas = if gas.initial_regular_gas >= gas.floor_gas {
            gas.initial_regular_gas
        } else {
            gas.floor_gas
        };
        if min_regular_gas > tx_gas_limit_cap {
            return Err(InvalidTransaction::GasFloorMoreThanGasLimit { gas_floor: min_regular_gas, gas_limit: tx_gas_limit_cap });
        }
    }
    Ok(gas)
}

/// Validates the intrinsic gas of a transaction, computed from its call data,
/// kind and list sizes at the hardfork.
pub fn validate_initial_tx_gas(
    input: &Vec<u8>,
    is_create: bool,
    access_list_accounts: u64,
    access_list_storages: u64,
    authorization_list_num: u64,
    gas_limit: u64,
    spec: SpecId,
    is_eip7623_disabled: bool,
    is_amsterdam_eip8037_enabled: bool,
    tx_gas_limit_cap: u64,
) -> (r: Result<InitialAndFloorGas, InvalidTransaction>)
    requires
        ({
            let g = initial_tx_gas(
                revm_spec_number(spec),
                input@,
                is_create,
                access_list_accounts,
                access_list_storages,
                authorization_list_num,
            );
            g.initial_regular_gas + g.initial_state_gas <= u64::MAX
        }),
    ensures
        r == initial_gas_check(
            initial_tx_gas(revm_spec_number(spec), input@, is_create, access_list_accounts, access_list_storages, authorization_list_num),
            gas_limit,
            spec,
            is_eip7623_disabled,
            is_amsterdam_eip8037_enabled,
            tx_gas_limit_cap,
        ),
{
    let gas = calculate_initial_tx_gas(
        revm_spec(spec),
        input,
        is_create,
        access_list_accounts,
        access_list_storages,
        authorization_list_num,
    );
    check_initial_tx_gas(gas, gas_limit, spec, is_eip7623_disabled, is_amsterdam_eip8037_enabled, tx_gas_limit_cap)
}

/// Validates the intrinsic gas of a transaction when its total fits in a `u64`;
/// `None` when it does not.
pub fn try_validate_initial_tx_gas(
    input: &Vec<u8>,
    is_create: bool,
    access_list_accounts: u64,
    access_list_storages: u64,
    authorization_list_num: u64,
    gas_limit: u64,
    spec: SpecId,
    is_eip7623_disabled: bool,
    is_amsterdam_eip8037_enabled: bool,
    tx_gas_limit_cap: u64,
) -> (r: Option<Result<InitialAndFloorGas, InvalidTransaction>>)
    ensures
        ({
            let g = initial_tx_gas(
                revm_spec_number(spec),
                input@,
                is_create,
                access_list_accounts,
                access_list_storages,
                authorization_list_num,
            );
            if g.initial_regular_gas + g.initial_state_gas <= u64::MAX {
                r == Some(initial_gas_check(g, gas_limit, spec, is_eip7623_disabled, is_amsterdam_eip8037_enabled, tx_gas_limit_cap))
            } else {
                r is None
            }
        }),
{
    let gas = calculate_initial_tx_gas(
        revm_spec(spec),
        input,
        is_create,
        access_list_accounts,
        access_list_storages,
        authorization_list_num,
    );
    if gas.initial_regular_gas.checked_add(gas.initial_state_gas).is_none() {
        return None;
    }
    Some(validate_initial_tx_gas(
        input,
        is_create,
        access_list_accounts,
        access_list_storages,
        authorization_list_num,
        gas_limit,
        spec,
        is_eip7623_disabled,
        is_amsterdam_eip8037_enabled,
        tx_gas_limit_cap,
    ))
}

} // verus!
