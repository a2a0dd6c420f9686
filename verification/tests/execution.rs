use pevm::validation::InvalidTransaction;
use std::hash::BuildHasher;

use pevm::execution::{
    apply_rewards, state_transitions, AccountStatus, execution_failure, reward_gas_price, AccountChange, EvmFailure, RewardPolicy, Vm,
    VmExecutionError,
};
use pevm::hashing::MemoryLocation;
use pevm::mv_memory::MvMemory;
use pevm::primitives::{Address, B256, U256};
use pevm::types::{AccountBasic, MemoryValue, TxVersion};
use pevm::vm::{ReadError, VmDb};

fn address(n: u64) -> Address {
    Address { w0: 0, w1: 0, w2: n }
}

fn word(n: u64) -> U256 {
    U256::from_u64(n)
}

fn hash(location: MemoryLocation) -> u64 {
    rustc_hash::FxBuildHasher.hash_one(location)
}

fn basic(n: u64) -> u64 {
    hash(MemoryLocation::Basic(address(n)))
}

fn change(n: u64, balance: u64, nonce: u64) -> AccountChange {
    AccountChange {
        address: address(n),
        selfdestructed: false,
        touched: true,
        empty: balance == 0 && nonce == 0,
        balance: word(balance),
        nonce,
        code_hash: B256::default(),
        has_code: false,
        changed_slots: vec![],
    }
}

#[test]
fn a_touched_account_writes_its_balance_and_nonce() {
    let db = VmDb::new(1, address(1), Some(address(2)), None);
    let (writes, codes) = db.build_write_set(&vec![change(1, 90, 1), change(2, 10, 0)], word(10), true);
    assert_eq!(
        writes,
        vec![
            (basic(1), MemoryValue::Basic(AccountBasic { balance: word(90), nonce: 1 })),
            (basic(2), MemoryValue::Basic(AccountBasic { balance: word(10), nonce: 0 })),
        ]
    );
    assert!(codes.is_empty());
}

#[test]
fn an_unchanged_read_account_writes_nothing() {
    let mut db = VmDb::new(1, address(1), None, None);
    db.record_read_account(basic(3), AccountBasic { balance: word(5), nonce: 2 }, None);
    let (writes, _) = db.build_write_set(&vec![change(3, 5, 2)], word(0), true);
    assert!(writes.is_empty());
}

#[test]
fn an_empty_account_is_cleared_after_spurious_dragon() {
    let db = VmDb::new(1, address(1), None, None);
    let (writes, _) = db.build_write_set(&vec![change(4, 0, 0)], word(0), true);
    assert!(writes.is_empty());
    let (writes, _) = db.build_write_set(&vec![change(4, 0, 0)], word(0), false);
    assert_eq!(writes, vec![(basic(4), MemoryValue::Basic(AccountBasic { balance: word(0), nonce: 0 }))]);
}

#[test]
fn a_self_destruct_only_marks_the_code_hash() {
    let db = VmDb::new(1, address(1), None, None);
    let mut gone = change(5, 0, 0);
    gone.selfdestructed = true;
    gone.changed_slots = vec![(word(1), word(2))];
    let (writes, _) = db.build_write_set(&vec![gone], word(0), true);
    assert_eq!(writes, vec![(hash(MemoryLocation::CodeHash(address(5))), MemoryValue::SelfDestructed)]);
}

#[test]
fn new_code_and_changed_slots_are_written() {
    let db = VmDb::new(1, address(1), None, None);
    let mut deployed = change(6, 0, 1);
    deployed.has_code = true;
    deployed.code_hash = B256 { w0: 1, w1: 2, w2: 3, w3: 4 };
    deployed.changed_slots = vec![(word(0), word(42))];
    let (writes, codes) = db.build_write_set(&vec![deployed], word(0), true);
    assert_eq!(
        writes,
        vec![
            (basic(6), MemoryValue::Basic(AccountBasic { balance: word(0), nonce: 1 })),
            (hash(MemoryLocation::CodeHash(address(6))), MemoryValue::CodeHash(B256 { w0: 1, w1: 2, w2: 3, w3: 4 })),
            (hash(MemoryLocation::Storage(address(6), word(0))), MemoryValue::Storage(word(42))),
        ]
    );
    assert_eq!(codes, vec![(address(6), B256 { w0: 1, w1: 2, w2: 3, w3: 4 })]);
}

#[test]
fn the_beneficiary_gets_the_priority_fee_after_london() {
    // Effective price min(100, 2 + 50) = 52, minus the burnt base fee 50.
    assert_eq!(reward_gas_price(word(100), Some(word(2)), word(50), true), word(2));
    // Before London nothing is burnt.
    assert_eq!(reward_gas_price(word(100), None, word(50), false), word(100));
    // A legacy price pays everything above the base fee.
    assert_eq!(reward_gas_price(word(100), None, word(50), true), word(50));
}

#[test]
fn ethereum_rewards_go_to_the_beneficiary_only() {
    let vm = Vm::new(address(9), RewardPolicy::Ethereum, word(10), true, true);
    let rewards = vm.rewards(word(15), None, word(21_000), false, word(0));
    assert_eq!(rewards, vec![(basic(9), word(5 * 21_000))]);
}

#[test]
fn optimism_rewards_pay_three_vaults_and_deposits_pay_none() {
    let policy = RewardPolicy::Optimism { l1_fee_recipient_location_hash: 11, base_fee_vault_location_hash: 12 };
    let vm = Vm::new(address(9), policy, word(10), true, true);
    let rewards = vm.rewards(word(15), None, word(100), false, word(7));
    assert_eq!(rewards, vec![(basic(9), word(500)), (11, word(7)), (12, word(1000))]);
    assert!(vm.rewards(word(15), None, word(100), true, word(7)).is_empty());
}

#[test]
fn a_reward_adds_onto_the_first_write_or_appends_a_lazy_credit() {
    let mut writes = vec![
        (1, MemoryValue::Basic(AccountBasic { balance: word(10), nonce: 1 })),
        (2, MemoryValue::LazySender(word(30))),
        (3, MemoryValue::LazyRecipient(word(4))),
    ];
    let rewards = vec![(1, word(5)), (2, word(10)), (3, word(6)), (4, word(8))];
    assert_eq!(apply_rewards(&mut writes, &rewards), Ok(()));
    assert_eq!(
        writes,
        vec![
            (1, MemoryValue::Basic(AccountBasic { balance: word(15), nonce: 1 })),
            (2, MemoryValue::LazySender(word(20))),
            (3, MemoryValue::LazyRecipient(word(10))),
            (4, MemoryValue::LazyRecipient(word(8))),
        ]
    );
}

#[test]
fn a_reward_onto_a_storage_write_is_refused() {
    let mut writes = vec![(1, MemoryValue::Storage(word(3)))];
    assert_eq!(apply_rewards(&mut writes, &vec![(1, word(1))]), Err(ReadError::InvalidMemoryValueType));
}

#[test]
fn the_full_write_set_adds_the_rewards() {
    let vm = Vm::new(address(9), RewardPolicy::Ethereum, word(10), true, true);
    let db = VmDb::new(1, address(1), Some(address(2)), None);
    let result = vm.write_set(&db, &vec![change(1, 90, 1)], word(0), word(11), None, word(3), false, word(0));
    let (writes, _) = result.unwrap();
    assert_eq!(
        writes,
        vec![
            (basic(1), MemoryValue::Basic(AccountBasic { balance: word(90), nonce: 1 })),
            (basic(9), MemoryValue::LazyRecipient(word(3))),
        ]
    );
}

#[test]
fn failures_are_classified_for_the_scheduler() {
    assert_eq!(execution_failure(3, EvmFailure::Database(ReadError::InconsistentRead)), VmExecutionError::Retry);
    assert_eq!(
        execution_failure(3, EvmFailure::Database(ReadError::SelfDestructedAccount)),
        VmExecutionError::FallbackToSequential
    );
    assert_eq!(execution_failure(3, EvmFailure::Database(ReadError::Blocking(1))), VmExecutionError::Blocking(1));
    assert_eq!(execution_failure(3, EvmFailure::LackOfFundForMaxFee { fee: U256::from_u64(10), balance: U256::from_u64(1) }), VmExecutionError::Blocking(2));
    assert_eq!(execution_failure(3, EvmFailure::NonceTooHigh { tx: 5, state: 4 }), VmExecutionError::Blocking(2));
    assert_eq!(
        execution_failure(0, EvmFailure::NonceTooHigh { tx: 5, state: 4 }),
        VmExecutionError::ExecutionError(EvmFailure::NonceTooHigh { tx: 5, state: 4 })
    );
    assert_eq!(execution_failure(3, EvmFailure::Other), VmExecutionError::ExecutionError(EvmFailure::Other));
    assert_eq!(
        execution_failure(3, EvmFailure::Transaction(InvalidTransaction::InvalidChainId)),
        VmExecutionError::ExecutionError(EvmFailure::Transaction(InvalidTransaction::InvalidChainId))
    );
    assert_eq!(
        execution_failure(3, EvmFailure::Database(ReadError::InvalidMemoryValueType)),
        VmExecutionError::ExecutionError(EvmFailure::Database(ReadError::InvalidMemoryValueType))
    );
}

#[test]
fn finishing_reports_validation_and_new_locations() {
    let vm = Vm::new(address(9), RewardPolicy::Ethereum, word(10), true, true);
    let mut mv = MvMemory::new(3, vec![], vec![]);
    let db = VmDb::new(1, address(1), None, None);
    let flags = vm.finish(&mut mv, db, TxVersion { tx_idx: 1, tx_incarnation: 0 }, vec![(5, MemoryValue::Storage(word(1)))]);
    assert_eq!(flags.bits, 1);
    let db = VmDb::new(1, address(1), None, None);
    let flags = vm.finish(&mut mv, db, TxVersion { tx_idx: 1, tx_incarnation: 1 }, vec![(5, MemoryValue::Storage(word(2)))]);
    assert_eq!(flags.bits, 0);
}

#[test]
fn state_transitions_list_touched_accounts_and_drop_the_removed() {
    let statuses = vec![
        AccountStatus { touched: true, selfdestructed: false, empty: false },
        AccountStatus { touched: false, selfdestructed: true, empty: false },
        AccountStatus { touched: true, selfdestructed: true, empty: false },
        AccountStatus { touched: true, selfdestructed: false, empty: true },
    ];
    assert_eq!(state_transitions(&statuses, true), vec![(0, true), (2, false), (3, false)]);
    assert_eq!(state_transitions(&statuses, false), vec![(0, true), (2, false), (3, true)]);
}
