use pevm::execution::{EvmFailure, VmExecutionError};
use pevm::pevm::{
    execution_step, AbortReason, ExecutionAction, ExecutionEvent,
    cumulative_gas_used, evaluate_lazy_account, lazy_update, max_fee, should_execute_sequentially,
    LazyEvaluationError, LazyTxInfo, LazyUpdate,
};
use pevm::primitives::{Address, U256};
use pevm::types::{AccountBasic, MemoryEntry, MemoryValue};

fn address(n: u64) -> Address {
    Address { w0: 0, w1: 0, w2: n }
}

fn word(n: u64) -> U256 {
    U256::from_u64(n)
}

fn transfer(caller: Address, nonce: u64, value: u64) -> LazyTxInfo {
    LazyTxInfo {
        caller,
        nonce,
        gas_limit: 1,
        gas_price: 1,
        value: word(value),
        blob_count: 0,
        max_fee_per_blob_gas: 0,
    }
}

#[test]
fn small_blocks_run_sequentially() {
    assert!(should_execute_sequentially(true, 100, 4, 30_000_000));
    assert!(should_execute_sequentially(false, 3, 4, 30_000_000));
    assert!(should_execute_sequentially(false, 100, 4, 3_999_999));
    assert!(!should_execute_sequentially(false, 100, 4, 4_000_000));
}

#[test]
fn receipts_carry_the_running_gas_total() {
    assert_eq!(cumulative_gas_used(&vec![21_000, 30_000, 0]), vec![21_000, 51_000, 51_000]);
    assert_eq!(cumulative_gas_used(&vec![u64::MAX, 1]), vec![u64::MAX, u64::MAX]);
    assert_eq!(cumulative_gas_used(&vec![]), Vec::<u64>::new());
}

#[test]
fn the_max_fee_adds_gas_value_and_blob_gas() {
    let mut tx = transfer(address(1), 0, 9);
    tx.gas_limit = 21_000;
    tx.gas_price = 2;
    tx.blob_count = 2;
    tx.max_fee_per_blob_gas = 3;
    assert_eq!(max_fee(&tx), word(42_000 + 9 + 2 * 131_072 * 3));
}

#[test]
fn a_lazy_account_is_evaluated_transaction_by_transaction() {
    let a = address(1);
    let entries = vec![
        Some(MemoryEntry::Data(0, MemoryValue::LazySender(word(30)))),
        None,
        Some(MemoryEntry::Data(0, MemoryValue::LazyRecipient(word(5)))),
        Some(MemoryEntry::Data(1, MemoryValue::Basic(AccountBasic { balance: word(1), nonce: 7 }))),
    ];
    let txs = vec![transfer(a, 0, 9), transfer(address(2), 0, 0), transfer(address(3), 0, 5), transfer(address(4), 0, 0)];
    let states = evaluate_lazy_account(a, Some(AccountBasic { balance: word(100), nonce: 0 }), &entries, &txs);
    assert_eq!(states, Ok(vec![Some((word(70), 1)), None, Some((word(75), 1)), Some((word(1), 7))]));
}

#[test]
fn a_lazy_sender_short_of_its_max_fee_fails() {
    let a = address(1);
    let entries = vec![Some(MemoryEntry::Data(0, MemoryValue::LazySender(word(5))))];
    let txs = vec![transfer(a, 0, 50)];
    let states = evaluate_lazy_account(a, Some(AccountBasic { balance: word(10), nonce: 0 }), &entries, &txs);
    assert_eq!(states, Err(LazyEvaluationError::LackOfFundForMaxFee { balance: word(10), fee: word(51) }));
}

#[test]
fn a_lazy_sender_with_another_nonce_fails() {
    let a = address(1);
    let entries = vec![Some(MemoryEntry::Data(0, MemoryValue::LazySender(word(5))))];
    let txs = vec![transfer(a, 3, 0)];
    let states = evaluate_lazy_account(a, Some(AccountBasic { balance: word(10), nonce: 1 }), &entries, &txs);
    assert_eq!(states, Err(LazyEvaluationError::NonceMismatch { tx_idx: 0, tx_nonce: 3, executed_nonce: 1 }));
}

#[test]
fn a_lazy_sender_whose_nonce_wraps_fails() {
    let a = address(1);
    let entries = vec![Some(MemoryEntry::Data(0, MemoryValue::LazySender(word(0))))];
    let txs = vec![transfer(a, u64::MAX, 0)];
    let states = evaluate_lazy_account(a, Some(AccountBasic { balance: word(10), nonce: u64::MAX }), &entries, &txs);
    assert_eq!(states, Err(LazyEvaluationError::UnreachableError));
}

#[test]
fn a_missing_account_starts_empty() {
    let a = address(1);
    let entries = vec![Some(MemoryEntry::Data(0, MemoryValue::LazyRecipient(word(5))))];
    let txs = vec![transfer(address(2), 0, 5)];
    assert_eq!(evaluate_lazy_account(a, None, &entries, &txs), Ok(vec![Some((word(5), 0))]));
}

#[test]
fn an_empty_lazy_account_is_removed_after_spurious_dragon() {
    assert_eq!(lazy_update(true, false, word(0), 0), LazyUpdate::Remove);
    assert_eq!(lazy_update(false, false, word(0), 0), LazyUpdate::Update { balance: word(0), nonce: 0 });
    assert_eq!(lazy_update(true, true, word(0), 0), LazyUpdate::Update { balance: word(0), nonce: 0 });
    assert_eq!(lazy_update(true, false, word(1), 0), LazyUpdate::Update { balance: word(1), nonce: 0 });
}

#[test]
fn a_worker_retries_waits_or_aborts() {
    assert_eq!(execution_step(None, ExecutionEvent::Executed), (None, ExecutionAction::Finish));
    assert_eq!(
        execution_step(None, ExecutionEvent::Failed(VmExecutionError::Retry)),
        (None, ExecutionAction::Reexecute)
    );
    let fallback = Some(AbortReason::FallbackToSequential);
    assert_eq!(
        execution_step(fallback.clone(), ExecutionEvent::Failed(VmExecutionError::Retry)),
        (fallback.clone(), ExecutionAction::Stop { abort_scheduler: false })
    );
    assert_eq!(
        execution_step(None, ExecutionEvent::Failed(VmExecutionError::Blocking(3))),
        (None, ExecutionAction::AddDependency(3))
    );
    assert_eq!(execution_step(None, ExecutionEvent::DependencyAdded(false)), (None, ExecutionAction::Reexecute));
    assert_eq!(
        execution_step(None, ExecutionEvent::DependencyAdded(true)),
        (None, ExecutionAction::Stop { abort_scheduler: false })
    );
    assert_eq!(
        execution_step(None, ExecutionEvent::Failed(VmExecutionError::FallbackToSequential)),
        (fallback.clone(), ExecutionAction::Stop { abort_scheduler: true })
    );
    // The first abort reason is kept.
    assert_eq!(
        execution_step(fallback.clone(), ExecutionEvent::Failed(VmExecutionError::ExecutionError(EvmFailure::Other))),
        (fallback, ExecutionAction::Stop { abort_scheduler: true })
    );
    assert_eq!(
        execution_step(None, ExecutionEvent::Failed(VmExecutionError::ExecutionError(EvmFailure::Other))),
        (Some(AbortReason::ExecutionError(EvmFailure::Other)), ExecutionAction::Stop { abort_scheduler: true })
    );
}

#[test]
fn each_transaction_gets_the_lazy_state_it_left() {
    let states = vec![Some((word(5), 1)), None, Some((word(0), 0))];
    assert_eq!(
        pevm::pevm::lazy_updates(true, false, &states),
        vec![Some(LazyUpdate::Update { balance: word(5), nonce: 1 }), None, Some(LazyUpdate::Remove)]
    );
    assert_eq!(
        pevm::pevm::lazy_updates(true, true, &states)[2],
        Some(LazyUpdate::Update { balance: word(0), nonce: 0 })
    );
}
