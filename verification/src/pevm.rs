//! Block-level decisions of the executor: whether to run a block sequentially,
//! the cumulative gas of the receipts, and the full evaluation of lazily
//! updated accounts once every transaction has executed.
use vstd::prelude::*;

use crate::primitives::{
    lemma_word, saturating_add_spec, saturating_mul_spec, saturating_sub_spec, u256_lt,
    u256_max, u256_saturating_add, u256_saturating_mul, u256_saturating_sub, word, Address, U256,
};
use crate::execution::{EvmFailure, VmExecutionError};
use crate::types::{AccountBasic, MemoryEntry, MemoryValue, TxIdx};

verus! {

/// The gas used by a block under which parallel execution does not pay off.
pub const MIN_PARALLEL_GAS_USED: u64 = 4_000_000;

/// Whether to execute a block sequentially: when asked to, when it has fewer
/// transactions than threads, or when it uses little gas.
pub fn should_execute_sequentially(force_sequential: bool, tx_count: usize, concurrency_level: usize, gas_used: u64) -> (r: bool)
    ensures
        r == (force_sequential || tx_count < concurrency_level || gas_used < MIN_PARALLEL_GAS_USED),
{
    force_sequential || tx_count < concurrency_level || gas_used < MIN_PARALLEL_GAS_USED
}

/// The sum of the first `n` amounts of gas.
pub open spec fn gas_sum(gas: Seq<u64>, n: int) -> nat
    decreases n,
{
    if n <= 0 {
        0
    } else {
        gas_sum(gas, n - 1) + gas[n - 1] as nat
    }
}

/// `x`, held at the largest `u64`.
pub open spec fn cap_u64(x: nat) -> u64 {
    if x > u64::MAX {
        u64::MAX
    } else {
        x as u64
    }
}

/// The cumulative gas used of the receipts of a block: each receipt's gas used
/// becomes the sum of the gas used by its transaction and all before it, held
/// at the largest `u64`.
pub fn cumulative_gas_used(gas_used: &Vec<u64>) -> (r: Vec<u64>)
    ensures
        r@.len() == gas_used@.len(),
        forall|i: int| 0 <= i < r@.len() ==> #[trigger] r@[i] == cap_u64(gas_sum(gas_used@, i + 1)),
{
    let mut r: Vec<u64> = Vec::new();
    let mut total: u64 = 0;
    let mut i: usize = 0;
    while i < gas_used.len()
        invariant
            i <= gas_used@.len(),
            r@.len() == i,
            total == cap_u64(gas_sum(gas_used@, i as int)),
            forall|j: int| 0 <= j < i ==> #[trigger] r@[j] == cap_u64(gas_sum(gas_used@, j + 1)),
        decreases gas_used@.len() - i,
    {
        total = total.saturating_add(gas_used[i]);
        r.push(total);
        i = i + 1;
    }
    r
}

/// The cumulative gas used never decreases from one receipt to the next.
pub proof fn lemma_cumulative_gas_monotonic(gas_used: Seq<u64>, i: int, j: int)
    requires
        0 <= i <= j <= gas_used.len(),
    ensures
        cap_u64(gas_sum(gas_used, i)) <= cap_u64(gas_sum(gas_used, j)),
    decreases j - i,
{
    if i < j {
        lemma_cumulative_gas_monotonic(gas_used, i, j - 1);
    }
}

/// What the lazy evaluation of an account needs to know of a transaction.
#[derive(Clone, Copy, PartialEq, Eq, Structural, Debug)]
pub struct LazyTxInfo {
    pub caller: Address,
    pub nonce: u64,
    pub gas_limit: u64,
    pub gas_price: u128,
    pub value: U256,
    pub blob_count: u64,
    pub max_fee_per_blob_gas: u128,
}

/// The gas of one blob.
pub const GAS_PER_BLOB: u64 = 131_072;

/// The most a transaction may cost its sender: its gas limit at its gas price,
/// the value sent, and its blob gas at its maximal blob fee, each sum and
/// product held at the largest word.
pub open spec fn max_fee_spec(tx: LazyTxInfo) -> nat {
    saturating_add_spec(
        saturating_add_spec(saturating_mul_spec(tx.gas_limit as nat, tx.gas_price as nat), tx.value.value()),
        saturating_mul_spec((GAS_PER_BLOB * tx.blob_count) as nat, tx.max_fee_per_blob_gas as nat),
    )
}

/// Why the lazy evaluation of an account failed.
#[derive(Clone, Copy, PartialEq, Eq, Structural, Debug)]
pub enum LazyEvaluationError {
    /// A lazily updated sender cannot pay the most its transaction may cost.
    LackOfFundForMaxFee { balance: U256, fee: U256 },
    /// A sender's transaction has a nonce other than the one it executed with.
    NonceMismatch { tx_idx: TxIdx, tx_nonce: u64, executed_nonce: u64 },
    /// A sender's nonce wrapped around to zero.
    UnreachableError,
}

/// Whether an entry of a fully executed block is one that a lazily updated
/// account can hold: an account value, or a lazy change of one.
pub open spec fn is_lazy_entry(entry: Option<MemoryEntry>) -> bool {
    match entry {
        None => true,
        Some(MemoryEntry::Data(_, MemoryValue::Basic(_))) => true,
        Some(MemoryEntry::Data(_, MemoryValue::LazyRecipient(_))) => true,
        Some(MemoryEntry::Data(_, MemoryValue::LazySender(_))) => true,
        _ => false,
    }
}

/// The balance and nonce of an account after the entry of transaction `tx_idx`.
/// A lazy sender's balance is checked again here: it was mocked with the largest
/// balance during execution.
#[verifier::opaque]
pub open spec fn lazy_step(
    address: Address,
    tx_idx: TxIdx,
    state: (U256, u64),
    entry: MemoryEntry,
    tx: LazyTxInfo,
) -> Result<(U256, u64), LazyEvaluationError> {
    let (balance, nonce) = state;
    match entry {
        MemoryEntry::Data(_, MemoryValue::Basic(info)) => Ok((info.balance, info.nonce)),
        MemoryEntry::Data(_, MemoryValue::LazyRecipient(addition)) => Ok(
            (word(saturating_add_spec(balance.value(), addition.value())), nonce),
        ),
        MemoryEntry::Data(_, MemoryValue::LazySender(subtraction)) => {
            if balance.value() < max_fee_spec(tx) {
                Err(LazyEvaluationError::LackOfFundForMaxFee { balance, fee: word(max_fee_spec(tx)) })
            } else {
                let next = (word(saturating_sub_spec(balance.value(), subtraction.value())), nonce.wrapping_add(1));
                if tx.caller == address {
                    if next.1 == 0 {
                        Err(LazyEvaluationError::UnreachableError)
                    } else if tx.nonce != (next.1 - 1) as u64 {
                        Err(LazyEvaluationError::NonceMismatch {
                            tx_idx,
                            tx_nonce: tx.nonce,
                            executed_nonce: (next.1 - 1) as u64,
                        })
                    } else {
                        Ok(next)
                    }
                } else {
                    Ok(next)
                }
            }
        },
        _ => Ok(state),
    }
}

/// The balance and nonce of an account after each transaction that has an
/// entry for it (`None` for the others), from its state before the block;
/// and the state after the last.
pub open spec fn lazy_states(
    address: Address,
    initial: (U256, u64),
    entries: Seq<Option<MemoryEntry>>,
    txs: Seq<LazyTxInfo>,
) -> Result<(Seq<Option<(U256, u64)>>, (U256, u64)), LazyEvaluationError>
    decreases entries.len(),
{
    if entries.len() == 0 {
        Ok((Seq::empty(), initial))
    } else {
        match lazy_states(address, initial, entries.drop_last(), txs) {
            Err(e) => Err(e),
            Ok((states, current)) => match entries.last() {
                None => Ok((states.push(None), current)),
                Some(entry) => match lazy_step(
                    address,
                    (entries.len() - 1) as TxIdx,
                    current,
                    entry,
                    txs[entries.len() - 1],
                ) {
                    Err(e) => Err(e),
                    Ok(next) => Ok((states.push(Some(next)), next)),
                },
            },
        }
    }
}

/// The most a transaction may cost its sender.
pub fn max_fee(tx: &LazyTxInfo) -> (r: U256)
    requires
        GAS_PER_BLOB * tx.blob_count <= u64::MAX,
    ensures
        r.value() == max_fee_spec(*tx),
{
    let gas = u256_saturating_mul(U256::from_u64(tx.gas_limit), U256::from_u128(tx.gas_price));
    let with_value = u256_saturating_add(gas, tx.value);
    let blob_gas = U256::from_u64(GAS_PER_BLOB * tx.blob_count);
    let blob_fee = u256_saturating_mul(blob_gas, U256::from_u128(tx.max_fee_per_blob_gas));
    u256_saturating_add(with_value, blob_fee)
}

/// One step of the lazy evaluation.
fn evaluate_lazy_entry(
    address: Address,
    tx_idx: TxIdx,
    state: (U256, u64),
    entry: MemoryEntry,
    tx: &LazyTxInfo,
) -> (r: Result<(U256, u64), LazyEvaluationError>)
    requires
        GAS_PER_BLOB * tx.blob_count <= u64::MAX,
    ensures
        r == lazy_step(address, tx_idx, state, entry, *tx),
{
    proof {
        reveal(lazy_step);
    }
    let (balance, nonce) = state;
    match entry {
        MemoryEntry::Data(_, MemoryValue::Basic(info)) => Ok((info.balance, info.nonce)),
        MemoryEntry::Data(_, MemoryValue::LazyRecipient(addition)) => {
            let b = u256_saturating_add(balance, addition);
            proof {
                lemma_word(b);
            }
            Ok((b, nonce))
        },
        MemoryEntry::Data(_, MemoryValue::LazySender(subtraction)) => {
            // The sender's balance was mocked with the largest value during
            // execution, so the EVM skipped this check.
            let fee = max_fee(tx);
            proof {
                lemma_word(fee);
            }
            if u256_lt(balance, fee) {
                return Err(LazyEvaluationError::LackOfFundForMaxFee { balance, fee });
            }
            let b = u256_saturating_sub(balance, subtraction);
            proof {
                lemma_word(b);
            }
            let next_nonce = nonce.wrapping_add(1);
            if tx.caller == address {
                if next_nonce == 0 {
                    return Err(LazyEvaluationError::UnreachableError);
                }
                let executed_nonce = next_nonce - 1;
                if tx.nonce != executed_nonce {
                    return Err(LazyEvaluationError::NonceMismatch { tx_idx, tx_nonce: tx.nonce, executed_nonce });
                }
            }
            Ok((b, next_nonce))
        },
        _ => Ok(state),
    }
}

/// Fully evaluates a lazily updated account from its entries, one per
/// transaction of the block: its balance and nonce after each transaction that
/// touched it. Fails when a lazy sender could not have paid for its
/// transaction, or executed with another nonce than its transaction's.
pub fn evaluate_lazy_account(
    address: Address,
    initial: Option<AccountBasic>,
    entries: &Vec<Option<MemoryEntry>>,
    txs: &Vec<LazyTxInfo>,
) -> (r: Result<Vec<Option<(U256, u64)>>, LazyEvaluationError>)
    requires
        entries@.len() <= txs@.len(),
        forall|i: int| 0 <= i < entries@.len() ==> is_lazy_entry(#[trigger] entries@[i]),
        forall|i: int| 0 <= i < txs@.len() ==> GAS_PER_BLOB * (#[trigger] txs@[i]).blob_count <= u64::MAX,
    ensures
        ({
            let start = match initial {
                Some(a) => (a.balance, a.nonce),
                None => (word(0), 0u64),
            };
            match lazy_states(address, start, entries@, txs@) {
                Ok((states, _)) => r is Ok && r->Ok_0@ == states,
                Err(e) => r == Err::<Vec<Option<(U256, u64)>>, LazyEvaluationError>(e),
            }
        }),
{
    let (mut balance, mut nonce) = match initial {
        Some(a) => (a.balance, a.nonce),
        None => {
            let z = U256::zero();
            proof {
                lemma_word(z);
            }
            (z, 0)
        },
    };
    let ghost start = (balance, nonce);
    let mut states: Vec<Option<(U256, u64)>> = Vec::new();
    let mut i: usize = 0;
    while i < entries.len()
        invariant
            i <= entries@.len(),
            entries@.len() <= txs@.len(),
            start == match initial {
                Some(a) => (a.balance, a.nonce),
                None => (word(0), 0u64),
            },
            forall|k: int| 0 <= k < txs@.len() ==> GAS_PER_BLOB * (#[trigger] txs@[k]).blob_count <= u64::MAX,
            lazy_states(address, start, entries@.take(i as int), txs@) == Ok::<
                (Seq<Option<(U256, u64)>>, (U256, u64)),
                LazyEvaluationError,
            >((states@, (balance, nonce))),
        decreases entries@.len() - i,
    {
        proof {
            assert(entries@.take(i + 1).drop_last() =~= entries@.take(i as int));
        }
        match entries[i] {
            None => {
                states.push(None);
            },
            Some(entry) => {
                match evaluate_lazy_entry(address, i, (balance, nonce), entry, &txs[i]) {
                    Ok((b, n)) => {
                        balance = b;
                        nonce = n;
                        states.push(Some((b, n)));
                    },
                    Err(e) => {
                        proof {
                            let t = entries@.take(i + 1);
                            assert(t.last() == Some(entry));
                            assert(t.len() - 1 == i);
                            assert(lazy_states(address, start, t, txs@) == Err::<
                                (Seq<Option<(U256, u64)>>, (U256, u64)),
                                LazyEvaluationError,
                            >(e));
                            lemma_lazy_states_error(address, start, entries@, txs@, i as int + 1);
                        }
                        return Err(e);
                    },
                }
            },
        }
        i = i + 1;
    }
    proof {
        assert(entries@.take(entries@.len() as int) =~= entries@);
    }
    Ok(states)
}

/// Once the evaluation fails, it fails with the same error on longer entries.
proof fn lemma_lazy_states_error(
    address: Address,
    start: (U256, u64),
    entries: Seq<Option<MemoryEntry>>,
    txs: Seq<LazyTxInfo>,
    k: int,
)
    requires
        0 <= k <= entries.len(),
        lazy_states(address, start, entries.take(k), txs) is Err,
    ensures
        lazy_states(address, start, entries, txs) == lazy_states(address, start, entries.take(k), txs),
    decreases entries.len() - k,
{
    if k < entries.len() {
        assert(entries.take(k + 1).drop_last() =~= entries.take(k));
        lemma_lazy_states_error(address, start, entries, txs, k + 1);
    } else {
        assert(entries.take(k) =~= entries);
    }
}

/// What becomes of a lazily updated account in a transaction's state changes.
#[derive(Clone, Copy, PartialEq, Eq, Structural, Debug)]
pub enum LazyUpdate {
    /// It is cleared: empty after Spurious Dragon.
    Remove,
    /// It holds this balance and nonce.
    Update { balance: U256, nonce: u64 },
}

/// The state change of a lazily updated account after a transaction.
pub fn lazy_update(eip161: bool, has_code: bool, balance: U256, nonce: u64) -> (r: LazyUpdate)
    ensures
        r == if eip161 && !has_code && nonce == 0 && balance.value() == 0 {
            LazyUpdate::Remove
        } else {
            LazyUpdate::Update { balance, nonce }
        },
{
    if eip161 && !has_code && nonce == 0 && balance.is_zero() {
        LazyUpdate::Remove
    } else {
        LazyUpdate::Update { balance, nonce }
    }
}

/// The state changes of a lazily updated account, one per transaction of the
/// block, from its balance and nonce after each transaction that touched it
/// (`None` for the others, whose results keep the account as it is).
pub fn lazy_updates(eip161: bool, has_code: bool, states: &Vec<Option<(U256, u64)>>) -> (r: Vec<Option<LazyUpdate>>)
    ensures
        r@.len() == states@.len(),
        forall|i: int|
            0 <= i < states@.len() ==> #[trigger] r@[i] == match states@[i] {
                Some((balance, nonce)) => Some(
                    if eip161 && !has_code && nonce == 0 && balance.value() == 0 {
                        LazyUpdate::Remove
                    } else {
                        LazyUpdate::Update { balance, nonce }
                    },
                ),
                None => None::<LazyUpdate>,
            },
{
    let mut r: Vec<Option<LazyUpdate>> = Vec::new();
    let mut i: usize = 0;
    while i < states.len()
        invariant
            i <= states@.len(),
            r@.len() == i,
            forall|j: int|
                0 <= j < i ==> #[trigger] r@[j] == match states@[j] {
                    Some((balance, nonce)) => Some(
                        if eip161 && !has_code && nonce == 0 && balance.value() == 0 {
                            LazyUpdate::Remove
                        } else {
                            LazyUpdate::Update { balance, nonce }
                        },
                    ),
                    None => None::<LazyUpdate>,
                },
        decreases states@.len() - i,
    {
        let update = match states[i] {
            Some((balance, nonce)) => Some(lazy_update(eip161, has_code, balance, nonce)),
            None => None,
        };
        r.push(update);
        i = i + 1;
    }
    r
}

/// Why the parallel execution of a block was given up.
#[derive(Debug, Clone, PartialEq, Eq)]
pub enum AbortReason {
    /// Run the block sequentially instead.
    FallbackToSequential,
    /// A transaction failed for good.
    ExecutionError(EvmFailure),
}

/// What a worker learns about the transaction it executes.
#[derive(Debug, Clone, PartialEq, Eq)]
pub enum ExecutionEvent {
    /// The VM ran the transaction to its end.
    Executed,
    /// The VM did not finish the transaction, for this reason.
    Failed(VmExecutionError),
    /// The scheduler was asked to make the transaction wait for a lower one, and
    /// answered whether it did (it does not when that one is already done).
    DependencyAdded(bool),
}

/// What a worker does next with the transaction it executes.
#[derive(Debug, Clone, PartialEq, Eq)]
pub enum ExecutionAction {
    /// Run it again at once.
    Reexecute,
    /// Ask the scheduler to make it wait for this transaction.
    AddDependency(TxIdx),
    /// Store its result and report the finished execution to the scheduler.
    Finish,
    /// Leave it; stop the scheduler first when the block is being aborted.
    Stop { abort_scheduler: bool },
}

/// The next abort reason and action of a worker after `event`: the first abort
/// reason recorded is kept; an inconsistent read is retried at once unless the
/// block is aborted; a blocking transaction becomes a dependency, and when the
/// dependency could not be added (the blocking transaction is done) the
/// execution is retried at once unless the block is aborted.
pub open spec fn execution_step_spec(abort_reason: Option<AbortReason>, event: ExecutionEvent) -> (
    Option<AbortReason>,
    ExecutionAction,
) {
    match event {
        ExecutionEvent::Executed => (abort_reason, ExecutionAction::Finish),
        ExecutionEvent::Failed(VmExecutionError::Retry) => (
            abort_reason,
            if abort_reason is None {
                ExecutionAction::Reexecute
            } else {
                ExecutionAction::Stop { abort_scheduler: false }
            },
        ),
        ExecutionEvent::Failed(VmExecutionError::Blocking(blocking)) => (
            abort_reason,
            ExecutionAction::AddDependency(blocking),
        ),
        ExecutionEvent::Failed(VmExecutionError::FallbackToSequential) => (
            if abort_reason is None {
                Some(AbortReason::FallbackToSequential)
            } else {
                abort_reason
            },
            ExecutionAction::Stop { abort_scheduler: true },
        ),
        ExecutionEvent::Failed(VmExecutionError::ExecutionError(err)) => (
            if abort_reason is None {
                Some(AbortReason::ExecutionError(err))
            } else {
                abort_reason
            },
            ExecutionAction::Stop { abort_scheduler: true },
        ),
        ExecutionEvent::DependencyAdded(added) => (
            abort_reason,
            if !added && abort_reason is None {
                ExecutionAction::Reexecute
            } else {
                ExecutionAction::Stop { abort_scheduler: false }
            },
        ),
    }
}

/// One step of a worker executing a transaction: from the block's abort reason
/// and what happened, the next abort reason and what to do. Once recorded, an
/// abort reason never changes.
pub fn execution_step(abort_reason: Option<AbortReason>, event: ExecutionEvent) -> (r: (Option<AbortReason>, ExecutionAction))
    ensures
        r == execution_step_spec(abort_reason, event),
        abort_reason is Some ==> r.0 == abort_reason,
{
    let aborted = abort_reason.is_some();
    match event {
        ExecutionEvent::Executed => (abort_reason, ExecutionAction::Finish),
        ExecutionEvent::Failed(VmExecutionError::Retry) => {
            if !aborted {
                (abort_reason, ExecutionAction::Reexecute)
            } else {
                (abort_reason, ExecutionAction::Stop { abort_scheduler: false })
            }
        },
        ExecutionEvent::Failed(VmExecutionError::Blocking(blocking)) => (
            abort_reason,
            ExecutionAction::AddDependency(blocking),
        ),
        ExecutionEvent::Failed(VmExecutionError::FallbackToSequential) => {
            let next = if aborted {
                abort_reason
            } else {
                Some(AbortReason::FallbackToSequential)
            };
            (next, ExecutionAction::Stop { abort_scheduler: true })
        },
        ExecutionEvent::Failed(VmExecutionError::ExecutionError(err)) => {
            let next = if aborted {
                abort_reason
            } else {
                Some(AbortReason::ExecutionError(err))
            };
            (next, ExecutionAction::Stop { abort_scheduler: true })
        },
        ExecutionEvent::DependencyAdded(added) => {
            if !added && !aborted {
                (abort_reason, ExecutionAction::Reexecute)
            } else {
                (abort_reason, ExecutionAction::Stop { abort_scheduler: false })
            }
        },
    }
}

} // verus!
