//! What an execution leaves behind: the write set built from the accounts that
//! the EVM changed, the rewards of the block's beneficiaries, and the flags and
//! errors handed back to the scheduler.
use vstd::prelude::*;

use crate::collections::{read_accounts_contents, read_accounts_get};
use crate::hashing::{hash_deterministic, MemoryLocation, MemoryLocationHash};
use crate::mv_memory::{MvMemory, lazy_steps, recorded_entries, written_locations};
use crate::primitives::{
    lemma_value_nonneg_parts, lemma_word, min_nat, saturating_add_spec, saturating_mul_spec, saturating_sub_spec, u256_lt,
    u256_max, u256_saturating_add, u256_saturating_mul, u256_saturating_sub, word, Address, B256,
    U256,
};
use crate::types::{AccountBasic, FinishExecFlags, MemoryValue, TxIdx, TxVersion};
use crate::vm::{basic_location, code_hash_location, storage_location, ReadError, VmDb};
use crate::collections::read_set_contents;
use crate::validation::{InvalidHeader, InvalidTransaction};

verus! {

/// What an execution left of one account, as the EVM reports it.
pub struct AccountChange {
    pub address: Address,
    pub selfdestructed: bool,
    pub touched: bool,
    /// No code, a zero balance and a zero nonce.
    pub empty: bool,
    pub balance: U256,
    pub nonce: u64,
    pub code_hash: B256,
    /// Whether the code hash is not that of empty code.
    pub has_code: bool,
    /// The storage slots whose value changed, with their present value.
    pub changed_slots: Vec<(U256, U256)>,
}

/// The writes of the changed storage slots of `address`, in order.
pub open spec fn slot_writes(address: Address, slots: Seq<(U256, U256)>) -> Seq<(MemoryLocationHash, MemoryValue)> {
    Seq::new(slots.len(), |i: int| (storage_location(address, slots[i].0), MemoryValue::Storage(slots[i].1)))
}

/// Whether the execution deployed code at an account that had none when read
/// (or was not read).
pub open spec fn is_new_code(db: VmDb, c: AccountChange) -> bool {
    let reads = read_accounts_contents(db.read_accounts);
    let location = basic_location(c.address);
    c.has_code && (!reads.contains_key(location) || reads[location].1 is None)
}

/// Whether the balance or nonce of the account differs from what was read.
pub open spec fn info_changed(db: VmDb, c: AccountChange) -> bool {
    let reads = read_accounts_contents(db.read_accounts);
    let location = basic_location(c.address);
    ||| is_new_code(db, c)
    ||| !reads.contains_key(location)
    ||| reads[location].0.nonce != c.nonce
    ||| reads[location].0.balance != c.balance
}

/// The write to the basic location of a changed account. A lazy execution only
/// writes the balance change of its sender (what it paid out of a mocked largest
/// balance) and of its recipient (the value sent). After Spurious Dragon an empty
/// account is cleared, so it is not written.
pub open spec fn info_writes(db: VmDb, c: AccountChange, tx_value: U256, eip161: bool) -> Seq<
    (MemoryLocationHash, MemoryValue),
> {
    let location = basic_location(c.address);
    if !info_changed(db, c) {
        Seq::empty()
    } else if db.is_lazy {
        if location == db.from_hash {
            seq![(location, MemoryValue::LazySender(word((u256_max() - c.balance.value()) as nat)))]
        } else if Some(location) == db.to_hash {
            seq![(location, MemoryValue::LazyRecipient(tx_value))]
        } else {
            Seq::empty()
        }
    } else if !eip161 || !c.empty {
        seq![(location, MemoryValue::Basic(AccountBasic { balance: c.balance, nonce: c.nonce }))]
    } else {
        Seq::empty()
    }
}

/// The writes of one account: a self-destruct marks its code hash; a touched
/// account writes its changed balance and nonce and its new code; every account
/// writes its changed storage slots.
pub open spec fn account_writes(db: VmDb, c: AccountChange, tx_value: U256, eip161: bool) -> Seq<
    (MemoryLocationHash, MemoryValue),
> {
    if c.selfdestructed {
        seq![(code_hash_location(c.address), MemoryValue::SelfDestructed)]
    } else {
        let touched = if c.touched {
            info_writes(db, c, tx_value, eip161) + if is_new_code(db, c) {
                seq![(code_hash_location(c.address), MemoryValue::CodeHash(c.code_hash))]
            } else {
                Seq::empty()
            }
        } else {
            Seq::empty()
        };
        touched + slot_writes(c.address, c.changed_slots@)
    }
}

/// The new contract deployed at one account, if any.
pub open spec fn account_new_code(db: VmDb, c: AccountChange) -> Seq<(Address, B256)> {
    if !c.selfdestructed && c.touched && is_new_code(db, c) {
        seq![(c.address, c.code_hash)]
    } else {
        Seq::empty()
    }
}

/// The write set of an execution: the writes of each account in turn.
pub open spec fn write_set_of(db: VmDb, changes: Seq<AccountChange>, tx_value: U256, eip161: bool) -> Seq<
    (MemoryLocationHash, MemoryValue),
>
    decreases changes.len(),
{
    if changes.len() == 0 {
        Seq::empty()
    } else {
        write_set_of(db, changes.drop_last(), tx_value, eip161) + account_writes(
            db,
            changes.last(),
            tx_value,
            eip161,
        )
    }
}

/// The contracts an execution deployed, with their code hashes.
pub open spec fn new_codes_of(db: VmDb, changes: Seq<AccountChange>) -> Seq<(Address, B256)>
    decreases changes.len(),
{
    if changes.len() == 0 {
        Seq::empty()
    } else {
        new_codes_of(db, changes.drop_last()) + account_new_code(db, changes.last())
    }
}

impl VmDb {
    /// Builds the write set of an execution from the accounts it changed, and lists
    /// the contracts it deployed (their code goes to the shared bytecode cache).
    pub fn build_write_set(&self, changes: &Vec<AccountChange>, tx_value: U256, eip161: bool) -> (r: (
        Vec<(MemoryLocationHash, MemoryValue)>,
        Vec<(Address, B256)>,
    ))
        ensures
            r.0@ == write_set_of(*self, changes@, tx_value, eip161),
            r.1@ == new_codes_of(*self, changes@),
    {
        // There are at least three locations most of the time: the sender, the
        // recipient and the beneficiary.
        let mut write_set: Vec<(MemoryLocationHash, MemoryValue)> = Vec::new();
        let mut new_codes: Vec<(Address, B256)> = Vec::new();
        let mut i: usize = 0;
        while i < changes.len()
            invariant
                i <= changes@.len(),
                write_set@ == write_set_of(*self, changes@.take(i as int), tx_value, eip161),
                new_codes@ == new_codes_of(*self, changes@.take(i as int)),
            decreases changes@.len() - i,
        {
            self.push_account_writes(&changes[i], tx_value, eip161, &mut write_set, &mut new_codes);
            proof {
                assert(changes@.take(i + 1).drop_last() =~= changes@.take(i as int));
            }
            i = i + 1;
        }
        proof {
            assert(changes@.take(changes@.len() as int) =~= changes@);
        }
        (write_set, new_codes)
    }

    fn push_account_writes(
        &self,
        c: &AccountChange,
        tx_value: U256,
        eip161: bool,
        write_set: &mut Vec<(MemoryLocationHash, MemoryValue)>,
        new_codes: &mut Vec<(Address, B256)>,
    )
        ensures
            final(write_set)@ == old(write_set)@ + account_writes(*self, *c, tx_value, eip161),
            final(new_codes)@ == old(new_codes)@ + account_new_code(*self, *c),
    {
        if c.selfdestructed {
            // The basic location is left alone: reading the code hash of a
            // self-destructed contract already falls back to sequential execution.
            write_set.push((hash_deterministic(MemoryLocation::CodeHash(c.address)), MemoryValue::SelfDestructed));
            proof {
                assert(write_set@ =~= old(write_set)@ + account_writes(*self, *c, tx_value, eip161));
                assert(new_codes@ =~= old(new_codes)@ + account_new_code(*self, *c));
            }
            return;
        }
        let ghost start = write_set@;
        if c.touched {
            let location = hash_deterministic(MemoryLocation::Basic(c.address));
            let read = read_accounts_get(&self.read_accounts, location);
            let is_new = c.has_code && match read {
                None => true,
                Some((_, code_hash)) => code_hash.is_none(),
            };
            let changed = is_new || match read {
                None => true,
                Some((basic, _)) => basic.nonce != c.nonce || basic.balance != c.balance,
            };
            let ghost before_info = write_set@;
            if changed {
                if self.is_lazy {
                    if location == self.from_hash {
                        let paid = u256_saturating_sub(U256::max_value(), c.balance);
                        proof {
                            lemma_word(paid);
                        }
                        write_set.push((location, MemoryValue::LazySender(paid)));
                    } else if Some(location) == self.to_hash {
                        write_set.push((location, MemoryValue::LazyRecipient(tx_value)));
                    }
                } else if !eip161 || !c.empty {
                    write_set.push((location, MemoryValue::Basic(AccountBasic { balance: c.balance, nonce: c.nonce })));
                }
            }
            proof {
                assert(write_set@ =~= before_info + info_writes(*self, *c, tx_value, eip161));
            }
            let ghost before_code = write_set@;
            if is_new {
                write_set.push((hash_deterministic(MemoryLocation::CodeHash(c.address)), MemoryValue::CodeHash(c.code_hash)));
                new_codes.push((c.address, c.code_hash));
            }
            proof {
                assert(new_codes@ =~= old(new_codes)@ + account_new_code(*self, *c));
            }
        } else {
            proof {
                assert(new_codes@ =~= old(new_codes)@ + account_new_code(*self, *c));
            }
        }
        let ghost touched = write_set@.subrange(start.len() as int, write_set@.len() as int);
        proof {
            assert(write_set@ =~= start + touched);
        }
        let mut j: usize = 0;
        while j < c.changed_slots.len()
            invariant
                j <= c.changed_slots@.len(),
                write_set@ == start + touched + slot_writes(c.address, c.changed_slots@.take(j as int)),
            decreases c.changed_slots@.len() - j,
        {
            let (slot, value) = c.changed_slots[j];
            write_set.push((hash_deterministic(MemoryLocation::Storage(c.address, slot)), MemoryValue::Storage(value)));
            proof {
                assert(slot_writes(c.address, c.changed_slots@.take(j + 1)) =~= slot_writes(
                    c.address,
                    c.changed_slots@.take(j as int),
                ).push((storage_location(c.address, slot), MemoryValue::Storage(value))));
            }
            j = j + 1;
        }
        proof {
            assert(c.changed_slots@.take(c.changed_slots@.len() as int) =~= c.changed_slots@);
            assert(start + touched + slot_writes(c.address, c.changed_slots@) =~= start + (touched + slot_writes(c.address, c.changed_slots@)));
        }
    }
}

/// Who receives the fees of a transaction.
#[derive(Clone, Copy, PartialEq, Eq, Structural, Debug)]
pub enum RewardPolicy {
    /// The block's beneficiary gets the priority fees.
    Ethereum,
    /// The beneficiary gets the priority fees, the L1 fee recipient the L1 data
    /// fee and the base fee vault the base fees.
    Optimism {
        l1_fee_recipient_location_hash: MemoryLocationHash,
        base_fee_vault_location_hash: MemoryLocationHash,
    },
}

/// The gas price a beneficiary is paid: the effective gas price (capped by the
/// priority fee above the base fee), minus the burnt base fee after London.
pub open spec fn reward_gas_price_spec(gas_price: U256, priority_fee: Option<U256>, basefee: U256, eip1559: bool) -> nat {
    let effective = match priority_fee {
        Some(p) => min_nat(gas_price.value(), saturating_add_spec(p.value(), basefee.value())),
        None => gas_price.value(),
    };
    if eip1559 {
        saturating_sub_spec(effective, basefee.value())
    } else {
        effective
    }
}

/// What a beneficiary is paid per unit of gas never exceeds what the sender
/// offered. After London it is the priority fee, cut down to what the gas
/// price leaves above the burnt base fee: `min(gas_price - basefee, tip)`,
/// never more than either. Before London the whole price (capped by the tip
/// above the base fee) is paid.
pub proof fn lemma_reward_within_offer(gas_price: U256, priority_fee: Option<U256>, basefee: U256, eip1559: bool)
    ensures
        reward_gas_price_spec(gas_price, priority_fee, basefee, eip1559) <= gas_price.value(),
        eip1559 ==> reward_gas_price_spec(gas_price, priority_fee, basefee, eip1559) <= saturating_sub_spec(
            gas_price.value(),
            basefee.value(),
        ),
        eip1559 && priority_fee is None ==> reward_gas_price_spec(gas_price, priority_fee, basefee, eip1559)
            == saturating_sub_spec(gas_price.value(), basefee.value()),
        priority_fee matches Some(p) ==> (eip1559 ==> reward_gas_price_spec(gas_price, priority_fee, basefee, eip1559)
            == min_nat(saturating_sub_spec(gas_price.value(), basefee.value()), p.value())),
        priority_fee matches Some(p) ==> (!eip1559 ==> reward_gas_price_spec(gas_price, priority_fee, basefee, eip1559)
            <= p.value() + basefee.value()),
        !eip1559 && priority_fee is None ==> reward_gas_price_spec(gas_price, priority_fee, basefee, eip1559)
            == gas_price.value(),
{
    lemma_value_nonneg_parts(gas_price);
    lemma_value_nonneg_parts(basefee);
    if let Some(p) = priority_fee {
        lemma_value_nonneg_parts(p);
    }
}

/// The gas price a beneficiary is paid per unit of gas.
pub fn reward_gas_price(gas_price: U256, priority_fee: Option<U256>, basefee: U256, eip1559: bool) -> (r: U256)
    ensures
        r.value() == reward_gas_price_spec(gas_price, priority_fee, basefee, eip1559),
{
    let effective = match priority_fee {
        Some(p) => {
            let cap = u256_saturating_add(p, basefee);
            if u256_lt(cap, gas_price) {
                cap
            } else {
                gas_price
            }
        },
        None => gas_price,
    };
    if eip1559 {
        u256_saturating_sub(effective, basefee)
    } else {
        effective
    }
}

/// The balance increments of a transaction's fee recipients. A deposit
/// transaction of Optimism pays no fee.
pub open spec fn rewards_spec(
    policy: RewardPolicy,
    beneficiary: MemoryLocationHash,
    gas_price: U256,
    basefee: U256,
    gas_used: U256,
    is_deposit: bool,
    l1_cost: U256,
) -> Seq<(MemoryLocationHash, U256)> {
    let priority = word(saturating_mul_spec(gas_price.value(), gas_used.value()));
    match policy {
        RewardPolicy::Ethereum => seq![(beneficiary, priority)],
        RewardPolicy::Optimism { l1_fee_recipient_location_hash, base_fee_vault_location_hash } => if is_deposit {
            Seq::empty()
        } else {
            seq![
                (beneficiary, priority),
                (l1_fee_recipient_location_hash, l1_cost),
                (base_fee_vault_location_hash, word(saturating_mul_spec(basefee.value(), gas_used.value()))),
            ]
        },
    }
}

/// Whether `i` is the first position of the write set that writes to `location`.
pub open spec fn is_first_write(ws: Seq<(MemoryLocationHash, MemoryValue)>, location: MemoryLocationHash, i: int) -> bool {
    &&& 0 <= i < ws.len()
    &&& ws[i].0 == location
    &&& forall|j: int| 0 <= j < i ==> ws[j].0 != location
}

/// Adds one reward to a write set: onto the first write to the recipient when
/// there is one (an account value, or a lazy change of it), else as a new lazy
/// balance addition. `None` when the write there is not of an account.
#[verifier::opaque]
pub open spec fn reward_step(ws: Seq<(MemoryLocationHash, MemoryValue)>, recipient: MemoryLocationHash, amount: U256) -> Option<
    Seq<(MemoryLocationHash, MemoryValue)>,
> {
    if exists|i: int| is_first_write(ws, recipient, i) {
        let i = choose|i: int| is_first_write(ws, recipient, i);
        match ws[i].1 {
            MemoryValue::Basic(basic) => Some(ws.update(i, (recipient, MemoryValue::Basic(AccountBasic {
                balance: word(saturating_add_spec(basic.balance.value(), amount.value())),
                nonce: basic.nonce,
            })))),
            MemoryValue::LazySender(subtraction) => Some(ws.update(i, (recipient, MemoryValue::LazySender(
                word(saturating_sub_spec(subtraction.value(), amount.value())),
            )))),
            MemoryValue::LazyRecipient(addition) => Some(ws.update(i, (recipient, MemoryValue::LazyRecipient(
                word(saturating_add_spec(addition.value(), amount.value())),
            )))),
            _ => None,
        }
    } else {
        Some(ws.push((recipient, MemoryValue::LazyRecipient(amount))))
    }
}

/// Adds the rewards one after the other.
pub open spec fn rewards_applied(ws: Seq<(MemoryLocationHash, MemoryValue)>, rewards: Seq<(MemoryLocationHash, U256)>) -> Option<
    Seq<(MemoryLocationHash, MemoryValue)>,
>
    decreases rewards.len(),
{
    if rewards.len() == 0 {
        Some(ws)
    } else {
        match rewards_applied(ws, rewards.drop_last()) {
            Some(w) => reward_step(w, rewards.last().0, rewards.last().1),
            None => None,
        }
    }
}

/// The first position of the write set that writes to `location`, if any.
fn first_write(ws: &Vec<(MemoryLocationHash, MemoryValue)>, location: MemoryLocationHash) -> (r: Option<usize>)
    ensures
        match r {
            Some(i) => is_first_write(ws@, location, i as int),
            None => forall|j: int| 0 <= j < ws@.len() ==> ws@[j].0 != location,
        },
{
    let mut i: usize = 0;
    while i < ws.len()
        invariant
            i <= ws@.len(),
            forall|j: int| 0 <= j < i ==> ws@[j].0 != location,
        decreases ws@.len() - i,
    {
        if ws[i].0 == location {
            return Some(i);
        }
        i = i + 1;
    }
    None
}

/// Adds one reward to a write set; `false` when the recipient's write is not of
/// an account.
fn apply_reward(write_set: &mut Vec<(MemoryLocationHash, MemoryValue)>, recipient: MemoryLocationHash, amount: U256) -> (r: bool)
    ensures
        match reward_step(old(write_set)@, recipient, amount) {
            Some(ws) => r && final(write_set)@ == ws,
            None => !r,
        },
{
    proof {
        reveal(reward_step);
    }
    match first_write(write_set, recipient) {
        Some(i) => {
            proof {
                let c = choose|c: int| is_first_write(write_set@, recipient, c);
                if c < i {
                } else if i < c {
                }
                assert(c == i);
            }
            let value = write_set[i].1;
            match value {
                MemoryValue::Basic(basic) => {
                    let balance = u256_saturating_add(basic.balance, amount);
                    proof {
                        lemma_word(balance);
                    }
                    write_set.set(i, (recipient, MemoryValue::Basic(AccountBasic { balance, nonce: basic.nonce })));
                    true
                },
                MemoryValue::LazySender(subtraction) => {
                    let rest = u256_saturating_sub(subtraction, amount);
                    proof {
                        lemma_word(rest);
                    }
                    write_set.set(i, (recipient, MemoryValue::LazySender(rest)));
                    true
                },
                MemoryValue::LazyRecipient(addition) => {
                    let total = u256_saturating_add(addition, amount);
                    proof {
                        lemma_word(total);
                    }
                    write_set.set(i, (recipient, MemoryValue::LazyRecipient(total)));
                    true
                },
                _ => false,
            }
        },
        None => {
            write_set.push((recipient, MemoryValue::LazyRecipient(amount)));
            true
        },
    }
}

/// Applies balance increments to the fee recipients in a write set. Fails when a
/// recipient's write is not of an account.
pub fn apply_rewards(write_set: &mut Vec<(MemoryLocationHash, MemoryValue)>, rewards: &Vec<(MemoryLocationHash, U256)>) -> (r: Result<(), ReadError>)
    ensures
        match rewards_applied(old(write_set)@, rewards@) {
            Some(ws) => r is Ok && final(write_set)@ == ws,
            None => r == Err::<(), ReadError>(ReadError::InvalidMemoryValueType),
        },
{
    let mut k: usize = 0;
    while k < rewards.len()
        invariant
            k <= rewards@.len(),
            rewards_applied(old(write_set)@, rewards@.take(k as int)) == Some(write_set@),
        decreases rewards@.len() - k,
    {
        let (recipient, amount) = rewards[k];
        proof {
            assert(rewards@.take(k + 1).drop_last() =~= rewards@.take(k as int));
        }
        if !apply_reward(write_set, recipient, amount) {
            proof {
                lemma_rewards_fail_stays(old(write_set)@, rewards@, k + 1);
            }
            return Err(ReadError::InvalidMemoryValueType);
        }
        k = k + 1;
    }
    proof {
        assert(rewards@.take(rewards@.len() as int) =~= rewards@);
    }
    Ok(())
}

/// Once a reward fails, adding more rewards still fails.
proof fn lemma_rewards_fail_stays(ws: Seq<(MemoryLocationHash, MemoryValue)>, rewards: Seq<(MemoryLocationHash, U256)>, k: int)
    requires
        0 <= k <= rewards.len(),
        rewards_applied(ws, rewards.take(k)) is None,
    ensures
        rewards_applied(ws, rewards) is None,
    decreases rewards.len() - k,
{
    if k < rewards.len() {
        assert(rewards.take(k + 1).drop_last() =~= rewards.take(k));
        lemma_rewards_fail_stays(ws, rewards, k + 1);
    } else {
        assert(rewards.take(k) =~= rewards);
    }
}

/// How the EVM failed a transaction, as far as the executor tells failures apart.
#[derive(Debug, Clone, PartialEq, Eq)]
pub enum EvmFailure {
    /// A read of the database failed.
    Database(ReadError),
    /// The sender, with `balance`, cannot pay the maximal `fee`.
    LackOfFundForMaxFee { fee: U256, balance: U256 },
    /// The transaction's nonce `tx` is above the sender's nonce `state`.
    NonceTooHigh { tx: u64, state: u64 },
    /// Another reason the transaction is invalid.
    Transaction(InvalidTransaction),
    /// The block header is invalid for the hardfork.
    Header(InvalidHeader),
    /// Any other failure of the EVM.
    Other,
}

/// Why an execution did not finish.
#[derive(Debug, Clone, PartialEq, Eq)]
pub enum VmExecutionError {
    /// Re-execute at once: a read was inconsistent.
    Retry,
    /// Give up on parallel execution and run the block sequentially.
    FallbackToSequential,
    /// Wait for this lower transaction.
    Blocking(TxIdx),
    /// The transaction failed for good.
    ExecutionError(EvmFailure),
}

impl From<ReadError> for VmExecutionError {
    fn from(err: ReadError) -> (r: Self) {
        match err {
            ReadError::InconsistentRead => VmExecutionError::Retry,
            ReadError::SelfDestructedAccount => VmExecutionError::FallbackToSequential,
            ReadError::Blocking(tx_idx) => VmExecutionError::Blocking(tx_idx),
            _ => VmExecutionError::ExecutionError(EvmFailure::Database(err)),
        }
    }
}

impl vstd::std_specs::convert::FromSpecImpl<ReadError> for VmExecutionError {
    open spec fn obeys_from_spec() -> bool {
        true
    }

    open spec fn from_spec(err: ReadError) -> VmExecutionError {
        match err {
            ReadError::InconsistentRead => VmExecutionError::Retry,
            ReadError::SelfDestructedAccount => VmExecutionError::FallbackToSequential,
            ReadError::Blocking(tx_idx) => VmExecutionError::Blocking(tx_idx),
            _ => VmExecutionError::ExecutionError(EvmFailure::Database(err)),
        }
    }
}

/// What a failed execution of transaction `tx_idx` means for the scheduler.
pub open spec fn failure_outcome(tx_idx: TxIdx, failure: EvmFailure) -> VmExecutionError {
    match failure {
        EvmFailure::Database(err) => match err {
            ReadError::InconsistentRead => VmExecutionError::Retry,
            ReadError::SelfDestructedAccount => VmExecutionError::FallbackToSequential,
            ReadError::Blocking(b) => VmExecutionError::Blocking(b),
            _ => VmExecutionError::ExecutionError(EvmFailure::Database(err)),
        },
        EvmFailure::LackOfFundForMaxFee { .. } | EvmFailure::NonceTooHigh { .. } => if tx_idx > 0 {
            VmExecutionError::Blocking((tx_idx - 1) as TxIdx)
        } else {
            VmExecutionError::ExecutionError(failure)
        },
        _ => VmExecutionError::ExecutionError(failure),
    }
}

/// Classifies a failed execution. A sender short of funds or ahead in nonce may
/// wait for lower transactions that have not run yet to send it funds or bump its
/// nonce: the execution is retried after the previous transaction. This is safe
/// when syncing canonical blocks, though it can deadlock on faulty ones.
pub fn execution_failure(tx_idx: TxIdx, failure: EvmFailure) -> (r: VmExecutionError)
    ensures
        r == failure_outcome(tx_idx, failure),
{
    match failure {
        EvmFailure::Database(err) => VmExecutionError::from(err),
        EvmFailure::LackOfFundForMaxFee { .. } | EvmFailure::NonceTooHigh { .. } => if tx_idx > 0 {
            VmExecutionError::Blocking(tx_idx - 1)
        } else {
            VmExecutionError::ExecutionError(failure)
        },
        _ => VmExecutionError::ExecutionError(failure),
    }
}

/// The flags of a finished execution: a lower bound of validation for a
/// non-lazy transaction past the first, and a new location written.
pub open spec fn finish_flags_spec(tx_idx: TxIdx, is_lazy: bool, wrote_new_location: bool) -> u8 {
    let base: u8 = if tx_idx > 0 && !is_lazy {
        FinishExecFlags::need_validation_bits()
    } else {
        0
    };
    if wrote_new_location {
        base | FinishExecFlags::wrote_new_location_bits()
    } else {
        base
    }
}

/// The executor of the transactions of one block, with what it needs to pay the
/// fee recipients.
pub struct Vm {
    pub beneficiary_location_hash: MemoryLocationHash,
    pub reward_policy: RewardPolicy,
    pub basefee: U256,
    /// Whether the base fee is burnt (London).
    pub eip1559: bool,
    /// Whether empty accounts are cleared (Spurious Dragon).
    pub eip161: bool,
}

impl Vm {
    pub fn new(coinbase: Address, reward_policy: RewardPolicy, basefee: U256, eip1559: bool, eip161: bool) -> (r: Vm)
        ensures
            r.beneficiary_location_hash == basic_location(coinbase),
            r.reward_policy == reward_policy,
            r.basefee == basefee,
            r.eip1559 == eip1559,
            r.eip161 == eip161,
    {
        Vm {
            beneficiary_location_hash: hash_deterministic(MemoryLocation::Basic(coinbase)),
            reward_policy,
            basefee,
            eip1559,
            eip161,
        }
    }

    /// The balance increments of a transaction's fee recipients.
    pub fn rewards(&self, gas_price: U256, priority_fee: Option<U256>, gas_used: U256, is_deposit: bool, l1_cost: U256) -> (r: Vec<
        (MemoryLocationHash, U256),
    >)
        ensures
            r@ == rewards_spec(
                self.reward_policy,
                self.beneficiary_location_hash,
                word(reward_gas_price_spec(gas_price, priority_fee, self.basefee, self.eip1559)),
                self.basefee,
                gas_used,
                is_deposit,
                l1_cost,
            ),
    {
        let price = reward_gas_price(gas_price, priority_fee, self.basefee, self.eip1559);
        proof {
            lemma_word(price);
        }
        let priority = u256_saturating_mul(price, gas_used);
        proof {
            lemma_word(priority);
        }
        let mut rewards: Vec<(MemoryLocationHash, U256)> = Vec::new();
        match self.reward_policy {
            RewardPolicy::Ethereum => {
                rewards.push((self.beneficiary_location_hash, priority));
            },
            RewardPolicy::Optimism { l1_fee_recipient_location_hash, base_fee_vault_location_hash } => {
                if !is_deposit {
                    let base = u256_saturating_mul(self.basefee, gas_used);
                    proof {
                        lemma_word(base);
                    }
                    rewards.push((self.beneficiary_location_hash, priority));
                    rewards.push((l1_fee_recipient_location_hash, l1_cost));
                    rewards.push((base_fee_vault_location_hash, base));
                }
            },
        }
        proof {
            assert(rewards@ =~= rewards_spec(
                self.reward_policy,
                self.beneficiary_location_hash,
                word(reward_gas_price_spec(gas_price, priority_fee, self.basefee, self.eip1559)),
                self.basefee,
                gas_used,
                is_deposit,
                l1_cost,
            ));
        }
        rewards
    }

    /// Builds the full write set of a successful execution: the writes of the
    /// changed accounts, then the rewards of the fee recipients.
    pub fn write_set(
        &self,
        db: &VmDb,
        changes: &Vec<AccountChange>,
        tx_value: U256,
        gas_price: U256,
        priority_fee: Option<U256>,
        gas_used: U256,
        is_deposit: bool,
        l1_cost: U256,
    ) -> (r: Result<(Vec<(MemoryLocationHash, MemoryValue)>, Vec<(Address, B256)>), VmExecutionError>)
        ensures
            ({
                let rewards = rewards_spec(
                    self.reward_policy,
                    self.beneficiary_location_hash,
                    word(reward_gas_price_spec(gas_price, priority_fee, self.basefee, self.eip1559)),
                    self.basefee,
                    gas_used,
                    is_deposit,
                    l1_cost,
                );
                match rewards_applied(write_set_of(*db, changes@, tx_value, self.eip161), rewards) {
                    Some(ws) => r matches Ok((w, codes)) && w@ == ws && codes@ == new_codes_of(*db, changes@),
                    None => r == Err::<(Vec<(MemoryLocationHash, MemoryValue)>, Vec<(Address, B256)>), VmExecutionError>(
                        VmExecutionError::ExecutionError(EvmFailure::Database(ReadError::InvalidMemoryValueType)),
                    ),
                }
            }),
    {
        let (mut write_set, new_codes) = db.build_write_set(changes, tx_value, self.eip161);
        let rewards = self.rewards(gas_price, priority_fee, gas_used, is_deposit, l1_cost);
        match apply_rewards(&mut write_set, &rewards) {
            Ok(()) => Ok((write_set, new_codes)),
            Err(e) => Err(VmExecutionError::from(e)),
        }
    }

    /// Finishes a successful execution: registers the addresses of a lazy one,
    /// records its read and write sets, and returns the flags for the scheduler.
    pub fn finish(
        &self,
        mv: &mut MvMemory,
        db: VmDb,
        tx_version: TxVersion,
        write_set: Vec<(MemoryLocationHash, MemoryValue)>,
    ) -> (r: FinishExecFlags)
        requires
            old(mv).wf(),
            tx_version.tx_idx < old(mv).size(),
        ensures
            final(mv).wf(),
            final(mv).size() == old(mv).size(),
            ({
                let lazy_addresses = match (db.is_lazy, db.to) {
                    (true, Some(to)) => seq![db.caller, to],
                    _ => Seq::empty(),
                };
                let (entries, dense, lazy) = lazy_steps(
                    (old(mv).entries(), old(mv).dense_locations(), old(mv).lazy()),
                    lazy_addresses,
                );
                &&& final(mv).entries() == recorded_entries(
                    entries,
                    tx_version,
                    old(mv).writes_of(tx_version.tx_idx as int),
                    write_set@,
                )
                &&& final(mv).dense_locations() == dense
                &&& final(mv).lazy() == lazy
            }),
            final(mv).reads_of(tx_version.tx_idx as int) == read_set_contents(db.read_set),
            final(mv).writes_of(tx_version.tx_idx as int).to_set() == written_locations(write_set@),
            forall|t: int|
                0 <= t < old(mv).size() && t != tx_version.tx_idx ==> #[trigger] final(mv).reads_of(t)
                    == old(mv).reads_of(t),
            forall|t: int|
                0 <= t < old(mv).size() && t != tx_version.tx_idx ==> #[trigger] final(mv).writes_of(t)
                    == old(mv).writes_of(t),
            r.bits == finish_flags_spec(
                tx_version.tx_idx,
                db.is_lazy,
                exists|l: MemoryLocationHash| #[trigger] written_locations(write_set@).contains(l)
                    && !old(mv).writes_of(tx_version.tx_idx as int).contains(l),
            ),
    {
        let is_lazy = db.is_lazy;
        let mut lazy_addresses: Vec<Address> = Vec::new();
        if is_lazy {
            if let Some(to) = db.to {
                lazy_addresses.push(db.caller);
                lazy_addresses.push(to);
            }
        }
        proof {
            let expected = match (db.is_lazy, db.to) {
                (true, Some(to)) => seq![db.caller, to],
                _ => Seq::empty(),
            };
            assert(lazy_addresses@ =~= expected);
        }
        mv.add_lazy_addresses(lazy_addresses);
        let mut flags = if tx_version.tx_idx > 0 && !is_lazy {
            FinishExecFlags::need_validation()
        } else {
            FinishExecFlags::empty()
        };
        let wrote_new = mv.record(&tx_version, db.read_set, write_set);
        if wrote_new {
            flags = flags.union(FinishExecFlags::wrote_new_location());
        }
        flags
    }
}

/// The status of an account after a transaction, as the EVM reports it.
#[derive(Clone, Copy, PartialEq, Eq, Structural, Debug)]
pub struct AccountStatus {
    pub touched: bool,
    pub selfdestructed: bool,
    /// No code, a zero balance and a zero nonce.
    pub empty: bool,
}

/// Whether an account stays in the state after a transaction: a self-destructed
/// account is removed, and so is an empty one after Spurious Dragon.
pub open spec fn account_kept(status: AccountStatus, eip161: bool) -> bool {
    !(status.selfdestructed || (status.empty && eip161))
}

/// The state transitions of a transaction: the position of each touched account
/// in turn, with whether it stays (`false` when it is removed).
pub open spec fn transitions_of(statuses: Seq<AccountStatus>, eip161: bool) -> Seq<(usize, bool)>
    decreases statuses.len(),
{
    if statuses.len() == 0 {
        Seq::empty()
    } else {
        let rest = transitions_of(statuses.drop_last(), eip161);
        if statuses.last().touched {
            rest.push(((statuses.len() - 1) as usize, account_kept(statuses.last(), eip161)))
        } else {
            rest
        }
    }
}

/// The state transitions of a transaction from the status of each account it
/// loaded: untouched accounts are left out.
pub fn state_transitions(statuses: &Vec<AccountStatus>, eip161: bool) -> (r: Vec<(usize, bool)>)
    ensures
        r@ == transitions_of(statuses@, eip161),
{
    let mut r: Vec<(usize, bool)> = Vec::new();
    let mut i: usize = 0;
    while i < statuses.len()
        invariant
            i <= statuses@.len(),
            r@ == transitions_of(statuses@.take(i as int), eip161),
        decreases statuses@.len() - i,
    {
        let status = statuses[i];
        proof {
            assert(statuses@.take(i + 1).drop_last() =~= statuses@.take(i as int));
        }
        if status.touched {
            r.push((i, !(status.selfdestructed || (status.empty && eip161))));
        }
        i = i + 1;
    }
    proof {
        assert(statuses@.take(statuses@.len() as int) =~= statuses@);
    }
    r
}

} // verus!
