//! The journal of an execution: the accounts, storage slots and transient
//! storage it loaded and changed, with an entry for every change so that a
//! failed call frame can be reverted to its checkpoint.
use vstd::prelude::*;

use crate::chain::SpecId;
use crate::warm_addresses::WarmAddresses;
use crate::primitives::{
    lemma_value_nonneg_parts, u256_lt, u256_max, lemma_word, u256_checked_add, u256_checked_sub, u256_wrapping_add, u256_wrapping_sub, word,
    wrapping_add_spec, wrapping_sub_spec, Address, B256, U256,
};

verus! {

// ---------------------------------------------------------------------------
// Maps held as vectors of pairs, each key at most once.
// ---------------------------------------------------------------------------

/// The map of a sequence of pairs; a later pair overrides an earlier one.
pub open spec fn pairs_map<K, V>(s: Seq<(K, V)>) -> Map<K, V>
    decreases s.len(),
{
    if s.len() == 0 {
        Map::empty()
    } else {
        pairs_map(s.drop_last()).insert(s.last().0, s.last().1)
    }
}

/// No key occurs twice.
pub open spec fn unique_keys<K, V>(s: Seq<(K, V)>) -> bool {
    forall|i: int, j: int| 0 <= i < j < s.len() ==> s[i].0 != s[j].0
}

/// The keys of the map are those of the pairs.
pub proof fn lemma_pairs_map_keys<K, V>(s: Seq<(K, V)>, k: K)
    ensures
        pairs_map(s).contains_key(k) <==> exists|i: int| 0 <= i < s.len() && #[trigger] s[i].0 == k,
    decreases s.len(),
{
    if s.len() > 0 {
        lemma_pairs_map_keys(s.drop_last(), k);
        if pairs_map(s).contains_key(k) && k != s.last().0 {
            let i = choose|i: int| 0 <= i < s.drop_last().len() && #[trigger] s.drop_last()[i].0 == k;
            assert(s[i].0 == k);
        }
        if exists|i: int| 0 <= i < s.len() && #[trigger] s[i].0 == k {
            let i = choose|i: int| 0 <= i < s.len() && #[trigger] s[i].0 == k;
            if i < s.len() - 1 {
                assert(s.drop_last()[i].0 == k);
            }
        }
    }
}

/// With unique keys, the map holds the value of each pair.
pub proof fn lemma_pairs_map_value<K, V>(s: Seq<(K, V)>, i: int)
    requires
        unique_keys(s),
        0 <= i < s.len(),
    ensures
        pairs_map(s).contains_key(s[i].0),
        pairs_map(s)[s[i].0] == s[i].1,
    decreases s.len(),
{
    if i < s.len() - 1 {
        lemma_pairs_map_value(s.drop_last(), i);
    }
}

/// With unique keys, changing the value of a pair changes the map at its key.
pub proof fn lemma_pairs_map_update<K, V>(s: Seq<(K, V)>, i: int, v: V)
    requires
        unique_keys(s),
        0 <= i < s.len(),
    ensures
        unique_keys(s.update(i, (s[i].0, v))),
        pairs_map(s.update(i, (s[i].0, v))) == pairs_map(s).insert(s[i].0, v),
    decreases s.len(),
{
    let t = s.update(i, (s[i].0, v));
    if i < s.len() - 1 {
        lemma_pairs_map_update(s.drop_last(), i, v);
        assert(t.drop_last() =~= s.drop_last().update(i, (s[i].0, v)));
        assert(pairs_map(t) =~= pairs_map(s).insert(s[i].0, v));
    } else {
        assert(t.drop_last() =~= s.drop_last());
        assert(pairs_map(t) =~= pairs_map(s).insert(s[i].0, v));
    }
}

/// Adding a pair with a new key adds the key to the map.
pub proof fn lemma_pairs_map_push<K, V>(s: Seq<(K, V)>, k: K, v: V)
    requires
        unique_keys(s),
        !pairs_map(s).contains_key(k),
    ensures
        unique_keys(s.push((k, v))),
        pairs_map(s.push((k, v))) == pairs_map(s).insert(k, v),
{
    assert(s.push((k, v)).drop_last() =~= s);
    assert forall|i: int, j: int| 0 <= i < j < s.push((k, v)).len() implies s.push((k, v))[i].0 != s.push((k, v))[j].0 by {
        if j == s.len() {
            lemma_pairs_map_keys(s, k);
            assert(s[i].0 == s.push((k, v))[i].0);
        }
    }
}

/// With unique keys, removing a pair removes its key from the map.
pub proof fn lemma_pairs_map_remove<K, V>(s: Seq<(K, V)>, i: int)
    requires
        unique_keys(s),
        0 <= i < s.len(),
    ensures
        unique_keys(s.remove(i)),
        pairs_map(s.remove(i)) == pairs_map(s).remove(s[i].0),
    decreases s.len(),
{
    let t = s.remove(i);
    if i == s.len() - 1 {
        assert(t =~= s.drop_last());
        lemma_pairs_map_keys(s.drop_last(), s[i].0);
        assert(pairs_map(t) =~= pairs_map(s).remove(s[i].0));
    } else {
        lemma_pairs_map_remove(s.drop_last(), i);
        assert(t.drop_last() =~= s.drop_last().remove(i));
        assert(t.last() == s.last());
        assert(pairs_map(t) =~= pairs_map(s).remove(s[i].0));
    }
}

// ---------------------------------------------------------------------------
// Accounts, slots and journal entries.
// ---------------------------------------------------------------------------

/// The keccak hash of empty code.
pub open spec fn keccak_empty() -> B256 {
    B256 { w0: 0xc5d2460186f7233c, w1: 0x927e7db2dcc703c0, w2: 0xe500b653ca82273b, w3: 0x7bfad8045d85a470 }
}

/// The keccak hash of empty code.
pub fn keccak_empty_hash() -> (r: B256)
    ensures
        r == keccak_empty(),
{
    B256 { w0: 0xc5d2460186f7233c, w1: 0x927e7db2dcc703c0, w2: 0xe500b653ca82273b, w3: 0x7bfad8045d85a470 }
}

/// The zero word.
pub open spec fn zero_word() -> U256 {
    U256 { l0: 0, l1: 0, l2: 0, l3: 0 }
}

/// The RIPEMD-160 precompile, whose touch survives reverts after Spurious Dragon.
pub open spec fn precompile3() -> Address {
    Address { w0: 0, w1: 0, w2: 3 }
}

/// A loaded account: its values and status flags.
#[derive(Clone, Copy, PartialEq, Eq, Structural, Debug)]
pub struct JournaledAccountState {
    pub balance: U256,
    pub nonce: u64,
    pub code_hash: B256,
    pub touched: bool,
    pub cold: bool,
    pub created: bool,
    pub created_locally: bool,
    pub selfdestructed: bool,
    pub selfdestructed_locally: bool,
    pub loaded_as_not_existing: bool,
}

/// A loaded storage slot.
#[derive(Clone, Copy, PartialEq, Eq, Structural, Debug)]
pub struct StorageSlotState {
    pub original_value: U256,
    pub present_value: U256,
    pub is_cold: bool,
}

/// Status of selfdestruction revert.
#[derive(Clone, Copy, PartialEq, Eq, Structural, Debug)]
pub enum SelfdestructionRevertStatus {
    GloballySelfdestroyed,
    LocallySelfdestroyed,
    RepeatedSelfdestruction,
}

/// Journal entries tracking state changes for checkpoint revert.
#[derive(Clone, Copy, PartialEq, Eq, Structural, Debug)]
pub enum JournalEntry {
    AccountWarmed { address: Address },
    AccountDestroyed {
        had_balance: U256,
        address: Address,
        target: Address,
        destroyed_status: SelfdestructionRevertStatus,
    },
    AccountTouched { address: Address },
    BalanceChange { old_balance: U256, address: Address },
    BalanceTransfer { balance: U256, from: Address, to: Address },
    NonceChange { address: Address, previous_nonce: u64 },
    NonceBump { address: Address },
    AccountCreated { address: Address, is_created_globally: bool },
    StorageChanged { key: U256, had_value: U256, address: Address },
    StorageWarmed { key: U256, address: Address },
    TransientStorageChange { key: U256, had_value: U256, address: Address },
    CodeChange { address: Address },
}

/// What the journal holds, as maps.
pub struct JournalView {
    pub accounts: Map<Address, JournaledAccountState>,
    pub slots: Map<(Address, U256), StorageSlotState>,
    pub transient: Map<(Address, U256), U256>,
}


/// The view with `address` holding `account`.
pub open spec fn with_account(v: JournalView, address: Address, account: JournaledAccountState) -> JournalView {
    JournalView { accounts: v.accounts.insert(address, account), ..v }
}

/// The view with the balance of a loaded `address` changed by `f`.
pub open spec fn with_balance(v: JournalView, address: Address, balance: U256) -> JournalView {
    with_account(v, address, JournaledAccountState { balance, ..v.accounts[address] })
}

/// Whether the accounts and slots that reverting `e` changes are loaded.
pub open spec fn entry_present(v: JournalView, e: JournalEntry, sd: bool) -> bool {
    match e {
        JournalEntry::AccountWarmed { address } => v.accounts.contains_key(address),
        JournalEntry::AccountTouched { address } => (sd && address == precompile3()) || v.accounts.contains_key(address),
        JournalEntry::AccountDestroyed { address, target, .. } => v.accounts.contains_key(address) && (address
            != target ==> v.accounts.contains_key(target)),
        JournalEntry::BalanceChange { address, .. } => v.accounts.contains_key(address),
        JournalEntry::BalanceTransfer { from, to, .. } => v.accounts.contains_key(from) && v.accounts.contains_key(to),
        JournalEntry::NonceChange { address, .. } => v.accounts.contains_key(address),
        JournalEntry::NonceBump { address } => v.accounts.contains_key(address),
        JournalEntry::AccountCreated { address, .. } => v.accounts.contains_key(address),
        JournalEntry::StorageWarmed { address, key } => v.accounts.contains_key(address) && v.slots.contains_key(
            (address, key),
        ),
        JournalEntry::StorageChanged { address, key, .. } => v.accounts.contains_key(address) && v.slots.contains_key(
            (address, key),
        ),
        JournalEntry::TransientStorageChange { .. } => true,
        JournalEntry::CodeChange { address } => v.accounts.contains_key(address),
    }
}

/// Undoes the change that `e` records. `sd` tells whether Spurious Dragon is
/// active, after which the touch of the RIPEMD-160 precompile is never undone.
#[verifier::opaque]
pub open spec fn revert_entry(v: JournalView, e: JournalEntry, sd: bool) -> JournalView {
    match e {
        JournalEntry::AccountWarmed { address } => with_account(
            v,
            address,
            JournaledAccountState { cold: true, ..v.accounts[address] },
        ),
        JournalEntry::AccountTouched { address } => if sd && address == precompile3() {
            v
        } else {
            with_account(v, address, JournaledAccountState { touched: false, ..v.accounts[address] })
        },
        JournalEntry::AccountDestroyed { had_balance, address, target, destroyed_status } => {
            let account = v.accounts[address];
            let flagged = match destroyed_status {
                SelfdestructionRevertStatus::GloballySelfdestroyed => JournaledAccountState {
                    selfdestructed: false,
                    selfdestructed_locally: false,
                    ..account
                },
                SelfdestructionRevertStatus::LocallySelfdestroyed => JournaledAccountState {
                    selfdestructed_locally: false,
                    ..account
                },
                SelfdestructionRevertStatus::RepeatedSelfdestruction => account,
            };
            let v1 = with_account(
                v,
                address,
                JournaledAccountState {
                    balance: word(wrapping_add_spec(account.balance.value(), had_balance.value())),
                    ..flagged
                },
            );
            if address != target {
                with_balance(v1, target, word(wrapping_sub_spec(v1.accounts[target].balance.value(), had_balance.value())))
            } else {
                v1
            }
        },
        JournalEntry::BalanceChange { old_balance, address } => with_balance(v, address, old_balance),
        JournalEntry::BalanceTransfer { balance, from, to } => {
            let v1 = with_balance(v, from, word(wrapping_add_spec(v.accounts[from].balance.value(), balance.value())));
            with_balance(v1, to, word(wrapping_sub_spec(v1.accounts[to].balance.value(), balance.value())))
        },
        JournalEntry::NonceChange { address, previous_nonce } => with_account(
            v,
            address,
            JournaledAccountState { nonce: previous_nonce, ..v.accounts[address] },
        ),
        JournalEntry::NonceBump { address } => with_account(
            v,
            address,
            JournaledAccountState {
                nonce: if v.accounts[address].nonce > 0 {
                    (v.accounts[address].nonce - 1) as u64
                } else {
                    0
                },
                ..v.accounts[address]
            },
        ),
        JournalEntry::AccountCreated { address, is_created_globally } => with_account(
            v,
            address,
            JournaledAccountState {
                created_locally: false,
                created: if is_created_globally {
                    false
                } else {
                    v.accounts[address].created
                },
                nonce: 0,
                ..v.accounts[address]
            },
        ),
        JournalEntry::StorageWarmed { key, address } => JournalView {
            slots: v.slots.insert((address, key), StorageSlotState { is_cold: true, ..v.slots[(address, key)] }),
            ..v
        },
        JournalEntry::StorageChanged { key, had_value, address } => JournalView {
            slots: v.slots.insert((address, key), StorageSlotState { present_value: had_value, ..v.slots[(address, key)] }),
            ..v
        },
        JournalEntry::TransientStorageChange { key, had_value, address } => JournalView {
            transient: if had_value.value() == 0 {
                v.transient.remove((address, key))
            } else {
                v.transient.insert((address, key), had_value)
            },
            ..v
        },
        JournalEntry::CodeChange { address } => with_account(
            v,
            address,
            JournaledAccountState { code_hash: keccak_empty(), ..v.accounts[address] },
        ),
    }
}

/// Undoes the changes that `entries` record, the last one first.
pub open spec fn revert_entries(v: JournalView, entries: Seq<JournalEntry>, sd: bool) -> JournalView
    decreases entries.len(),
{
    if entries.len() == 0 {
        v
    } else {
        revert_entries(revert_entry(v, entries.last(), sd), entries.drop_last(), sd)
    }
}

/// The transient storage after storing `value` at a key: a zero removes the key.
pub open spec fn transient_after_tstore(
    transient: Map<(Address, U256), U256>,
    address: Address,
    key: U256,
    value: U256,
) -> Map<(Address, U256), U256> {
    if value.value() == 0 {
        transient.remove((address, key))
    } else {
        transient.insert((address, key), value)
    }
}

/// What a transient load reads: the stored value, zero for a key not stored.
pub open spec fn tload_result(transient: Map<(Address, U256), U256>, address: Address, key: U256) -> U256 {
    if transient.contains_key((address, key)) {
        transient[(address, key)]
    } else {
        word(0)
    }
}

/// The loaded slots after a storage write that was not skipped: the slot holds
/// the new present value and is warm.
pub open spec fn slots_after_sstore(
    slots: Map<(Address, U256), StorageSlotState>,
    address: Address,
    key: U256,
    new: U256,
) -> Map<(Address, U256), StorageSlotState> {
    slots.insert((address, key), StorageSlotState { present_value: new, is_cold: false, ..slots[(address, key)] })
}

/// What a read of a loaded slot that is not skipped returns: its present value,
/// and whether it was cold (not warm and not in the access list).
pub open spec fn sload_result(
    slots: Map<(Address, U256), StorageSlotState>,
    address: Address,
    key: U256,
    in_access_list: bool,
) -> (U256, bool) {
    (slots[(address, key)].present_value, slots[(address, key)].is_cold && !in_access_list)
}

/// A transient load gives back what the last transient store at the same key
/// stored, and a store leaves the other keys as they were.
pub proof fn lemma_tload_after_tstore(
    transient: Map<(Address, U256), U256>,
    address: Address,
    key: U256,
    value: U256,
    other: (Address, U256),
)
    ensures
        tload_result(transient_after_tstore(transient, address, key, value), address, key) == value,
        other != (address, key) ==> tload_result(transient_after_tstore(transient, address, key, value), other.0, other.1)
            == tload_result(transient, other.0, other.1),
{
    if value.value() == 0 {
        lemma_value_zero_unique(value);
    }
}

/// A storage read after a write to the same slot gives back the written value,
/// warm; the write leaves every other loaded slot as it was.
pub proof fn lemma_sload_after_sstore(
    slots: Map<(Address, U256), StorageSlotState>,
    address: Address,
    key: U256,
    new: U256,
    in_access_list: bool,
    other: (Address, U256),
)
    requires
        slots.contains_key((address, key)),
    ensures
        sload_result(slots_after_sstore(slots, address, key, new), address, key, in_access_list) == (new, false),
        other != (address, key) && slots.contains_key(other) ==> slots_after_sstore(slots, address, key, new)[other]
            == slots[other],
{
}

/// A log emitted by an execution.
#[derive(Clone, Debug, PartialEq, Eq)]
pub struct Log {
    pub address: Address,
    pub topics: Vec<B256>,
    pub data: Vec<u8>,
}

/// Where to revert to: the number of logs and of journal entries at a checkpoint.
#[derive(Clone, Copy, PartialEq, Eq, Structural, Debug)]
pub struct JournalCheckpoint {
    pub log_i: usize,
    pub journal_i: usize,
}

/// The journal of the state loaded and changed by an execution.
pub struct Journal {
    pub accounts: Vec<(Address, JournaledAccountState)>,
    pub slots: Vec<((Address, U256), StorageSlotState)>,
    /// EIP-1153 transient storage, cleared after every transaction; it never
    /// holds a zero.
    pub transient: Vec<((Address, U256), U256)>,
    pub logs: Vec<Log>,
    pub depth: usize,
    pub journal: Vec<JournalEntry>,
    pub spec: SpecId,
    /// The precompiles, the beneficiary and the access list of the transaction.
    pub warm_addresses: WarmAddresses,
}

impl Journal {
    /// The maps the journal holds.
    pub open spec fn view(&self) -> JournalView {
        JournalView {
            accounts: pairs_map(self.accounts@),
            slots: pairs_map(self.slots@),
            transient: pairs_map(self.transient@),
        }
    }

    /// Each address, slot and transient key occurs once; no transient value is zero.
    pub open spec fn wf(&self) -> bool {
        &&& unique_keys(self.accounts@)
        &&& unique_keys(self.slots@)
        &&& unique_keys(self.transient@)
        &&& forall|i: int| 0 <= i < self.transient@.len() ==> (#[trigger] self.transient@[i]).1.value() != 0
    }

    /// Whether Spurious Dragon is active.
    pub open spec fn sd(&self) -> bool {
        self.spec.rank() >= SpecId::SPURIOUS_DRAGON.rank()
    }

    /// An empty journal.
    pub fn new(spec: SpecId) -> (r: Journal)
        ensures
            r.wf(),
            r.view().accounts == Map::<Address, JournaledAccountState>::empty(),
            r.view().slots == Map::<(Address, U256), StorageSlotState>::empty(),
            r.view().transient == Map::<(Address, U256), U256>::empty(),
            r.journal@ == Seq::<JournalEntry>::empty(),
            r.depth == 0,
            r.spec == spec,
            r.warm_addresses.coinbase == None::<Address>,
            r.warm_addresses.access_list@.len() == 0,
            r.warm_addresses.precompiles@.len() == 0,
    {
        Journal {
            accounts: Vec::new(),
            slots: Vec::new(),
            transient: Vec::new(),
            logs: Vec::new(),
            depth: 0,
            journal: Vec::new(),
            spec,
            warm_addresses: WarmAddresses::new(),
        }
    }

    /// Makes the accounts of an access list and their slots warm.
    pub fn warm_access_list(&mut self, access_list: Vec<(Address, Vec<U256>)>)
        ensures
            final(self).warm_addresses.access_list@ == access_list@,
            final(self).warm_addresses.coinbase == old(self).warm_addresses.coinbase,
            final(self).warm_addresses.precompiles@ == old(self).warm_addresses.precompiles@,
            final(self).accounts == old(self).accounts,
            final(self).slots == old(self).slots,
            final(self).transient == old(self).transient,
            final(self).journal == old(self).journal,
            final(self).logs == old(self).logs,
            final(self).depth == old(self).depth,
            final(self).spec == old(self).spec,
    {
        self.warm_addresses.set_access_list(access_list);
    }

    /// Makes the beneficiary of the block warm.
    pub fn warm_coinbase_account(&mut self, address: Address)
        ensures
            final(self).warm_addresses.coinbase == Some(address),
            final(self).warm_addresses.access_list@ == old(self).warm_addresses.access_list@,
            final(self).warm_addresses.precompiles@ == old(self).warm_addresses.precompiles@,
            final(self).accounts == old(self).accounts,
            final(self).slots == old(self).slots,
            final(self).transient == old(self).transient,
            final(self).journal == old(self).journal,
            final(self).logs == old(self).logs,
            final(self).depth == old(self).depth,
            final(self).spec == old(self).spec,
    {
        self.warm_addresses.set_coinbase(address);
    }

    /// Makes the precompiles warm.
    pub fn warm_precompiles(&mut self, addresses: Vec<Address>)
        ensures
            final(self).warm_addresses.precompiles@ == addresses@,
            final(self).warm_addresses.coinbase == old(self).warm_addresses.coinbase,
            final(self).warm_addresses.access_list@ == old(self).warm_addresses.access_list@,
            final(self).accounts == old(self).accounts,
            final(self).slots == old(self).slots,
            final(self).transient == old(self).transient,
            final(self).journal == old(self).journal,
            final(self).logs == old(self).logs,
            final(self).depth == old(self).depth,
            final(self).spec == old(self).spec,
    {
        self.warm_addresses.set_precompile_addresses(addresses);
    }

    /// The precompiles.
    pub fn precompile_addresses(&self) -> (r: &Vec<Address>)
        ensures
            r@ == self.warm_addresses.precompiles@,
    {
        &self.warm_addresses.precompiles
    }

    /// Whether loading `address` is cold: `Ok(true)` when it is not warm,
    /// refused when it is cold and the caller asks not to load cold accounts.
    pub fn check_is_cold(&self, address: Address, skip_cold_load: bool) -> (r: Result<bool, JournalLoadError>)
        ensures
            r == if !self.warm_addresses.warm(address) && skip_cold_load {
                Err(JournalLoadError::ColdLoadSkipped)
            } else {
                Ok::<bool, JournalLoadError>(!self.warm_addresses.warm(address))
            },
    {
        let is_cold = self.warm_addresses.is_cold(address);
        if is_cold && skip_cold_load {
            return Err(JournalLoadError::ColdLoadSkipped);
        }
        Ok(is_cold)
    }

    /// The position of `address` among the loaded accounts.
    pub fn find_account(&self, address: Address) -> (r: Option<usize>)
        requires
            self.wf(),
        ensures
            match r {
                Some(i) => i < self.accounts@.len() && self.accounts@[i as int].0 == address
                    && self.view().accounts.contains_key(address) && self.view().accounts[address]
                    == self.accounts@[i as int].1,
                None => !self.view().accounts.contains_key(address),
            },
    {
        let mut i: usize = 0;
        while i < self.accounts.len()
            invariant
                self.wf(),
                i <= self.accounts@.len(),
                forall|j: int| 0 <= j < i ==> self.accounts@[j].0 != address,
            decreases self.accounts@.len() - i,
        {
            if self.accounts[i].0 == address {
                proof {
                    lemma_pairs_map_value(self.accounts@, i as int);
                }
                return Some(i);
            }
            i = i + 1;
        }
        proof {
            lemma_pairs_map_keys(self.accounts@, address);
        }
        None
    }

    /// The position of a slot among the loaded slots.
    pub fn find_slot(&self, address: Address, key: U256) -> (r: Option<usize>)
        requires
            self.wf(),
        ensures
            match r {
                Some(i) => i < self.slots@.len() && self.slots@[i as int].0 == (address, key)
                    && self.view().slots.contains_key((address, key)) && self.view().slots[(address, key)]
                    == self.slots@[i as int].1,
                None => !self.view().slots.contains_key((address, key)),
            },
    {
        let mut i: usize = 0;
        while i < self.slots.len()
            invariant
                self.wf(),
                i <= self.slots@.len(),
                forall|j: int| 0 <= j < i ==> self.slots@[j].0 != (address, key),
            decreases self.slots@.len() - i,
        {
            if self.slots[i].0.0 == address && self.slots[i].0.1 == key {
                proof {
                    lemma_pairs_map_value(self.slots@, i as int);
                }
                return Some(i);
            }
            i = i + 1;
        }
        proof {
            lemma_pairs_map_keys(self.slots@, (address, key));
        }
        None
    }

    /// The position of a transient key.
    pub fn find_transient(&self, address: Address, key: U256) -> (r: Option<usize>)
        requires
            self.wf(),
        ensures
            match r {
                Some(i) => i < self.transient@.len() && self.transient@[i as int].0 == (address, key)
                    && self.view().transient.contains_key((address, key)) && self.view().transient[(address, key)]
                    == self.transient@[i as int].1,
                None => !self.view().transient.contains_key((address, key)),
            },
    {
        let mut i: usize = 0;
        while i < self.transient.len()
            invariant
                self.wf(),
                i <= self.transient@.len(),
                forall|j: int| 0 <= j < i ==> self.transient@[j].0 != (address, key),
            decreases self.transient@.len() - i,
        {
            if self.transient[i].0.0 == address && self.transient[i].0.1 == key {
                proof {
                    lemma_pairs_map_value(self.transient@, i as int);
                }
                return Some(i);
            }
            i = i + 1;
        }
        proof {
            lemma_pairs_map_keys(self.transient@, (address, key));
        }
        None
    }

    /// Replaces the loaded account at position `i`.
    fn put_account(&mut self, i: usize, account: JournaledAccountState)
        requires
            old(self).wf(),
            i < old(self).accounts@.len(),
        ensures
            final(self).wf(),
            final(self).view() == with_account(old(self).view(), old(self).accounts@[i as int].0, account),
            final(self).accounts@.len() == old(self).accounts@.len(),
            final(self).accounts@[i as int].0 == old(self).accounts@[i as int].0,
            final(self).journal == old(self).journal,
            final(self).logs == old(self).logs,
            final(self).depth == old(self).depth,
            final(self).spec == old(self).spec,
    {
        let address = self.accounts[i].0;
        proof {
            lemma_pairs_map_update(self.accounts@, i as int, account);
        }
        self.accounts.set(i, (address, account));
        proof {
            assert(self.view() =~= with_account(old(self).view(), address, account));
        }
    }

    /// Replaces the loaded slot at position `i`.
    fn put_slot(&mut self, i: usize, slot: StorageSlotState)
        requires
            old(self).wf(),
            i < old(self).slots@.len(),
        ensures
            final(self).wf(),
            final(self).view() == (JournalView {
                slots: old(self).view().slots.insert(old(self).slots@[i as int].0, slot),
                ..old(self).view()
            }),
            final(self).slots@.len() == old(self).slots@.len(),
            final(self).accounts == old(self).accounts,
            final(self).journal == old(self).journal,
            final(self).logs == old(self).logs,
            final(self).depth == old(self).depth,
            final(self).spec == old(self).spec,
    {
        let key = self.slots[i].0;
        proof {
            lemma_pairs_map_update(self.slots@, i as int, slot);
        }
        self.slots.set(i, (key, slot));
    }

    /// Sets a transient value: a zero removes the key.
    fn put_transient(&mut self, address: Address, key: U256, value: U256)
        requires
            old(self).wf(),
        ensures
            final(self).wf(),
            final(self).view() == (JournalView {
                transient: transient_after_tstore(old(self).view().transient, address, key, value),
                ..old(self).view()
            }),
            final(self).accounts == old(self).accounts,
            final(self).slots == old(self).slots,
            final(self).journal == old(self).journal,
            final(self).logs == old(self).logs,
            final(self).depth == old(self).depth,
            final(self).spec == old(self).spec,
    {
        let found = self.find_transient(address, key);
        let zero = value.is_zero();
        match found {
            Some(i) => {
                if zero {
                    proof {
                        lemma_pairs_map_remove(self.transient@, i as int);
                    }
                    self.transient.remove(i);
                    proof {
                        assert forall|j: int| 0 <= j < self.transient@.len() implies (#[trigger] self.transient@[j]).1.value() != 0 by {
                            if j < i {
                                assert(self.transient@[j] == old(self).transient@[j]);
                            } else {
                                assert(self.transient@[j] == old(self).transient@[j + 1]);
                            }
                        }
                    }
                } else {
                    proof {
                        lemma_pairs_map_update(self.transient@, i as int, value);
                    }
                    self.transient.set(i, ((address, key), value));
                }
            },
            None => {
                if !zero {
                    proof {
                        lemma_pairs_map_push(self.transient@, (address, key), value);
                    }
                    self.transient.push(((address, key), value));
                } else {
                    proof {
                        assert(old(self).view().transient.remove((address, key)) =~= old(self).view().transient);
                    }
                }
            },
        }
        proof {
            assert(self.view().accounts == old(self).view().accounts);
        }
    }
}

/// Reverting `a + b` reverts `b` first, then `a`.
pub proof fn lemma_revert_entries_append(v: JournalView, a: Seq<JournalEntry>, b: Seq<JournalEntry>, sd: bool)
    ensures
        revert_entries(v, a + b, sd) == revert_entries(revert_entries(v, b, sd), a, sd),
    decreases b.len(),
{
    if b.len() == 0 {
        assert(a + b =~= a);
    } else {
        assert((a + b).last() == b.last());
        assert((a + b).drop_last() =~= a + b.drop_last());
        lemma_revert_entries_append(revert_entry(v, b.last(), sd), a, b.drop_last(), sd);
    }
}

impl Journal {
    /// Undoes the change that one journal entry records.
    pub fn revert_entry(&mut self, entry: JournalEntry)
        requires
            old(self).wf(),
            entry_present(old(self).view(), entry, old(self).sd()),
        ensures
            final(self).wf(),
            final(self).view() == revert_entry(old(self).view(), entry, old(self).sd()),
            final(self).view().accounts.dom() == old(self).view().accounts.dom(),
            final(self).view().slots.dom() == old(self).view().slots.dom(),
            final(self).journal == old(self).journal,
            final(self).logs == old(self).logs,
            final(self).depth == old(self).depth,
            final(self).spec == old(self).spec,
    {
        match entry {
            JournalEntry::AccountDestroyed { .. } => self.revert_destroyed(entry),
            JournalEntry::BalanceTransfer { .. } => self.revert_transfer(entry),
            JournalEntry::StorageWarmed { .. } | JournalEntry::StorageChanged { .. } => self.revert_storage(entry),
            JournalEntry::TransientStorageChange { key, had_value, address } => {
                self.put_transient(address, key, had_value);
                proof {
                    reveal(revert_entry);
                    assert(self.view().accounts =~= old(self).view().accounts);
                    assert(self.view().slots =~= old(self).view().slots);
                }
            },
            _ => self.revert_single(entry),
        }
    }

    fn revert_single(&mut self, entry: JournalEntry)
        requires
            old(self).wf(),
            entry_present(old(self).view(), entry, old(self).sd()),
            !(entry is AccountDestroyed || entry is BalanceTransfer || entry is StorageWarmed || entry is StorageChanged
                || entry is TransientStorageChange),
        ensures
            final(self).wf(),
            final(self).view() == revert_entry(old(self).view(), entry, old(self).sd()),
            final(self).view().accounts.dom() == old(self).view().accounts.dom(),
            final(self).view().slots.dom() == old(self).view().slots.dom(),
            final(self).journal == old(self).journal,
            final(self).logs == old(self).logs,
            final(self).depth == old(self).depth,
            final(self).spec == old(self).spec,
    {
        proof {
            reveal(revert_entry);
        }
        let sd = self.spec.is_enabled_in(SpecId::SPURIOUS_DRAGON);
        let address = match entry {
            JournalEntry::AccountWarmed { address } => address,
            JournalEntry::AccountTouched { address } => address,
            JournalEntry::BalanceChange { address, .. } => address,
            JournalEntry::NonceChange { address, .. } => address,
            JournalEntry::NonceBump { address } => address,
            JournalEntry::AccountCreated { address, .. } => address,
            JournalEntry::CodeChange { address } => address,
            _ => {
                proof {
                    assert(false);
                }
                return;
            },
        };
        if let JournalEntry::AccountTouched { .. } = entry {
            // The touch of the RIPEMD-160 precompile is kept, as in consensus.
            if sd && address == (Address { w0: 0, w1: 0, w2: 3 }) {
                return;
            }
        }
        let i = self.find_account(address).unwrap();
        let mut account = self.accounts[i].1;
        match entry {
            JournalEntry::AccountWarmed { .. } => {
                account.cold = true;
            },
            JournalEntry::AccountTouched { .. } => {
                account.touched = false;
            },
            JournalEntry::BalanceChange { old_balance, .. } => {
                account.balance = old_balance;
            },
            JournalEntry::NonceChange { previous_nonce, .. } => {
                account.nonce = previous_nonce;
            },
            JournalEntry::NonceBump { .. } => {
                account.nonce = account.nonce.saturating_sub(1);
            },
            JournalEntry::AccountCreated { is_created_globally, .. } => {
                account.created_locally = false;
                if is_created_globally {
                    account.created = false;
                }
                account.nonce = 0;
            },
            _ => {
                account.code_hash = keccak_empty_hash();
            },
        }
        self.put_account(i, account);
        proof {
            assert(self.view().accounts.dom() =~= old(self).view().accounts.dom());
        }
    }

    #[verifier::rlimit(80)]
    fn revert_destroyed(&mut self, entry: JournalEntry)
        requires
            old(self).wf(),
            entry_present(old(self).view(), entry, old(self).sd()),
            entry is AccountDestroyed,
        ensures
            final(self).wf(),
            final(self).view() == revert_entry(old(self).view(), entry, old(self).sd()),
            final(self).view().accounts.dom() == old(self).view().accounts.dom(),
            final(self).view().slots.dom() == old(self).view().slots.dom(),
            final(self).journal == old(self).journal,
            final(self).logs == old(self).logs,
            final(self).depth == old(self).depth,
            final(self).spec == old(self).spec,
    {
        proof {
            reveal(revert_entry);
        }
        if let JournalEntry::AccountDestroyed { had_balance, address, target, destroyed_status } = entry {
            let i = self.find_account(address).unwrap();
            let mut account = self.accounts[i].1;
            match destroyed_status {
                SelfdestructionRevertStatus::GloballySelfdestroyed => {
                    account.selfdestructed = false;
                    account.selfdestructed_locally = false;
                },
                SelfdestructionRevertStatus::LocallySelfdestroyed => {
                    account.selfdestructed_locally = false;
                },
                SelfdestructionRevertStatus::RepeatedSelfdestruction => {},
            }
            account.balance = u256_wrapping_add(account.balance, had_balance);
            proof {
                lemma_word(account.balance);
            }
            self.put_account(i, account);
            if address != target {
                let j = self.find_account(target).unwrap();
                let mut target_account = self.accounts[j].1;
                target_account.balance = u256_wrapping_sub(target_account.balance, had_balance);
                proof {
                    lemma_word(target_account.balance);
                }
                self.put_account(j, target_account);
            }
            proof {
                assert(self.view().accounts.dom() =~= old(self).view().accounts.dom());
            }
        }
    }

    fn revert_transfer(&mut self, entry: JournalEntry)
        requires
            old(self).wf(),
            entry_present(old(self).view(), entry, old(self).sd()),
            entry is BalanceTransfer,
        ensures
            final(self).wf(),
            final(self).view() == revert_entry(old(self).view(), entry, old(self).sd()),
            final(self).view().accounts.dom() == old(self).view().accounts.dom(),
            final(self).view().slots.dom() == old(self).view().slots.dom(),
            final(self).journal == old(self).journal,
            final(self).logs == old(self).logs,
            final(self).depth == old(self).depth,
            final(self).spec == old(self).spec,
    {
        proof {
            reveal(revert_entry);
        }
        if let JournalEntry::BalanceTransfer { balance, from, to } = entry {
            let i = self.find_account(from).unwrap();
            let mut from_account = self.accounts[i].1;
            from_account.balance = u256_wrapping_add(from_account.balance, balance);
            proof {
                lemma_word(from_account.balance);
            }
            self.put_account(i, from_account);
            let j = self.find_account(to).unwrap();
            let mut to_account = self.accounts[j].1;
            to_account.balance = u256_wrapping_sub(to_account.balance, balance);
            proof {
                lemma_word(to_account.balance);
            }
            self.put_account(j, to_account);
            proof {
                assert(self.view().accounts.dom() =~= old(self).view().accounts.dom());
            }
        }
    }

    fn revert_storage(&mut self, entry: JournalEntry)
        requires
            old(self).wf(),
            entry_present(old(self).view(), entry, old(self).sd()),
            entry is StorageWarmed || entry is StorageChanged,
        ensures
            final(self).wf(),
            final(self).view() == revert_entry(old(self).view(), entry, old(self).sd()),
            final(self).view().accounts.dom() == old(self).view().accounts.dom(),
            final(self).view().slots.dom() == old(self).view().slots.dom(),
            final(self).journal == old(self).journal,
            final(self).logs == old(self).logs,
            final(self).depth == old(self).depth,
            final(self).spec == old(self).spec,
    {
        proof {
            reveal(revert_entry);
        }
        let (address, key) = match entry {
            JournalEntry::StorageWarmed { key, address } => (address, key),
            JournalEntry::StorageChanged { key, address, .. } => (address, key),
            _ => {
                proof {
                    assert(false);
                }
                return;
            },
        };
        let i = self.find_slot(address, key).unwrap();
        let mut slot = self.slots[i].1;
        match entry {
            JournalEntry::StorageChanged { had_value, .. } => {
                slot.present_value = had_value;
            },
            _ => {
                slot.is_cold = true;
            },
        }
        self.put_slot(i, slot);
        proof {
            assert(self.view().slots.dom() =~= old(self).view().slots.dom());
            assert(self.view() =~= revert_entry(old(self).view(), entry, old(self).sd()));
        }
    }

    /// Marks a checkpoint to revert to: the numbers of logs and journal entries.
    pub fn checkpoint(&mut self) -> (r: JournalCheckpoint)
        requires
            old(self).depth < usize::MAX,
        ensures
            r.log_i == old(self).logs@.len(),
            r.journal_i == old(self).journal@.len(),
            final(self).depth == old(self).depth + 1,
            final(self).view() == old(self).view(),
            final(self).accounts == old(self).accounts,
            final(self).slots == old(self).slots,
            final(self).transient == old(self).transient,
            final(self).journal == old(self).journal,
            final(self).logs == old(self).logs,
            final(self).spec == old(self).spec,
    {
        let checkpoint = JournalCheckpoint { log_i: self.logs.len(), journal_i: self.journal.len() };
        self.depth = self.depth + 1;
        checkpoint
    }

    /// Commits the changes since the last checkpoint: they stay.
    pub fn checkpoint_commit(&mut self)
        ensures
            final(self).depth == if old(self).depth > 0 {
                (old(self).depth - 1) as usize
            } else {
                0
            },
            final(self).accounts == old(self).accounts,
            final(self).slots == old(self).slots,
            final(self).transient == old(self).transient,
            final(self).journal == old(self).journal,
            final(self).logs == old(self).logs,
            final(self).spec == old(self).spec,
    {
        self.depth = self.depth.saturating_sub(1);
    }

    /// Reverts every change journaled since `checkpoint`, the last one first, and
    /// drops the logs emitted since.
    pub fn checkpoint_revert(&mut self, checkpoint: JournalCheckpoint)
        requires
            old(self).wf(),
            forall|i: int|
                checkpoint.journal_i <= i < old(self).journal@.len() ==> entry_present(
                    old(self).view(),
                    #[trigger] old(self).journal@[i],
                    old(self).sd(),
                ),
        ensures
            final(self).wf(),
            final(self).view() == if checkpoint.journal_i < old(self).journal@.len() {
                revert_entries(old(self).view(), old(self).journal@.skip(checkpoint.journal_i as int), old(self).sd())
            } else {
                old(self).view()
            },
            final(self).journal@ == if checkpoint.journal_i < old(self).journal@.len() {
                old(self).journal@.take(checkpoint.journal_i as int)
            } else {
                old(self).journal@
            },
            final(self).logs@ == if checkpoint.log_i < old(self).logs@.len() {
                old(self).logs@.take(checkpoint.log_i as int)
            } else {
                old(self).logs@
            },
            final(self).depth == if old(self).depth > 0 {
                (old(self).depth - 1) as usize
            } else {
                0
            },
            final(self).spec == old(self).spec,
    {
        self.depth = self.depth.saturating_sub(1);
        self.logs.truncate(checkpoint.log_i);
        let ghost entries = old(self).journal@;
        let ghost start = old(self).view();
        let ghost sd = old(self).sd();
        if checkpoint.journal_i < self.journal.len() {
            proof {
                assert(entries.subrange(entries.len() as int, entries.len() as int) =~= Seq::<JournalEntry>::empty());
                assert(entries.take(entries.len() as int) =~= entries);
            }
            while self.journal.len() > checkpoint.journal_i
                invariant
                    self.wf(),
                    self.spec == old(self).spec,
                    sd == self.sd(),
                    checkpoint.journal_i <= self.journal@.len() <= entries.len(),
                    checkpoint.journal_i < entries.len(),
                    self.journal@ == entries.take(self.journal@.len() as int),
                    self.view() == revert_entries(
                        start,
                        entries.subrange(self.journal@.len() as int, entries.len() as int),
                        sd,
                    ),
                    self.view().accounts.dom() == start.accounts.dom(),
                    self.view().slots.dom() == start.slots.dom(),
                    forall|i: int|
                        checkpoint.journal_i <= i < entries.len() ==> entry_present(start, #[trigger] entries[i], sd),
                    self.depth == if old(self).depth > 0 {
                        (old(self).depth - 1) as usize
                    } else {
                        0
                    },
                    self.logs@ == if checkpoint.log_i < old(self).logs@.len() {
                        old(self).logs@.take(checkpoint.log_i as int)
                    } else {
                        old(self).logs@
                    },
                decreases self.journal@.len(),
            {
                let n = self.journal.len();
                let entry = self.journal.pop().unwrap();
                proof {
                    assert(entry == entries[n - 1]);
                    assert(entry_present(start, entry, sd));
                    assert(entry_present(self.view(), entry, sd));
                }
                self.revert_entry(entry);
                proof {
                    let rest = entries.subrange(n as int, entries.len() as int);
                    let one = seq![entry];
                    assert(entries.subrange(n - 1, entries.len() as int) =~= one + rest);
                    lemma_revert_entries_append(start, one, rest, sd);
                    assert(one.drop_last() =~= Seq::<JournalEntry>::empty());
                    reveal_with_fuel(revert_entries, 2);
                    assert(self.journal@ =~= entries.take(n - 1));
                }
            }
            proof {
                assert(entries.subrange(checkpoint.journal_i as int, entries.len() as int) =~= entries.skip(
                    checkpoint.journal_i as int,
                ));
            }
        }
    }
}

// ---------------------------------------------------------------------------
// Reverting restores the journal.
// ---------------------------------------------------------------------------

/// `a` holds every account and slot of `b` and agrees with it on them: on every
/// field of an account, on the values of a slot (not on whether it is warm), and
/// on transient storage.
pub open spec fn agrees(a: JournalView, b: JournalView) -> bool {
    &&& forall|x: Address| #[trigger] b.accounts.contains_key(x) ==> a.accounts.contains_key(x) && a.accounts[x] == b.accounts[x]
    &&& forall|k: (Address, U256)| #[trigger] b.slots.contains_key(k) ==> a.slots.contains_key(k)
        && a.slots[k].present_value == b.slots[k].present_value && a.slots[k].original_value
        == b.slots[k].original_value
    &&& a.transient == b.transient
}

/// Every entry refers to loaded accounts and slots.
pub open spec fn all_present(v: JournalView, entries: Seq<JournalEntry>, sd: bool) -> bool {
    forall|i: int| 0 <= i < entries.len() ==> entry_present(v, #[trigger] entries[i], sd)
}

/// The change from `before` to `after`, which journaled `entries`, is undone by
/// reverting them: the accounts and slots of `before` are still loaded, and
/// reverting gives back what `before` held.
pub open spec fn undoable(before: JournalView, after: JournalView, entries: Seq<JournalEntry>, sd: bool) -> bool {
    &&& forall|x: Address| #[trigger] before.accounts.contains_key(x) ==> after.accounts.contains_key(x)
    &&& forall|k: (Address, U256)| #[trigger] before.slots.contains_key(k) ==> after.slots.contains_key(k)
    &&& all_present(after, entries, sd)
    &&& agrees(revert_entries(after, entries, sd), before)
}

/// Reverting an entry gives back what it recorded: the old balance, nonce,
/// slot value or transient value; the amount of a transfer to its sender and
/// from its recipient; empty code; the cold, untouched or not-created flag. A
/// touch of the RIPEMD-160 precompile after Spurious Dragon is left in place.
pub proof fn lemma_revert_entry_restores(v: JournalView, e: JournalEntry, sd: bool)
    ensures
        ({
            let r = revert_entry(v, e, sd);
            match e {
                JournalEntry::AccountWarmed { address } => r.accounts[address].cold,
                JournalEntry::AccountTouched { address } => if sd && address == precompile3() {
                    r == v
                } else {
                    !r.accounts[address].touched
                },
                JournalEntry::AccountDestroyed { had_balance, address, .. } => r.accounts[address].balance == word(
                    wrapping_add_spec(v.accounts[address].balance.value(), had_balance.value()),
                ),
                JournalEntry::BalanceChange { old_balance, address } => r.accounts[address].balance == old_balance,
                JournalEntry::BalanceTransfer { balance, from, to } => from != to ==> r.accounts[from].balance == word(
                    wrapping_add_spec(v.accounts[from].balance.value(), balance.value()),
                ) && r.accounts[to].balance == word(
                    wrapping_sub_spec(v.accounts[to].balance.value(), balance.value()),
                ),
                JournalEntry::NonceChange { address, previous_nonce } => r.accounts[address].nonce == previous_nonce,
                JournalEntry::NonceBump { address } => r.accounts[address].nonce == (if v.accounts[address].nonce > 0 {
                    (v.accounts[address].nonce - 1) as u64
                } else {
                    0u64
                }),
                JournalEntry::AccountCreated { address, .. } => !r.accounts[address].created_locally
                    && r.accounts[address].nonce == 0,
                JournalEntry::StorageWarmed { key, address } => r.slots[(address, key)].is_cold,
                JournalEntry::StorageChanged { key, had_value, address } => r.slots[(address, key)].present_value
                    == had_value,
                JournalEntry::TransientStorageChange { key, had_value, address } => if had_value.value() == 0 {
                    !r.transient.contains_key((address, key))
                } else {
                    r.transient.contains_key((address, key)) && r.transient[(address, key)] == had_value
                },
                JournalEntry::CodeChange { address } => r.accounts[address].code_hash == keccak_empty(),
            }
        }),
{
    reveal(revert_entry);
}

/// Reverting an entry keeps the loaded accounts and slots.
pub proof fn lemma_revert_entry_keeps_loaded(v: JournalView, e: JournalEntry, sd: bool)
    requires
        entry_present(v, e, sd),
    ensures
        revert_entry(v, e, sd).accounts.dom() == v.accounts.dom(),
        revert_entry(v, e, sd).slots.dom() == v.slots.dom(),
{
    reveal(revert_entry);
    let r = revert_entry(v, e, sd);
    assert(r.accounts.dom() =~= v.accounts.dom());
    assert(r.slots.dom() =~= v.slots.dom());
}

/// Changing one loaded account alike keeps views agreeing.
proof fn lemma_with_account_agree(w: JournalView, v: JournalView, address: Address, account: JournaledAccountState)
    requires
        agrees(w, v),
    ensures
        agrees(with_account(w, address, account), with_account(v, address, account)),
{
    let w1 = with_account(w, address, account);
    let v1 = with_account(v, address, account);
    assert forall|x: Address| #[trigger] v1.accounts.contains_key(x) implies w1.accounts.contains_key(x)
        && w1.accounts[x] == v1.accounts[x] by {
        if x != address {
            assert(v.accounts.contains_key(x));
        }
    }
}

/// Changing one loaded slot alike keeps views agreeing.
proof fn lemma_with_slot_agree(w: JournalView, v: JournalView, k: (Address, U256), present: U256, is_cold: bool)
    requires
        agrees(w, v),
        v.slots.contains_key(k),
    ensures
        agrees(
            JournalView { slots: w.slots.insert(k, StorageSlotState { present_value: present, is_cold, ..w.slots[k] }), ..w },
            JournalView { slots: v.slots.insert(k, StorageSlotState { present_value: present, is_cold, ..v.slots[k] }), ..v },
        ),
{
    let w1 = JournalView { slots: w.slots.insert(k, StorageSlotState { present_value: present, is_cold, ..w.slots[k] }), ..w };
    let v1 = JournalView { slots: v.slots.insert(k, StorageSlotState { present_value: present, is_cold, ..v.slots[k] }), ..v };
    assert forall|j: (Address, U256)| #[trigger] v1.slots.contains_key(j) implies w1.slots.contains_key(j)
        && w1.slots[j].present_value == v1.slots[j].present_value && w1.slots[j].original_value
        == v1.slots[j].original_value by {
        if j != k {
            assert(v.slots.contains_key(j));
        }
    }
}

/// Reverting the same entry from agreeing views gives agreeing views.
pub proof fn lemma_revert_entry_agree(w: JournalView, v: JournalView, e: JournalEntry, sd: bool)
    requires
        agrees(w, v),
        entry_present(v, e, sd),
    ensures
        agrees(revert_entry(w, e, sd), revert_entry(v, e, sd)),
{
    reveal(revert_entry);
    match e {
        JournalEntry::AccountDestroyed { had_balance, address, target, destroyed_status } => {
            let account = v.accounts[address];
            let flagged = match destroyed_status {
                SelfdestructionRevertStatus::GloballySelfdestroyed => JournaledAccountState {
                    selfdestructed: false,
                    selfdestructed_locally: false,
                    ..account
                },
                SelfdestructionRevertStatus::LocallySelfdestroyed => JournaledAccountState {
                    selfdestructed_locally: false,
                    ..account
                },
                SelfdestructionRevertStatus::RepeatedSelfdestruction => account,
            };
            let a1 = JournaledAccountState {
                balance: word(wrapping_add_spec(account.balance.value(), had_balance.value())),
                ..flagged
            };
            lemma_with_account_agree(w, v, address, a1);
            let w1 = with_account(w, address, a1);
            let v1 = with_account(v, address, a1);
            if address != target {
                assert(w1.accounts[target] == v1.accounts[target]);
                lemma_with_account_agree(
                    w1,
                    v1,
                    target,
                    JournaledAccountState {
                        balance: word(wrapping_sub_spec(v1.accounts[target].balance.value(), had_balance.value())),
                        ..v1.accounts[target]
                    },
                );
            }
        },
        JournalEntry::BalanceTransfer { balance, from, to } => {
            let a1 = JournaledAccountState {
                balance: word(wrapping_add_spec(v.accounts[from].balance.value(), balance.value())),
                ..v.accounts[from]
            };
            lemma_with_account_agree(w, v, from, a1);
            let w1 = with_account(w, from, a1);
            let v1 = with_account(v, from, a1);
            assert(w1.accounts[to] == v1.accounts[to]);
            lemma_with_account_agree(
                w1,
                v1,
                to,
                JournaledAccountState {
                    balance: word(wrapping_sub_spec(v1.accounts[to].balance.value(), balance.value())),
                    ..v1.accounts[to]
                },
            );
        },
        JournalEntry::StorageWarmed { key, address } => {
            lemma_with_slot_agree(w, v, (address, key), v.slots[(address, key)].present_value, true);
            assert(w.slots[(address, key)].present_value == v.slots[(address, key)].present_value);
            let ws = StorageSlotState { is_cold: true, ..w.slots[(address, key)] };
            assert(ws == StorageSlotState { present_value: v.slots[(address, key)].present_value, is_cold: true, ..w.slots[(address, key)] });
        },
        JournalEntry::StorageChanged { key, had_value, address } => {
            lemma_with_slot_agree(w, v, (address, key), had_value, v.slots[(address, key)].is_cold);
            let ws = StorageSlotState { present_value: had_value, ..w.slots[(address, key)] };
            let vs = StorageSlotState { present_value: had_value, ..v.slots[(address, key)] };
            let w1 = JournalView { slots: w.slots.insert((address, key), ws), ..w };
            let v1 = JournalView { slots: v.slots.insert((address, key), vs), ..v };
            assert forall|j: (Address, U256)| #[trigger] v1.slots.contains_key(j) implies w1.slots.contains_key(j)
                && w1.slots[j].present_value == v1.slots[j].present_value && w1.slots[j].original_value
                == v1.slots[j].original_value by {
                if j != (address, key) {
                    assert(v.slots.contains_key(j));
                }
            }
        },
        JournalEntry::TransientStorageChange { .. } => {},
        JournalEntry::AccountTouched { address } => {
            if !(sd && address == precompile3()) {
                lemma_with_account_agree(w, v, address, JournaledAccountState { touched: false, ..v.accounts[address] });
            }
        },
        JournalEntry::AccountWarmed { address } => {
            lemma_with_account_agree(w, v, address, JournaledAccountState { cold: true, ..v.accounts[address] });
        },
        JournalEntry::BalanceChange { old_balance, address } => {
            lemma_with_account_agree(w, v, address, JournaledAccountState { balance: old_balance, ..v.accounts[address] });
        },
        JournalEntry::NonceChange { address, previous_nonce } => {
            lemma_with_account_agree(w, v, address, JournaledAccountState { nonce: previous_nonce, ..v.accounts[address] });
        },
        JournalEntry::NonceBump { address } => {
            let a = v.accounts[address];
            lemma_with_account_agree(
                w,
                v,
                address,
                JournaledAccountState {
                    nonce: if a.nonce > 0 {
                        (a.nonce - 1) as u64
                    } else {
                        0
                    },
                    ..a
                },
            );
        },
        JournalEntry::AccountCreated { address, is_created_globally } => {
            let a = v.accounts[address];
            lemma_with_account_agree(
                w,
                v,
                address,
                JournaledAccountState {
                    created_locally: false,
                    created: if is_created_globally {
                        false
                    } else {
                        a.created
                    },
                    nonce: 0,
                    ..a
                },
            );
        },
        JournalEntry::CodeChange { address } => {
            lemma_with_account_agree(w, v, address, JournaledAccountState { code_hash: keccak_empty(), ..v.accounts[address] });
        },
    }
}

/// Reverting the same entries from agreeing views gives agreeing views.
pub proof fn lemma_revert_entries_agree(w: JournalView, v: JournalView, entries: Seq<JournalEntry>, sd: bool)
    requires
        agrees(w, v),
        all_present(v, entries, sd),
    ensures
        agrees(revert_entries(w, entries, sd), revert_entries(v, entries, sd)),
    decreases entries.len(),
{
    if entries.len() > 0 {
        let e = entries.last();
        assert(entry_present(v, e, sd));
        let w1 = revert_entry(w, e, sd);
        let v1 = revert_entry(v, e, sd);
        lemma_revert_entry_agree(w, v, e, sd);
        lemma_revert_entry_keeps_loaded(v, e, sd);
        assert(all_present(v1, entries.drop_last(), sd)) by {
            assert forall|i: int| 0 <= i < entries.drop_last().len() implies entry_present(
                v1,
                #[trigger] entries.drop_last()[i],
                sd,
            ) by {
                assert(entry_present(v, entries[i], sd));
            }
        }
        lemma_revert_entries_agree(w1, v1, entries.drop_last(), sd);
    }
}

/// Agreement is transitive.
pub proof fn lemma_agrees_trans(a: JournalView, b: JournalView, c: JournalView)
    requires
        agrees(a, b),
        agrees(b, c),
    ensures
        agrees(a, c),
{
}

/// Reverting to a checkpoint restores the journal: from a view at the checkpoint,
/// along any run of journaled operations each of which is undoable and only
/// appends to the journal, reverting every entry appended since the checkpoint
/// gives back every account (all of its fields), every slot value and the
/// transient storage that the journal held at the checkpoint.
pub proof fn lemma_checkpoint_revert_restores(
    views: Seq<JournalView>,
    journals: Seq<Seq<JournalEntry>>,
    sd: bool,
)
    requires
        views.len() == journals.len(),
        views.len() > 0,
        forall|k: int|
            0 <= k < views.len() - 1 ==> {
                &&& journals[k].len() <= #[trigger] journals[k + 1].len()
                &&& journals[k + 1].take(journals[k].len() as int) == journals[k]
                &&& undoable(views[k], views[k + 1], journals[k + 1].skip(journals[k].len() as int), sd)
            },
    ensures
        agrees(revert_entries(views.last(), journals.last().skip(journals[0].len() as int), sd), views[0]),
{
    lemma_restores_from(views, journals, sd, 0);
}

/// The journal only grows along the run.
proof fn lemma_journal_prefix(journals: Seq<Seq<JournalEntry>>, k: int)
    requires
        0 <= k < journals.len(),
        forall|j: int|
            0 <= j < journals.len() - 1 ==> {
                &&& journals[j].len() <= #[trigger] journals[j + 1].len()
                &&& journals[j + 1].take(journals[j].len() as int) == journals[j]
            },
    ensures
        journals[k].len() <= journals.last().len(),
        journals.last().take(journals[k].len() as int) == journals[k],
    decreases journals.len() - k,
{
    if k < journals.len() - 1 {
        lemma_journal_prefix(journals, k + 1);
        let a = journals[k];
        let b = journals[k + 1];
        let z = journals.last();
        assert(z.take(a.len() as int) =~= z.take(b.len() as int).take(a.len() as int));
    }
}

/// What an operation adds stays present in every later view.
proof fn lemma_present_later(views: Seq<JournalView>, journals: Seq<Seq<JournalEntry>>, sd: bool, k: int, j: int)
    requires
        views.len() == journals.len(),
        0 <= k < j < views.len(),
        forall|m: int|
            0 <= m < views.len() - 1 ==> {
                &&& journals[m].len() <= #[trigger] journals[m + 1].len()
                &&& journals[m + 1].take(journals[m].len() as int) == journals[m]
                &&& undoable(views[m], views[m + 1], journals[m + 1].skip(journals[m].len() as int), sd)
            },
    ensures
        all_present(views[j], journals[k + 1].skip(journals[k].len() as int), sd),
    decreases j - k,
{
    let e = journals[k + 1].skip(journals[k].len() as int);
    if j == k + 1 {
    } else {
        lemma_present_later(views, journals, sd, k, j - 1);
        let m = j - 1;
        assert(undoable(views[m], views[m + 1], journals[m + 1].skip(journals[m].len() as int), sd));
        assert forall|i: int| 0 <= i < e.len() implies entry_present(views[j], #[trigger] e[i], sd) by {
            assert(entry_present(views[j - 1], e[i], sd));
        }
    }
}

/// The restoration, from the `k`-th view on.
proof fn lemma_restores_from(views: Seq<JournalView>, journals: Seq<Seq<JournalEntry>>, sd: bool, k: int)
    requires
        views.len() == journals.len(),
        0 <= k < views.len(),
        forall|m: int|
            0 <= m < views.len() - 1 ==> {
                &&& journals[m].len() <= #[trigger] journals[m + 1].len()
                &&& journals[m + 1].take(journals[m].len() as int) == journals[m]
                &&& undoable(views[m], views[m + 1], journals[m + 1].skip(journals[m].len() as int), sd)
            },
    ensures
        agrees(revert_entries(views.last(), journals.last().skip(journals[k].len() as int), sd), views[k]),
    decreases views.len() - k,
{
    let n = views.len() - 1;
    lemma_journal_prefix(journals, k);
    if k == n {
        assert(journals.last().skip(journals[k].len() as int) =~= Seq::<JournalEntry>::empty());
        assert(agrees(views.last(), views.last()));
    } else {
        lemma_restores_from(views, journals, sd, k + 1);
        lemma_journal_prefix(journals, k + 1);
        let z = journals.last();
        let a = journals[k].len() as int;
        let b = journals[k + 1].len() as int;
        let e = journals[k + 1].skip(a);
        let rest = z.skip(b);
        assert(z.skip(a) =~= e + rest) by {
            assert(z.take(b) == journals[k + 1]);
            assert forall|i: int| 0 <= i < z.skip(a).len() implies z.skip(a)[i] == (e + rest)[i] by {
                if i < b - a {
                    assert(z[a + i] == z.take(b)[a + i]);
                }
            }
        }
        lemma_revert_entries_append(views.last(), e, rest, sd);
        let w = revert_entries(views.last(), rest, sd);
        assert(agrees(w, views[k + 1]));
        assert(all_present(views[k + 1], e, sd));
        lemma_revert_entries_agree(w, views[k + 1], e, sd);
        lemma_agrees_trans(revert_entries(w, e, sd), revert_entries(views[k + 1], e, sd), views[k]);
    }
}

/// A view agrees with itself.
pub proof fn lemma_agrees_refl(v: JournalView)
    ensures
        agrees(v, v),
{
}

/// Reverting the entries of an operation that only changed loaded account
/// `address`, one field at a time, and pushed `entries`.
proof fn lemma_undo_account(
    before: JournalView,
    after: JournalView,
    address: Address,
    entries: Seq<JournalEntry>,
    sd: bool,
)
    requires
        before.accounts.contains_key(address),
        after.accounts == before.accounts.insert(address, after.accounts[address]),
        after.slots == before.slots,
        after.transient == before.transient,
        all_present(after, entries, sd),
        revert_entries(after, entries, sd).accounts == before.accounts,
        revert_entries(after, entries, sd).slots == before.slots,
        revert_entries(after, entries, sd).transient == before.transient,
    ensures
        undoable(before, after, entries, sd),
{
}

impl Journal {
    /// Marks the account at position `i` touched, journaling the touch.
    fn touch_at(&mut self, i: usize)
        requires
            old(self).wf(),
            i < old(self).accounts@.len(),
        ensures
            final(self).wf(),
            final(self).accounts@.len() == old(self).accounts@.len(),
            final(self).accounts@[i as int].0 == old(self).accounts@[i as int].0,
            final(self).view() == with_account(
                old(self).view(),
                old(self).accounts@[i as int].0,
                JournaledAccountState { touched: true, ..old(self).accounts@[i as int].1 },
            ),
            final(self).journal@ == if old(self).accounts@[i as int].1.touched {
                old(self).journal@
            } else {
                old(self).journal@.push(JournalEntry::AccountTouched { address: old(self).accounts@[i as int].0 })
            },
            final(self).logs == old(self).logs,
            final(self).depth == old(self).depth,
            final(self).spec == old(self).spec,
    {
        let (address, account) = self.accounts[i];
        if !account.touched {
            self.journal.push(JournalEntry::AccountTouched { address });
            self.put_account(i, JournaledAccountState { touched: true, ..account });
        } else {
            proof {
                lemma_pairs_map_value(self.accounts@, i as int);
                assert(self.view().accounts =~= with_account(old(self).view(), address, account).accounts);
            }
        }
    }

    /// Marks a loaded account touched (Spurious Dragon clears touched empty
    /// accounts), journaling the touch; nothing for an account not loaded.
    pub fn touch_account(&mut self, address: Address)
        requires
            old(self).wf(),
        ensures
            final(self).wf(),
            final(self).view() == if old(self).view().accounts.contains_key(address) {
                with_account(
                    old(self).view(),
                    address,
                    JournaledAccountState { touched: true, ..old(self).view().accounts[address] },
                )
            } else {
                old(self).view()
            },
            final(self).journal@ == if old(self).view().accounts.contains_key(address)
                && !old(self).view().accounts[address].touched {
                old(self).journal@.push(JournalEntry::AccountTouched { address })
            } else {
                old(self).journal@
            },
            final(self).journal@.len() >= old(self).journal@.len(),
            final(self).journal@.take(old(self).journal@.len() as int) == old(self).journal@,
            !(old(self).sd() && address == precompile3()) ==> undoable(
                old(self).view(),
                final(self).view(),
                final(self).journal@.skip(old(self).journal@.len() as int),
                old(self).sd(),
            ),
            final(self).logs == old(self).logs,
            final(self).depth == old(self).depth,
            final(self).spec == old(self).spec,
    {
        let ghost before = self.view();
        let ghost n = self.journal@.len();
        if let Some(i) = self.find_account(address) {
            self.touch_at(i);
            proof {
                let entries = self.journal@.skip(n as int);
                let sd = old(self).sd();
                reveal(revert_entry);
                reveal_with_fuel(revert_entries, 2);
                if before.accounts[address].touched {
                    assert(entries =~= Seq::<JournalEntry>::empty());
                    assert(self.view().accounts =~= before.accounts);
                } else {
                    assert(entries =~= seq![JournalEntry::AccountTouched { address }]);
                    assert(entries.drop_last() =~= Seq::<JournalEntry>::empty());
                }
                assert(self.journal@.take(n as int) =~= old(self).journal@);
                if !(sd && address == precompile3()) {
                    if !before.accounts[address].touched {
                        assert(revert_entries(self.view(), entries, sd).accounts =~= before.accounts);
                    }
                    assert(self.view().accounts =~= before.accounts.insert(address, self.view().accounts[address]));
                    lemma_undo_account(before, self.view(), address, entries, sd);
                }
            }
        } else {
            proof {
                assert(self.journal@.skip(n as int) =~= Seq::<JournalEntry>::empty());
                assert(self.journal@.take(n as int) =~= old(self).journal@);
            }
        }
    }
}

/// Two undoable operations in a row make an undoable operation.
pub proof fn lemma_undoable_compose(
    v0: JournalView,
    v1: JournalView,
    v2: JournalView,
    j0: Seq<JournalEntry>,
    j1: Seq<JournalEntry>,
    j2: Seq<JournalEntry>,
    sd: bool,
)
    requires
        j0.len() <= j1.len() <= j2.len(),
        j1.take(j0.len() as int) == j0,
        j2.take(j1.len() as int) == j1,
        undoable(v0, v1, j1.skip(j0.len() as int), sd),
        undoable(v1, v2, j2.skip(j1.len() as int), sd),
    ensures
        j2.take(j0.len() as int) == j0,
        undoable(v0, v2, j2.skip(j0.len() as int), sd),
{
    let views = seq![v0, v1, v2];
    let journals = seq![j0, j1, j2];
    assert(views[1] == v1 && views[2] == v2 && journals[1] == j1 && journals[2] == j2);
    lemma_checkpoint_revert_restores(views, journals, sd);
    assert(journals.last() == j2 && views.last() == v2);
    lemma_present_later(views, journals, sd, 0, 2);
    lemma_present_later(views, journals, sd, 1, 2);
    assert(j2.take(j0.len() as int) =~= j2.take(j1.len() as int).take(j0.len() as int));
    let e1 = j1.skip(j0.len() as int);
    let e2 = j2.skip(j1.len() as int);
    assert(j2.skip(j0.len() as int) =~= e1 + e2) by {
        assert forall|i: int| 0 <= i < j2.skip(j0.len() as int).len() implies j2.skip(j0.len() as int)[i] == (e1 + e2)[i] by {
            if i < j1.len() - j0.len() {
                assert(j2[j0.len() + i] == j2.take(j1.len() as int)[j0.len() + i]);
            }
        }
    }
    assert forall|i: int| 0 <= i < (e1 + e2).len() implies entry_present(v2, #[trigger] (e1 + e2)[i], sd) by {
        if i < e1.len() {
            assert(entry_present(v2, e1[i], sd));
        } else {
            assert(entry_present(v2, e2[i - e1.len()], sd));
        }
    }
}

impl Journal {
    /// Replaces the account at position `i` and journals `entry`, which undoes
    /// the replacement.
    fn apply_journaled(&mut self, i: usize, account: JournaledAccountState, entry: JournalEntry)
        requires
            old(self).wf(),
            i < old(self).accounts@.len(),
            entry_present(with_account(old(self).view(), old(self).accounts@[i as int].0, account), entry, old(self).sd()),
            agrees(
                revert_entry(with_account(old(self).view(), old(self).accounts@[i as int].0, account), entry, old(self).sd()),
                old(self).view(),
            ),
        ensures
            final(self).wf(),
            final(self).view() == with_account(old(self).view(), old(self).accounts@[i as int].0, account),
            final(self).journal@ == old(self).journal@.push(entry),
            undoable(old(self).view(), final(self).view(), final(self).journal@.skip(old(self).journal@.len() as int), old(self).sd()),
            final(self).accounts@.len() == old(self).accounts@.len(),
            final(self).accounts@[i as int].0 == old(self).accounts@[i as int].0,
            final(self).logs == old(self).logs,
            final(self).depth == old(self).depth,
            final(self).spec == old(self).spec,
    {
        let ghost n = self.journal@.len();
        self.put_account(i, account);
        self.journal.push(entry);
        proof {
            let entries = self.journal@.skip(n as int);
            assert(entries =~= seq![entry]);
            assert(entries.drop_last() =~= Seq::<JournalEntry>::empty());
            reveal_with_fuel(revert_entries, 2);
            assert(revert_entries(self.view(), entries, old(self).sd()) == revert_entry(self.view(), entry, old(self).sd()));
        }
    }

    /// Sets the balance of a loaded account, touching it and journaling the
    /// change when the balance differs.
    pub fn set_balance(&mut self, address: Address, balance: U256)
        requires
            old(self).wf(),
            old(self).view().accounts.contains_key(address),
        ensures
            final(self).wf(),
            final(self).view() == with_account(
                old(self).view(),
                address,
                JournaledAccountState { balance, touched: true, ..old(self).view().accounts[address] },
            ),
            final(self).journal@.len() >= old(self).journal@.len(),
            final(self).journal@.take(old(self).journal@.len() as int) == old(self).journal@,
            !(old(self).sd() && address == precompile3()) ==> undoable(
                old(self).view(),
                final(self).view(),
                final(self).journal@.skip(old(self).journal@.len() as int),
                old(self).sd(),
            ),
            final(self).logs == old(self).logs,
            final(self).depth == old(self).depth,
            final(self).spec == old(self).spec,
    {
        let ghost v0 = self.view();
        let ghost j0 = self.journal@;
        self.touch_account(address);
        let ghost v1 = self.view();
        let ghost j1 = self.journal@;
        let i = self.find_account(address).unwrap();
        let account = self.accounts[i].1;
        if account.balance != balance {
            proof {
                reveal(revert_entry);
                let after = with_account(v1, address, JournaledAccountState { balance, ..account });
                let e = JournalEntry::BalanceChange { old_balance: account.balance, address };
                assert(revert_entry(after, e, self.sd()).accounts =~= v1.accounts);
            }
            self.apply_journaled(i, JournaledAccountState { balance, ..account }, JournalEntry::BalanceChange { old_balance: account.balance, address });
            proof {
                assert(self.journal@.take(j1.len() as int) =~= j1);
                if !(old(self).sd() && address == precompile3()) {
                    lemma_undoable_compose(v0, v1, self.view(), j0, j1, self.journal@, old(self).sd());
                }
                assert(self.journal@.take(j0.len() as int) =~= j1.push(self.journal@.last()).take(j0.len() as int));
            }
        }
        proof {
            assert(self.view().accounts =~= v0.accounts.insert(
                address,
                JournaledAccountState { balance, touched: true, ..v0.accounts[address] },
            ));
        }
    }
}

/// Why a transfer of value failed.
#[derive(Clone, Copy, PartialEq, Eq, Structural, Debug)]
pub enum TransferError {
    OutOfFunds,
    OverflowPayment,
    CreateCollision,
}

impl Journal {
    /// Adds to the balance of a loaded account, touching it; `false` (with the
    /// touch only) when the sum does not fit in 256 bits.
    pub fn incr_balance(&mut self, address: Address, balance: U256) -> (r: bool)
        requires
            old(self).wf(),
            old(self).view().accounts.contains_key(address),
        ensures
            final(self).wf(),
            r == (old(self).view().accounts[address].balance.value() + balance.value() <= u256_max()),
            final(self).view() == with_account(
                old(self).view(),
                address,
                JournaledAccountState {
                    balance: if r {
                        word(old(self).view().accounts[address].balance.value() + balance.value())
                    } else {
                        old(self).view().accounts[address].balance
                    },
                    touched: true,
                    ..old(self).view().accounts[address]
                },
            ),
            final(self).journal@.len() >= old(self).journal@.len(),
            final(self).journal@.take(old(self).journal@.len() as int) == old(self).journal@,
            !(old(self).sd() && address == precompile3()) ==> undoable(
                old(self).view(),
                final(self).view(),
                final(self).journal@.skip(old(self).journal@.len() as int),
                old(self).sd(),
            ),
            final(self).logs == old(self).logs,
            final(self).depth == old(self).depth,
            final(self).spec == old(self).spec,
    {
        let ghost v0 = self.view();
        let ghost j0 = self.journal@;
        self.touch_account(address);
        let ghost v1 = self.view();
        let ghost j1 = self.journal@;
        let i = self.find_account(address).unwrap();
        let current = self.accounts[i].1.balance;
        match u256_checked_add(current, balance) {
            None => false,
            Some(sum) => {
                proof {
                    lemma_word(sum);
                }
                self.set_balance(address, sum);
                proof {
                    if !(old(self).sd() && address == precompile3()) {
                        lemma_undoable_compose(v0, v1, self.view(), j0, j1, self.journal@, old(self).sd());
                    }
                    assert(self.journal@.take(j0.len() as int) =~= self.journal@.take(j1.len() as int).take(j0.len() as int));
                    assert(self.view().accounts =~= v0.accounts.insert(
                        address,
                        JournaledAccountState { balance: sum, touched: true, ..v0.accounts[address] },
                    ));
                }
                true
            },
        }
    }

    /// Subtracts from the balance of a loaded account, touching it; `false` (with
    /// the touch only) when the balance is too small.
    pub fn decr_balance(&mut self, address: Address, balance: U256) -> (r: bool)
        requires
            old(self).wf(),
            old(self).view().accounts.contains_key(address),
        ensures
            final(self).wf(),
            r == (balance.value() <= old(self).view().accounts[address].balance.value()),
            final(self).view() == with_account(
                old(self).view(),
                address,
                JournaledAccountState {
                    balance: if r {
                        word((old(self).view().accounts[address].balance.value() - balance.value()) as nat)
                    } else {
                        old(self).view().accounts[address].balance
                    },
                    touched: true,
                    ..old(self).view().accounts[address]
                },
            ),
            final(self).journal@.len() >= old(self).journal@.len(),
            final(self).journal@.take(old(self).journal@.len() as int) == old(self).journal@,
            !(old(self).sd() && address == precompile3()) ==> undoable(
                old(self).view(),
                final(self).view(),
                final(self).journal@.skip(old(self).journal@.len() as int),
                old(self).sd(),
            ),
            final(self).logs == old(self).logs,
            final(self).depth == old(self).depth,
            final(self).spec == old(self).spec,
    {
        let ghost v0 = self.view();
        let ghost j0 = self.journal@;
        self.touch_account(address);
        let ghost v1 = self.view();
        let ghost j1 = self.journal@;
        let i = self.find_account(address).unwrap();
        let current = self.accounts[i].1.balance;
        match u256_checked_sub(current, balance) {
            None => false,
            Some(rest) => {
                proof {
                    lemma_word(rest);
                }
                self.set_balance(address, rest);
                proof {
                    if !(old(self).sd() && address == precompile3()) {
                        lemma_undoable_compose(v0, v1, self.view(), j0, j1, self.journal@, old(self).sd());
                    }
                    assert(self.journal@.take(j0.len() as int) =~= self.journal@.take(j1.len() as int).take(j0.len() as int));
                    assert(self.view().accounts =~= v0.accounts.insert(
                        address,
                        JournaledAccountState { balance: rest, touched: true, ..v0.accounts[address] },
                    ));
                }
                true
            },
        }
    }

    /// Increments the nonce of a loaded account, touching it; `false` (with the
    /// touch only) when the nonce is at its largest.
    pub fn bump_nonce(&mut self, address: Address) -> (r: bool)
        requires
            old(self).wf(),
            old(self).view().accounts.contains_key(address),
        ensures
            final(self).wf(),
            r == (old(self).view().accounts[address].nonce < u64::MAX),
            final(self).view() == with_account(
                old(self).view(),
                address,
                JournaledAccountState {
                    nonce: if r {
                        (old(self).view().accounts[address].nonce + 1) as u64
                    } else {
                        old(self).view().accounts[address].nonce
                    },
                    touched: true,
                    ..old(self).view().accounts[address]
                },
            ),
            final(self).journal@.len() >= old(self).journal@.len(),
            final(self).journal@.take(old(self).journal@.len() as int) == old(self).journal@,
            !(old(self).sd() && address == precompile3()) ==> undoable(
                old(self).view(),
                final(self).view(),
                final(self).journal@.skip(old(self).journal@.len() as int),
                old(self).sd(),
            ),
            final(self).logs == old(self).logs,
            final(self).depth == old(self).depth,
            final(self).spec == old(self).spec,
    {
        let ghost v0 = self.view();
        let ghost j0 = self.journal@;
        self.touch_account(address);
        let ghost v1 = self.view();
        let ghost j1 = self.journal@;
        let i = self.find_account(address).unwrap();
        let account = self.accounts[i].1;
        match account.nonce.checked_add(1) {
            None => false,
            Some(nonce) => {
                proof {
                    reveal(revert_entry);
                    let after = with_account(v1, address, JournaledAccountState { nonce, ..account });
                    assert(revert_entry(after, JournalEntry::NonceBump { address }, self.sd()).accounts =~= v1.accounts);
                }
                self.apply_journaled(i, JournaledAccountState { nonce, ..account }, JournalEntry::NonceBump { address });
                proof {
                    assert(self.journal@.take(j1.len() as int) =~= j1);
                    if !(old(self).sd() && address == precompile3()) {
                        lemma_undoable_compose(v0, v1, self.view(), j0, j1, self.journal@, old(self).sd());
                    }
                    assert(self.journal@.take(j0.len() as int) =~= self.journal@.take(j1.len() as int).take(j0.len() as int));
                    assert(self.view().accounts =~= v0.accounts.insert(
                        address,
                        JournaledAccountState { nonce, touched: true, ..v0.accounts[address] },
                    ));
                }
                true
            },
        }
    }

    /// Sets the nonce of a loaded account, touching it and journaling the
    /// previous nonce.
    pub fn set_nonce(&mut self, address: Address, nonce: u64)
        requires
            old(self).wf(),
            old(self).view().accounts.contains_key(address),
        ensures
            final(self).wf(),
            final(self).view() == with_account(
                old(self).view(),
                address,
                JournaledAccountState { nonce, touched: true, ..old(self).view().accounts[address] },
            ),
            final(self).journal@.len() >= old(self).journal@.len(),
            final(self).journal@.take(old(self).journal@.len() as int) == old(self).journal@,
            !(old(self).sd() && address == precompile3()) ==> undoable(
                old(self).view(),
                final(self).view(),
                final(self).journal@.skip(old(self).journal@.len() as int),
                old(self).sd(),
            ),
            final(self).logs == old(self).logs,
            final(self).depth == old(self).depth,
            final(self).spec == old(self).spec,
    {
        let ghost v0 = self.view();
        let ghost j0 = self.journal@;
        self.touch_account(address);
        let ghost v1 = self.view();
        let ghost j1 = self.journal@;
        let i = self.find_account(address).unwrap();
        let account = self.accounts[i].1;
        let entry = JournalEntry::NonceChange { address, previous_nonce: account.nonce };
        proof {
            reveal(revert_entry);
            let after = with_account(v1, address, JournaledAccountState { nonce, ..account });
            assert(revert_entry(after, entry, self.sd()).accounts =~= v1.accounts);
        }
        self.apply_journaled(i, JournaledAccountState { nonce, ..account }, entry);
        proof {
            assert(self.journal@.take(j1.len() as int) =~= j1);
            if !(old(self).sd() && address == precompile3()) {
                lemma_undoable_compose(v0, v1, self.view(), j0, j1, self.journal@, old(self).sd());
            }
            assert(self.journal@.take(j0.len() as int) =~= self.journal@.take(j1.len() as int).take(j0.len() as int));
            assert(self.view().accounts =~= v0.accounts.insert(
                address,
                JournaledAccountState { nonce, touched: true, ..v0.accounts[address] },
            ));
        }
    }

    /// Sets the code hash of a loaded account, touching it and journaling the
    /// change. Reverting it leaves the hash of empty code, so the change is undone
    /// exactly when the account had no code.
    pub fn set_code(&mut self, address: Address, code_hash: B256)
        requires
            old(self).wf(),
            old(self).view().accounts.contains_key(address),
        ensures
            final(self).wf(),
            final(self).view() == with_account(
                old(self).view(),
                address,
                JournaledAccountState { code_hash, touched: true, ..old(self).view().accounts[address] },
            ),
            final(self).journal@.len() >= old(self).journal@.len(),
            final(self).journal@.take(old(self).journal@.len() as int) == old(self).journal@,
            !(old(self).sd() && address == precompile3()) && old(self).view().accounts[address].code_hash
                == keccak_empty() ==> undoable(
                old(self).view(),
                final(self).view(),
                final(self).journal@.skip(old(self).journal@.len() as int),
                old(self).sd(),
            ),
            final(self).logs == old(self).logs,
            final(self).depth == old(self).depth,
            final(self).spec == old(self).spec,
    {
        let ghost v0 = self.view();
        let ghost j0 = self.journal@;
        self.touch_account(address);
        let ghost v1 = self.view();
        let ghost j1 = self.journal@;
        let i = self.find_account(address).unwrap();
        let account = self.accounts[i].1;
        let entry = JournalEntry::CodeChange { address };
        if account.code_hash == keccak_empty_hash() {
            proof {
                reveal(revert_entry);
                let after = with_account(v1, address, JournaledAccountState { code_hash, ..account });
                assert(revert_entry(after, entry, self.sd()).accounts =~= v1.accounts);
            }
            self.apply_journaled(i, JournaledAccountState { code_hash, ..account }, entry);
            proof {
                assert(self.journal@.take(j1.len() as int) =~= j1);
                if !(old(self).sd() && address == precompile3()) {
                    lemma_undoable_compose(v0, v1, self.view(), j0, j1, self.journal@, old(self).sd());
                }
            }
        } else {
            self.put_account(i, JournaledAccountState { code_hash, ..account });
            self.journal.push(entry);
        }
        proof {
            assert(self.journal@.take(j0.len() as int) =~= self.journal@.take(j1.len() as int).take(j0.len() as int));
            assert(self.journal@.take(j1.len() as int) =~= j1);
            assert(self.view().accounts =~= v0.accounts.insert(
                address,
                JournaledAccountState { code_hash, touched: true, ..v0.accounts[address] },
            ));
        }
    }
}

impl Journal {
    /// The transient value at a key: zero when none is held.
    pub fn tload(&self, address: Address, key: U256) -> (r: U256)
        requires
            self.wf(),
        ensures
            r == tload_result(self.view().transient, address, key),
    {
        match self.find_transient(address, key) {
            Some(i) => self.transient[i].1,
            None => {
                let z = U256::zero();
                proof {
                    lemma_word(z);
                }
                z
            },
        }
    }

    /// Stores a transient value (a zero removes the key), journaling the value
    /// it replaces when it changes.
    pub fn tstore(&mut self, address: Address, key: U256, value: U256)
        requires
            old(self).wf(),
        ensures
            final(self).wf(),
            final(self).view() == (JournalView {
                transient: transient_after_tstore(old(self).view().transient, address, key, value),
                ..old(self).view()
            }),
            final(self).journal@.len() >= old(self).journal@.len(),
            final(self).journal@.take(old(self).journal@.len() as int) == old(self).journal@,
            undoable(old(self).view(), final(self).view(), final(self).journal@.skip(old(self).journal@.len() as int), old(self).sd()),
            final(self).logs == old(self).logs,
            final(self).depth == old(self).depth,
            final(self).spec == old(self).spec,
    {
        let ghost v0 = self.view();
        let ghost n = self.journal@.len();
        let found = self.find_transient(address, key);
        let previous = match found {
            Some(i) => Some(self.transient[i].1),
            None => None,
        };
        proof {
            if let Some(i) = found {
                assert(self.transient@[i as int].1.value() != 0);
            }
        }
        let had_value: Option<U256> = if value.is_zero() {
            previous
        } else {
            let prev = match previous {
                Some(p) => p,
                None => U256::zero(),
            };
            if prev != value {
                Some(prev)
            } else {
                None
            }
        };
        self.put_transient(address, key, value);
        if let Some(had) = had_value {
            self.journal.push(JournalEntry::TransientStorageChange { key, had_value: had, address });
        }
        proof {
            let entries = self.journal@.skip(n as int);
            assert(self.journal@.take(n as int) =~= old(self).journal@);
            reveal(revert_entry);
            reveal_with_fuel(revert_entries, 2);
            let after = self.view();
            let t0 = v0.transient;
            if let Some(had) = had_value {
                assert(entries =~= seq![JournalEntry::TransientStorageChange { key, had_value: had, address }]);
                assert(entries.drop_last() =~= Seq::<JournalEntry>::empty());
                let r = revert_entries(after, entries, old(self).sd());
                if had.value() == 0 {
                    lemma_value_zero_unique(had);
                    assert(r.transient =~= t0);
                } else {
                    assert(r.transient =~= t0);
                }
            } else {
                assert(entries =~= Seq::<JournalEntry>::empty());
                if value.value() == 0 {
                    assert(after.transient =~= t0);
                } else {
                    assert(after.transient =~= t0);
                }
            }
        }
    }

    /// Moves value between two loaded accounts, touching them. Fails when the
    /// sender cannot pay (with the sender touched) or, with the sender already
    /// debited and left so, when the recipient's balance would overflow. A
    /// transfer to oneself only checks the funds.
    #[verifier::rlimit(100)]
    #[verifier::spinoff_prover]
    pub fn transfer_loaded(&mut self, from: Address, to: Address, balance: U256) -> (r: Option<TransferError>)
        requires
            old(self).wf(),
            old(self).view().accounts.contains_key(from),
            old(self).view().accounts.contains_key(to),
        ensures
            final(self).wf(),
            final(self).journal@.len() >= old(self).journal@.len(),
            final(self).journal@.take(old(self).journal@.len() as int) == old(self).journal@,
            from == to ==> final(self).view() == old(self).view() && r == if balance.value()
                > old(self).view().accounts[to].balance.value() {
                Some(TransferError::OutOfFunds)
            } else {
                None::<TransferError>
            },
            from != to ==> r == if balance.value() > old(self).view().accounts[from].balance.value() {
                Some(TransferError::OutOfFunds)
            } else if old(self).view().accounts[to].balance.value() + balance.value() > u256_max() {
                Some(TransferError::OverflowPayment)
            } else {
                None::<TransferError>
            },
            from != to && balance.value() > old(self).view().accounts[from].balance.value() ==> final(self).view().accounts[from].balance
                == old(self).view().accounts[from].balance && final(self).view().accounts[to] == old(self).view().accounts[to],
            from != to && balance.value() <= old(self).view().accounts[from].balance.value()
                && old(self).view().accounts[to].balance.value() + balance.value() > u256_max() ==> final(self).view().accounts[from].balance.value()
                == old(self).view().accounts[from].balance.value() - balance.value() && final(self).view().accounts[to].balance
                == old(self).view().accounts[to].balance,
            from != to && balance.value() == 0 ==> final(self).view() == with_account(
                old(self).view(),
                to,
                (JournaledAccountState { touched: true, ..old(self).view().accounts[to] }),
            ),
            from != to && balance.value() == 0 ==> final(self).journal@ == (if old(self).view().accounts[to].touched {
                old(self).journal@
            } else {
                old(self).journal@.push(JournalEntry::AccountTouched { address: to })
            }),
            from != to && r is None && balance.value() != 0 ==> final(self).view().accounts[from].touched
                && final(self).view().accounts[to].touched && final(self).journal@.last()
                == (JournalEntry::BalanceTransfer { from, to, balance }),
            from != to && r is None ==> balance.value() <= old(self).view().accounts[from].balance.value()
                && old(self).view().accounts[to].balance.value() + balance.value() <= u256_max()
                && final(self).view().accounts[from].balance.value() == old(self).view().accounts[from].balance.value()
                - balance.value() && final(self).view().accounts[to].balance.value()
                == old(self).view().accounts[to].balance.value() + balance.value(),
            from != to && r == Some(TransferError::OutOfFunds) ==> balance.value()
                > old(self).view().accounts[from].balance.value(),
            from != to && r == Some(TransferError::OverflowPayment) ==> old(self).view().accounts[to].balance.value()
                + balance.value() > u256_max(),
            r != Some(TransferError::CreateCollision),
            r != Some(TransferError::OverflowPayment) && !(old(self).sd() && (from == precompile3() || to == precompile3())) ==> undoable(
                old(self).view(),
                final(self).view(),
                final(self).journal@.skip(old(self).journal@.len() as int),
                old(self).sd(),
            ),
            final(self).logs == old(self).logs,
            final(self).depth == old(self).depth,
            final(self).spec == old(self).spec,
    {
        let ghost v0 = self.view();
        let ghost j0 = self.journal@;
        let ghost sd = old(self).sd();
        if from == to {
            let i = self.find_account(to).unwrap();
            let from_balance = self.accounts[i].1.balance;
            proof {
                assert(self.journal@.skip(j0.len() as int) =~= Seq::<JournalEntry>::empty());
                assert(self.journal@.take(j0.len() as int) =~= j0);
            }
            if u256_lt(from_balance, balance) {
                return Some(TransferError::OutOfFunds);
            }
            return None;
        }
        if balance.is_zero() {
            self.touch_account(to);
            proof {
                lemma_value_zero_unique(balance);
            }
            return None;
        }
        self.touch_account(from);
        let ghost v1 = self.view();
        let ghost j1 = self.journal@;
        let i = self.find_account(from).unwrap();
        let from_account = self.accounts[i].1;
        let debited = match u256_checked_sub(from_account.balance, balance) {
            None => {
                return Some(TransferError::OutOfFunds);
            },
            Some(d) => d,
        };
        self.touch_account(to);
        let ghost v2 = self.view();
        let ghost j2 = self.journal@;
        proof {
            if !(sd && (from == precompile3() || to == precompile3())) {
                assert(undoable(v0, v2, j2.skip(j0.len() as int), sd)) by {
                    lemma_undoable_compose(v0, v1, v2, j0, j1, j2, sd);
                }
            }
            assert(self.journal@.take(j0.len() as int) =~= j2.take(j1.len() as int).take(j0.len() as int));
        }
        let moved = self.move_balance(from, to, balance);
        proof {
            assert(self.journal@.take(j2.len() as int) =~= j2 || !moved);
            assert(self.journal@.take(j0.len() as int) =~= self.journal@.take(j2.len() as int).take(j0.len() as int));
            if moved && !(sd && (from == precompile3() || to == precompile3())) {
                assert(undoable(v0, self.view(), self.journal@.skip(j0.len() as int), sd)) by {
                    lemma_undoable_compose(v0, v2, self.view(), j0, j2, self.journal@, sd);
                }
            }
        }
        if !moved {
            return Some(TransferError::OverflowPayment);
        }
        None
    }

    /// Debits `from` and, when the recipient's balance does not overflow,
    /// credits `to` and journals the transfer; `false` (with `from` debited and
    /// nothing journaled) when it would overflow.
    #[verifier::rlimit(40)]
    fn move_balance(&mut self, from: Address, to: Address, balance: U256) -> (r: bool)
        requires
            old(self).wf(),
            from != to,
            old(self).view().accounts.contains_key(from),
            old(self).view().accounts.contains_key(to),
            balance.value() <= old(self).view().accounts[from].balance.value(),
        ensures
            final(self).wf(),
            r == (old(self).view().accounts[to].balance.value() + balance.value() <= u256_max()),
            final(self).view().accounts.dom() == old(self).view().accounts.dom(),
            final(self).view().accounts[from].balance.value() == old(self).view().accounts[from].balance.value()
                - balance.value(),
            r ==> final(self).view().accounts[to].balance.value() == old(self).view().accounts[to].balance.value()
                + balance.value(),
            r ==> final(self).journal@ == old(self).journal@.push(JournalEntry::BalanceTransfer { from, to, balance }),
            !r ==> final(self).journal@ == old(self).journal@,
            !r ==> final(self).view().accounts[to] == old(self).view().accounts[to],
            final(self).view().accounts[from].touched == old(self).view().accounts[from].touched,
            final(self).view().accounts[to].touched == old(self).view().accounts[to].touched,
            r ==> undoable(old(self).view(), final(self).view(), final(self).journal@.skip(old(self).journal@.len() as int), old(self).sd()),
            final(self).logs == old(self).logs,
            final(self).depth == old(self).depth,
            final(self).spec == old(self).spec,
    {
        let ghost v0 = self.view();
        let ghost n = self.journal@.len();
        let i = self.find_account(from).unwrap();
        let from_now = self.accounts[i].1;
        let debited = u256_checked_sub(from_now.balance, balance).unwrap();
        self.put_account(i, JournaledAccountState { balance: debited, ..from_now });
        let j = self.find_account(to).unwrap();
        let to_account = self.accounts[j].1;
        let credited = match u256_checked_add(to_account.balance, balance) {
            None => {
                proof {
                    assert(self.view().accounts.dom() =~= v0.accounts.dom());
                }
                return false;
            },
            Some(c) => c,
        };
        self.put_account(j, JournaledAccountState { balance: credited, ..to_account });
        let entry = JournalEntry::BalanceTransfer { from, to, balance };
        self.journal.push(entry);
        proof {
            assert(self.view().accounts.dom() =~= v0.accounts.dom());
            let entries = self.journal@.skip(n as int);
            assert(entries =~= seq![entry]);
            lemma_transfer_undo(v0, from, to, balance, debited, credited, self.sd());
        }
        true
    }

    /// Emits a log.
    pub fn log(&mut self, log: Log)
        ensures
            final(self).logs@ == old(self).logs@.push(log),
            final(self).accounts == old(self).accounts,
            final(self).slots == old(self).slots,
            final(self).transient == old(self).transient,
            final(self).journal == old(self).journal,
            final(self).depth == old(self).depth,
            final(self).spec == old(self).spec,
    {
        self.logs.push(log);
    }

    /// Takes the logs emitted so far.
    pub fn take_logs(&mut self) -> (r: Vec<Log>)
        ensures
            r@ == old(self).logs@,
            final(self).logs@ == Seq::<Log>::empty(),
            final(self).accounts == old(self).accounts,
            final(self).slots == old(self).slots,
            final(self).transient == old(self).transient,
            final(self).journal == old(self).journal,
            final(self).depth == old(self).depth,
            final(self).spec == old(self).spec,
    {
        let mut taken: Vec<Log> = Vec::new();
        std::mem::swap(&mut taken, &mut self.logs);
        taken
    }
}

/// What reverting a transfer does, spelled out.
proof fn lemma_revert_transfer(v: JournalView, from: Address, to: Address, balance: U256, sd: bool)
    ensures
        ({
            let v1 = with_balance(v, from, word(wrapping_add_spec(v.accounts[from].balance.value(), balance.value())));
            revert_entry(v, JournalEntry::BalanceTransfer { from, to, balance }, sd) == with_balance(
                v1,
                to,
                word(wrapping_sub_spec(v1.accounts[to].balance.value(), balance.value())),
            )
        }),
{
    reveal(revert_entry);
}

/// A journaled transfer between two distinct loaded accounts is undone by
/// reverting its entry.
#[verifier::rlimit(100)]
proof fn lemma_transfer_undo(v0: JournalView, from: Address, to: Address, balance: U256, debited: U256, credited: U256, sd: bool)
    requires
        from != to,
        v0.accounts.contains_key(from),
        v0.accounts.contains_key(to),
        debited.value() + balance.value() == v0.accounts[from].balance.value(),
        credited.value() == v0.accounts[to].balance.value() + balance.value(),
    ensures
        undoable(
            v0,
            with_account(
                with_account(v0, from, JournaledAccountState { balance: debited, ..v0.accounts[from] }),
                to,
                JournaledAccountState { balance: credited, ..v0.accounts[to] },
            ),
            seq![JournalEntry::BalanceTransfer { from, to, balance }],
            sd,
        ),
{
    let after = with_account(
        with_account(v0, from, JournaledAccountState { balance: debited, ..v0.accounts[from] }),
        to,
        JournaledAccountState { balance: credited, ..v0.accounts[to] },
    );
    let entry = JournalEntry::BalanceTransfer { from, to, balance };
    let entries = seq![entry];
    assert(entries.drop_last() =~= Seq::<JournalEntry>::empty());
    assert(after.accounts[from].balance == debited);
    assert(wrapping_add_spec(debited.value(), balance.value()) == v0.accounts[from].balance.value()) by {
        lemma_value_nonneg_parts(v0.accounts[from].balance);
        lemma_wrapping_inverse(debited.value(), balance.value());
    }
    assert(wrapping_sub_spec(credited.value(), balance.value()) == v0.accounts[to].balance.value()) by {
        lemma_value_nonneg_parts(credited);
        lemma_wrapping_inverse_sub(credited.value(), balance.value());
    }
    let fb = word(wrapping_add_spec(after.accounts[from].balance.value(), balance.value()));
    assert(fb == v0.accounts[from].balance) by {
        lemma_word(v0.accounts[from].balance);
    }
    let v1 = with_balance(after, from, fb);
    assert(v1.accounts[to] == after.accounts[to]);
    let tb = word(wrapping_sub_spec(v1.accounts[to].balance.value(), balance.value()));
    assert(tb == v0.accounts[to].balance) by {
        lemma_word(v0.accounts[to].balance);
    }
    lemma_revert_transfer(after, from, to, balance, sd);
    assert(with_balance(v1, to, tb).accounts =~= v0.accounts);
    assert(revert_entries(after, entries, sd) == revert_entry(after, entry, sd)) by {
        reveal_with_fuel(revert_entries, 2);
    }
    assert(entry_present(after, entry, sd));
}

/// Only the zero word stands for zero.
pub proof fn lemma_value_zero_unique(x: U256)
    requires
        x.value() == 0,
    ensures
        x == word(0),
{
    lemma_word(x);
}

/// Adding back what was subtracted without wrapping gives back the number.
pub proof fn lemma_wrapping_inverse(d: nat, b: nat)
    requires
        d + b <= u256_max(),
    ensures
        wrapping_add_spec(d, b) == d + b,
{
    assert((d + b) as int % crate::primitives::word_modulus() == d + b) by (nonlinear_arith)
        requires
            0 <= d + b < crate::primitives::word_modulus(),
    ;
}

/// Subtracting what was added without wrapping gives back the number.
pub proof fn lemma_wrapping_inverse_sub(c: nat, b: nat)
    requires
        b <= c,
        c <= u256_max(),
    ensures
        wrapping_sub_spec(c, b) == c - b,
{
    crate::primitives::lemma_value_nonneg_parts(word(c));
    assert((c - b) as int % crate::primitives::word_modulus() == c - b) by (nonlinear_arith)
        requires
            0 <= c - b,
            c - b < crate::primitives::word_modulus(),
    ;
}

/// Why a load was not done.
#[derive(Clone, Copy, PartialEq, Eq, Structural, Debug)]
pub enum JournalLoadError {
    /// The slot or account is cold and the caller asked not to load cold ones.
    ColdLoadSkipped,
}

/// What a storage write saw and did.
#[derive(Clone, Copy, PartialEq, Eq, Structural, Debug)]
pub struct SStoreResult {
    pub original_value: U256,
    pub present_value: U256,
    pub new_value: U256,
    pub is_cold: bool,
}

/// The account values read from the database.
#[derive(Clone, Copy, PartialEq, Eq, Structural, Debug)]
pub struct AccountInfoFields {
    pub balance: U256,
    pub nonce: u64,
    pub code_hash: B256,
}

/// A freshly loaded account: its values from the database with no flag set, or
/// an empty account marked as loaded as not existing.
pub open spec fn loaded_account(info: Option<AccountInfoFields>) -> JournaledAccountState {
    let (balance, nonce, code_hash, missing) = match info {
        Some(i) => (i.balance, i.nonce, i.code_hash, false),
        None => (word(0), 0u64, keccak_empty(), true),
    };
    JournaledAccountState {
        balance,
        nonce,
        code_hash,
        touched: false,
        cold: false,
        created: false,
        created_locally: false,
        selfdestructed: false,
        selfdestructed_locally: false,
        loaded_as_not_existing: missing,
    }
}

impl Journal {
    /// Whether `address` is loaded.
    pub fn is_loaded(&self, address: Address) -> (r: bool)
        requires
            self.wf(),
        ensures
            r == self.view().accounts.contains_key(address),
    {
        self.find_account(address).is_some()
    }

    /// Whether a storage slot of `address` is loaded.
    pub fn is_slot_loaded(&self, address: Address, key: U256) -> (r: bool)
        requires
            self.wf(),
        ensures
            r == self.view().slots.contains_key((address, key)),
    {
        self.find_slot(address, key).is_some()
    }

    /// Whether a loaded account was created in this transaction: its storage
    /// starts empty instead of being read from the database.
    pub fn is_created(&self, address: Address) -> (r: bool)
        requires
            self.wf(),
            self.view().accounts.contains_key(address),
        ensures
            r == self.view().accounts[address].created,
    {
        let i = self.find_account(address).unwrap();
        self.accounts[i].1.created
    }

    /// Loads an account that is not loaded yet, from what the database holds of
    /// it, journaling the warming when it was cold.
    pub fn load_new_account(&mut self, address: Address, info: Option<AccountInfoFields>, is_cold: bool)
        requires
            old(self).wf(),
            !old(self).view().accounts.contains_key(address),
        ensures
            final(self).wf(),
            final(self).view() == with_account(old(self).view(), address, loaded_account(info)),
            final(self).journal@ == if is_cold {
                old(self).journal@.push(JournalEntry::AccountWarmed { address })
            } else {
                old(self).journal@
            },
            undoable(old(self).view(), final(self).view(), final(self).journal@.skip(old(self).journal@.len() as int), old(self).sd()),
            final(self).logs == old(self).logs,
            final(self).depth == old(self).depth,
            final(self).spec == old(self).spec,
    {
        let ghost v0 = self.view();
        let ghost n = self.journal@.len();
        let account = match info {
            Some(i) => JournaledAccountState {
                balance: i.balance,
                nonce: i.nonce,
                code_hash: i.code_hash,
                touched: false,
                cold: false,
                created: false,
                created_locally: false,
                selfdestructed: false,
                selfdestructed_locally: false,
                loaded_as_not_existing: false,
            },
            None => {
                let z = U256::zero();
                proof {
                    lemma_word(z);
                }
                JournaledAccountState {
                    balance: z,
                    nonce: 0,
                    code_hash: keccak_empty_hash(),
                    touched: false,
                    cold: false,
                    created: false,
                    created_locally: false,
                    selfdestructed: false,
                    selfdestructed_locally: false,
                    loaded_as_not_existing: true,
                }
            },
        };
        proof {
            lemma_pairs_map_push(self.accounts@, address, account);
        }
        self.accounts.push((address, account));
        if is_cold {
            self.journal.push(JournalEntry::AccountWarmed { address });
        }
        proof {
            let after = self.view();
            assert(after.accounts =~= v0.accounts.insert(address, account));
            let entries = self.journal@.skip(n as int);
            reveal(revert_entry);
            reveal_with_fuel(revert_entries, 2);
            if is_cold {
                assert(entries =~= seq![JournalEntry::AccountWarmed { address }]);
                assert(entries.drop_last() =~= Seq::<JournalEntry>::empty());
            } else {
                assert(entries =~= Seq::<JournalEntry>::empty());
            }
            let r = revert_entries(after, entries, self.sd());
            assert forall|x: Address| #[trigger] v0.accounts.contains_key(x) implies r.accounts.contains_key(x)
                && r.accounts[x] == v0.accounts[x] by {
                assert(x != address);
            }
        }
    }

    /// Marks a loaded cold account warm again, journaling it. An account that was
    /// self-destructed in an earlier call frame is destroyed for good now: its
    /// values reset and its storage dropped. It is no longer locally created.
    /// `is_cold` tells whether the access list leaves it cold. Returns whether it
    /// was cold.
    pub fn rewarm_account(&mut self, address: Address, is_cold: bool) -> (r: bool)
        requires
            old(self).wf(),
            old(self).view().accounts.contains_key(address),
        ensures
            final(self).wf(),
            ({
                let a = old(self).view().accounts[address];
                if a.cold {
                    &&& r == is_cold
                    &&& final(self).view().accounts == old(self).view().accounts.insert(
                        address,
                        if a.selfdestructed_locally {
                            JournaledAccountState {
                                balance: word(0),
                                nonce: 0,
                                code_hash: keccak_empty(),
                                cold: false,
                                created_locally: false,
                                selfdestructed_locally: false,
                                ..a
                            }
                        } else {
                            JournaledAccountState { cold: false, created_locally: false, ..a }
                        },
                    )
                    &&& final(self).journal@ == old(self).journal@.push(JournalEntry::AccountWarmed { address })
                    &&& forall|k: (Address, U256)| k.0 != address ==> (#[trigger] final(self).view().slots.contains_key(k)
                        == old(self).view().slots.contains_key(k) && (old(self).view().slots.contains_key(k)
                        ==> final(self).view().slots[k] == old(self).view().slots[k]))
                    &&& a.selfdestructed_locally ==> forall|k: (Address, U256)| k.0 == address ==> !#[trigger] final(self).view().slots.contains_key(k)
                    &&& !a.selfdestructed_locally ==> final(self).view().slots == old(self).view().slots
                } else {
                    &&& !r
                    &&& final(self).view() == old(self).view()
                    &&& final(self).journal == old(self).journal
                }
            }),
            !old(self).view().accounts[address].selfdestructed_locally && !old(self).view().accounts[address].created_locally
                ==> final(self).journal@.take(old(self).journal@.len() as int) == old(self).journal@ && undoable(
                old(self).view(),
                final(self).view(),
                final(self).journal@.skip(old(self).journal@.len() as int),
                old(self).sd(),
            ),
            final(self).view().transient == old(self).view().transient,
            final(self).logs == old(self).logs,
            final(self).depth == old(self).depth,
            final(self).spec == old(self).spec,
    {
        let i = self.find_account(address).unwrap();
        let account = self.accounts[i].1;
        if !account.cold {
            proof {
                assert(self.journal@.skip(self.journal@.len() as int) =~= Seq::<JournalEntry>::empty());
                assert(self.journal@.take(self.journal@.len() as int) =~= self.journal@);
                lemma_undone(self.view(), self.view(), Seq::<JournalEntry>::empty(), self.sd());
            }
            return false;
        }
        let mut next = JournaledAccountState { cold: false, created_locally: false, ..account };
        if account.selfdestructed_locally {
            let z = U256::zero();
            proof {
                lemma_word(z);
            }
            next = JournaledAccountState {
                balance: z,
                nonce: 0,
                code_hash: keccak_empty_hash(),
                selfdestructed_locally: false,
                ..next
            };
            self.clear_storage(address);
        }
        let ghost v0 = self.view();
        let ghost j0 = self.journal@;
        let i = self.find_account(address).unwrap();
        self.put_account(i, next);
        self.journal.push(JournalEntry::AccountWarmed { address });
        proof {
            assert(self.journal@.take(j0.len() as int) =~= j0);
            if !account.selfdestructed_locally && !account.created_locally {
                assert(v0 == old(self).view());
                assert(self.journal@.skip(j0.len() as int) =~= seq![JournalEntry::AccountWarmed { address }]);
                lemma_warm_undoable(v0, address, old(self).sd());
            }
        }
        is_cold
    }

    /// Drops every loaded slot of `address`.
    fn clear_storage(&mut self, address: Address)
        requires
            old(self).wf(),
        ensures
            final(self).wf(),
            final(self).accounts == old(self).accounts,
            final(self).transient == old(self).transient,
            forall|k: (Address, U256)| k.0 != address ==> (#[trigger] final(self).view().slots.contains_key(k)
                == old(self).view().slots.contains_key(k) && (old(self).view().slots.contains_key(k)
                ==> final(self).view().slots[k] == old(self).view().slots[k])),
            forall|k: (Address, U256)| k.0 == address ==> !#[trigger] final(self).view().slots.contains_key(k),
            final(self).journal == old(self).journal,
            final(self).logs == old(self).logs,
            final(self).depth == old(self).depth,
            final(self).spec == old(self).spec,
    {
        let mut i: usize = 0;
        while i < self.slots.len()
            invariant
                self.wf(),
                i <= self.slots@.len(),
                self.accounts == old(self).accounts,
                self.transient == old(self).transient,
                self.journal == old(self).journal,
                self.logs == old(self).logs,
                self.depth == old(self).depth,
                self.spec == old(self).spec,
                forall|j: int| 0 <= j < i ==> self.slots@[j].0.0 != address,
                forall|k: (Address, U256)| k.0 != address ==> (#[trigger] self.view().slots.contains_key(k)
                    == old(self).view().slots.contains_key(k) && (old(self).view().slots.contains_key(k)
                    ==> self.view().slots[k] == old(self).view().slots[k])),
            decreases self.slots@.len() - i,
        {
            if self.slots[i].0.0 == address {
                let ghost before = self.slots@;
                let ghost before_map = self.view().slots;
                proof {
                    lemma_pairs_map_remove(self.slots@, i as int);
                }
                self.slots.remove(i);
                proof {
                    let removed = before[i as int].0;
                    assert(self.view().slots == before_map.remove(removed));
                    assert forall|k: (Address, U256)| k.0 != address implies (#[trigger] self.view().slots.contains_key(k)
                        == old(self).view().slots.contains_key(k) && (old(self).view().slots.contains_key(k)
                        ==> self.view().slots[k] == old(self).view().slots[k])) by {
                        assert(k != removed);
                    }
                    assert forall|j: int| 0 <= j < i implies self.slots@[j].0.0 != address by {
                        assert(self.slots@[j] == before[j]);
                    }
                }
            } else {
                i = i + 1;
            }
        }
        proof {
            assert forall|k: (Address, U256)| k.0 == address implies !#[trigger] self.view().slots.contains_key(k) by {
                lemma_pairs_map_keys(self.slots@, k);
            }
        }
    }

    /// Reads a loaded slot, marking it warm and journaling the warming when it
    /// was cold (and not in the access list). Fails when it is cold and cold
    /// loads are skipped. Returns its present value and whether it was cold.
    pub fn sload_loaded(&mut self, address: Address, key: U256, in_access_list: bool, skip_cold_load: bool) -> (r: Result<
        (U256, bool),
        JournalLoadError,
    >)
        requires
            old(self).wf(),
            old(self).view().accounts.contains_key(address),
            old(self).view().slots.contains_key((address, key)),
        ensures
            final(self).wf(),
            ({
                let slot = old(self).view().slots[(address, key)];
                let is_cold = slot.is_cold && !in_access_list;
                if is_cold && skip_cold_load {
                    &&& r == Err::<(U256, bool), JournalLoadError>(JournalLoadError::ColdLoadSkipped)
                    &&& final(self).view() == old(self).view()
                    &&& final(self).journal == old(self).journal
                } else {
                    &&& r == Ok::<(U256, bool), JournalLoadError>(sload_result(old(self).view().slots, address, key, in_access_list))
                    &&& final(self).view() == (JournalView {
                        slots: old(self).view().slots.insert((address, key), StorageSlotState { is_cold: false, ..slot }),
                        ..old(self).view()
                    })
                    &&& final(self).journal@ == if is_cold {
                        old(self).journal@.push(JournalEntry::StorageWarmed { key, address })
                    } else {
                        old(self).journal@
                    }
                }
            }),
            undoable(old(self).view(), final(self).view(), final(self).journal@.skip(old(self).journal@.len() as int), old(self).sd()),
            final(self).logs == old(self).logs,
            final(self).depth == old(self).depth,
            final(self).spec == old(self).spec,
    {
        let ghost v0 = self.view();
        let ghost n = self.journal@.len();
        let i = self.find_slot(address, key).unwrap();
        let slot = self.slots[i].1;
        let is_cold = slot.is_cold && !in_access_list;
        if is_cold && skip_cold_load {
            proof {
                assert(self.journal@.skip(n as int) =~= Seq::<JournalEntry>::empty());
                lemma_agrees_refl(v0);
            }
            return Err(JournalLoadError::ColdLoadSkipped);
        }
        self.put_slot(i, StorageSlotState { is_cold: false, ..slot });
        if is_cold {
            self.journal.push(JournalEntry::StorageWarmed { key, address });
        }
        proof {
            let after = self.view();
            let entries = self.journal@.skip(n as int);
            reveal(revert_entry);
            reveal_with_fuel(revert_entries, 2);
            if is_cold {
                assert(entries =~= seq![JournalEntry::StorageWarmed { key, address }]);
                assert(entries.drop_last() =~= Seq::<JournalEntry>::empty());
            } else {
                assert(entries =~= Seq::<JournalEntry>::empty());
            }
            let r = revert_entries(after, entries, self.sd());
            assert forall|k: (Address, U256)| #[trigger] v0.slots.contains_key(k) implies r.slots.contains_key(k)
                && r.slots[k].present_value == v0.slots[k].present_value && r.slots[k].original_value
                == v0.slots[k].original_value by {
            }
        }
        Ok((slot.present_value, is_cold))
    }

    /// Loads a slot that is not loaded yet with `value` (from the database, or
    /// zero for a created account), journaling the warming when it is cold (not
    /// in the access list). Fails when it is cold and cold loads are skipped.
    pub fn sload_new(&mut self, address: Address, key: U256, value: U256, in_access_list: bool, skip_cold_load: bool) -> (r: Result<
        (U256, bool),
        JournalLoadError,
    >)
        requires
            old(self).wf(),
            old(self).view().accounts.contains_key(address),
            !old(self).view().slots.contains_key((address, key)),
        ensures
            final(self).wf(),
            if !in_access_list && skip_cold_load {
                &&& r == Err::<(U256, bool), JournalLoadError>(JournalLoadError::ColdLoadSkipped)
                &&& final(self).view() == old(self).view()
                &&& final(self).journal == old(self).journal
            } else {
                &&& r == Ok::<(U256, bool), JournalLoadError>((value, !in_access_list))
                &&& final(self).view() == (JournalView {
                    slots: old(self).view().slots.insert(
                        (address, key),
                        StorageSlotState { original_value: value, present_value: value, is_cold: false },
                    ),
                    ..old(self).view()
                })
                &&& final(self).journal@ == if !in_access_list {
                    old(self).journal@.push(JournalEntry::StorageWarmed { key, address })
                } else {
                    old(self).journal@
                }
            },
            undoable(old(self).view(), final(self).view(), final(self).journal@.skip(old(self).journal@.len() as int), old(self).sd()),
            final(self).logs == old(self).logs,
            final(self).depth == old(self).depth,
            final(self).spec == old(self).spec,
    {
        let ghost v0 = self.view();
        let ghost n = self.journal@.len();
        let is_cold = !in_access_list;
        if is_cold && skip_cold_load {
            proof {
                assert(self.journal@.skip(n as int) =~= Seq::<JournalEntry>::empty());
                lemma_agrees_refl(v0);
            }
            return Err(JournalLoadError::ColdLoadSkipped);
        }
        let slot = StorageSlotState { original_value: value, present_value: value, is_cold: false };
        proof {
            lemma_pairs_map_push(self.slots@, (address, key), slot);
        }
        self.slots.push(((address, key), slot));
        if is_cold {
            self.journal.push(JournalEntry::StorageWarmed { key, address });
        }
        proof {
            let after = self.view();
            assert(after.slots =~= v0.slots.insert((address, key), slot));
            let entries = self.journal@.skip(n as int);
            reveal(revert_entry);
            reveal_with_fuel(revert_entries, 2);
            if is_cold {
                assert(entries =~= seq![JournalEntry::StorageWarmed { key, address }]);
                assert(entries.drop_last() =~= Seq::<JournalEntry>::empty());
            } else {
                assert(entries =~= Seq::<JournalEntry>::empty());
            }
            let r = revert_entries(after, entries, self.sd());
            assert forall|k: (Address, U256)| #[trigger] v0.slots.contains_key(k) implies r.slots.contains_key(k)
                && r.slots[k].present_value == v0.slots[k].present_value && r.slots[k].original_value
                == v0.slots[k].original_value by {
                assert(k != (address, key));
            }
        }
        Ok((value, is_cold))
    }
}

impl Journal {
    /// Replaces the slot at position `i` and journals `entry`, which undoes the
    /// replacement.
    fn apply_slot_journaled(&mut self, i: usize, slot: StorageSlotState, entry: JournalEntry)
        requires
            old(self).wf(),
            i < old(self).slots@.len(),
            entry_present(
                JournalView { slots: old(self).view().slots.insert(old(self).slots@[i as int].0, slot), ..old(self).view() },
                entry,
                old(self).sd(),
            ),
            agrees(
                revert_entry(
                    JournalView { slots: old(self).view().slots.insert(old(self).slots@[i as int].0, slot), ..old(self).view() },
                    entry,
                    old(self).sd(),
                ),
                old(self).view(),
            ),
        ensures
            final(self).wf(),
            final(self).view() == (JournalView {
                slots: old(self).view().slots.insert(old(self).slots@[i as int].0, slot),
                ..old(self).view()
            }),
            final(self).journal@ == old(self).journal@.push(entry),
            undoable(old(self).view(), final(self).view(), final(self).journal@.skip(old(self).journal@.len() as int), old(self).sd()),
            final(self).logs == old(self).logs,
            final(self).depth == old(self).depth,
            final(self).spec == old(self).spec,
    {
        let ghost n = self.journal@.len();
        self.put_slot(i, slot);
        self.journal.push(entry);
        proof {
            let entries = self.journal@.skip(n as int);
            assert(entries =~= seq![entry]);
            assert(entries.drop_last() =~= Seq::<JournalEntry>::empty());
            reveal_with_fuel(revert_entries, 2);
            assert(revert_entries(self.view(), entries, old(self).sd()) == revert_entry(self.view(), entry, old(self).sd()));
        }
    }

    /// Writes a loaded slot of a loaded account: touches the account, reads the
    /// slot (warming it), and journals the change when the value differs. Fails
    /// when the slot is cold and cold loads are skipped.
    pub fn sstore(&mut self, address: Address, key: U256, new: U256, in_access_list: bool, skip_cold_load: bool) -> (r: Result<
        SStoreResult,
        JournalLoadError,
    >)
        requires
            old(self).wf(),
            old(self).view().accounts.contains_key(address),
            old(self).view().slots.contains_key((address, key)),
        ensures
            final(self).wf(),
            final(self).view().accounts == old(self).view().accounts.insert(
                address,
                JournaledAccountState { touched: true, ..old(self).view().accounts[address] },
            ),
            ({
                let slot = old(self).view().slots[(address, key)];
                let is_cold = slot.is_cold && !in_access_list;
                if is_cold && skip_cold_load {
                    &&& r == Err::<SStoreResult, JournalLoadError>(JournalLoadError::ColdLoadSkipped)
                    &&& final(self).view().slots == old(self).view().slots
                } else {
                    &&& r == Ok::<SStoreResult, JournalLoadError>(SStoreResult {
                        original_value: slot.original_value,
                        present_value: slot.present_value,
                        new_value: new,
                        is_cold,
                    })
                    &&& final(self).view().slots == slots_after_sstore(old(self).view().slots, address, key, new)
                }
            }),
            final(self).view().transient == old(self).view().transient,
            final(self).journal@.len() >= old(self).journal@.len(),
            final(self).journal@.take(old(self).journal@.len() as int) == old(self).journal@,
            !(old(self).sd() && address == precompile3()) ==> undoable(
                old(self).view(),
                final(self).view(),
                final(self).journal@.skip(old(self).journal@.len() as int),
                old(self).sd(),
            ),
            final(self).logs == old(self).logs,
            final(self).depth == old(self).depth,
            final(self).spec == old(self).spec,
    {
        let ghost v0 = self.view();
        let ghost j0 = self.journal@;
        let ghost sd = old(self).sd();
        self.touch_account(address);
        let ghost v1 = self.view();
        let ghost j1 = self.journal@;
        let loaded = self.sload_loaded(address, key, in_access_list, skip_cold_load);
        let ghost v2 = self.view();
        let ghost j2 = self.journal@;
        proof {
            assert(self.journal@.take(j1.len() as int) =~= j1);
            if !(sd && address == precompile3()) {
                lemma_undoable_compose(v0, v1, v2, j0, j1, j2, sd);
            }
            assert(self.journal@.take(j0.len() as int) =~= j2.take(j1.len() as int).take(j0.len() as int));
        }
        let (present, is_cold) = match loaded {
            Err(e) => {
                return Err(e);
            },
            Ok(p) => p,
        };
        let i = self.find_slot(address, key).unwrap();
        let slot = self.slots[i].1;
        let result = SStoreResult { original_value: slot.original_value, present_value: present, new_value: new, is_cold };
        if present != new {
            let entry = JournalEntry::StorageChanged { key, had_value: present, address };
            proof {
                reveal(revert_entry);
                let after = JournalView { slots: v2.slots.insert((address, key), StorageSlotState { present_value: new, ..slot }), ..v2 };
                let r = revert_entry(after, entry, sd);
                assert forall|k: (Address, U256)| #[trigger] v2.slots.contains_key(k) implies r.slots.contains_key(k)
                    && r.slots[k].present_value == v2.slots[k].present_value && r.slots[k].original_value
                    == v2.slots[k].original_value by {
                }
            }
            self.apply_slot_journaled(i, StorageSlotState { present_value: new, ..slot }, entry);
            proof {
                assert(self.journal@.take(j2.len() as int) =~= j2);
                if !(sd && address == precompile3()) {
                    lemma_undoable_compose(v0, v2, self.view(), j0, j2, self.journal@, sd);
                }
                assert(self.journal@.take(j0.len() as int) =~= self.journal@.take(j2.len() as int).take(j0.len() as int));
            }
        }
        Ok(result)
    }
}

/// The account after a creation marked it created here: created (globally and
/// locally), with nonce 1 from Spurious Dragon.
pub open spec fn created_account(a: JournaledAccountState, sd_at_creation: bool) -> JournaledAccountState {
    JournaledAccountState {
        created: true,
        created_locally: true,
        nonce: if sd_at_creation {
            1
        } else {
            a.nonce
        },
        ..a
    }
}

impl Journal {
    /// Credits a created account with the endowment paid by its creator and
    /// journals the transfer.
    fn fund_created(&mut self, caller: Address, address: Address, balance: U256, funded: U256)
        requires
            old(self).wf(),
            old(self).view().accounts.contains_key(caller),
            old(self).view().accounts.contains_key(address),
            funded.value() == old(self).view().accounts[address].balance.value() + balance.value(),
        ensures
            final(self).wf(),
            final(self).view().accounts.dom() == old(self).view().accounts.dom(),
            forall|x: Address|
                x != caller && x != address && #[trigger] old(self).view().accounts.contains_key(x)
                    ==> final(self).view().accounts[x] == old(self).view().accounts[x],
            final(self).view().accounts[address] == (JournaledAccountState {
                balance: final(self).view().accounts[address].balance,
                ..old(self).view().accounts[address]
            }),
            final(self).view().accounts[caller] == (JournaledAccountState {
                balance: final(self).view().accounts[caller].balance,
                ..old(self).view().accounts[caller]
            }),
            caller != address ==> final(self).view().accounts[address].balance == funded,
            caller != address ==> final(self).view().accounts[caller].balance.value() == wrapping_sub_spec(
                old(self).view().accounts[caller].balance.value(),
                balance.value(),
            ),
            caller == address ==> final(self).view().accounts[address].balance.value() == wrapping_sub_spec(
                funded.value(),
                balance.value(),
            ),
            final(self).view().slots == old(self).view().slots,
            final(self).view().transient == old(self).view().transient,
            final(self).journal@ == old(self).journal@.push(JournalEntry::BalanceTransfer { from: caller, to: address, balance }),
            final(self).logs == old(self).logs,
            final(self).depth == old(self).depth,
            final(self).spec == old(self).spec,
    {
        let i = self.find_account(address).unwrap();
        let target = self.accounts[i].1;
        self.put_account(i, JournaledAccountState { balance: funded, ..target });
        let j = self.find_account(caller).unwrap();
        let payer = self.accounts[j].1;
        let paid = u256_wrapping_sub(payer.balance, balance);
        self.put_account(j, JournaledAccountState { balance: paid, ..payer });
        let entry = JournalEntry::BalanceTransfer { from: caller, to: address, balance };
        self.journal.push(entry);
        proof {
            assert(self.view().accounts.dom() =~= old(self).view().accounts.dom());
        }
    }

    /// Marks a loaded account created here and journals it; the nonce becomes 1
    /// from Spurious Dragon (at the creation's hardfork).
    fn mark_created(&mut self, address: Address, sd_at_creation: bool)
        requires
            old(self).wf(),
            old(self).view().accounts.contains_key(address),
            old(self).view().accounts[address].nonce == 0,
        ensures
            final(self).wf(),
            final(self).view() == with_account(
                old(self).view(),
                address,
                created_account(old(self).view().accounts[address], sd_at_creation),
            ),
            final(self).journal@ == old(self).journal@.push(JournalEntry::AccountCreated {
                address,
                is_created_globally: !old(self).view().accounts[address].created,
            }),
            !old(self).view().accounts[address].created_locally ==> undoable(
                old(self).view(),
                final(self).view(),
                final(self).journal@.skip(old(self).journal@.len() as int),
                old(self).sd(),
            ),
            final(self).logs == old(self).logs,
            final(self).depth == old(self).depth,
            final(self).spec == old(self).spec,
    {
        let i = self.find_account(address).unwrap();
        let account = self.accounts[i].1;
        let is_created_globally = !account.created;
        let next = JournaledAccountState {
            created: true,
            created_locally: true,
            nonce: if sd_at_creation {
                1
            } else {
                account.nonce
            },
            ..account
        };
        let entry = JournalEntry::AccountCreated { address, is_created_globally };
        if !account.created_locally {
            proof {
                reveal(revert_entry);
                let after = with_account(self.view(), address, next);
                assert(revert_entry(after, entry, self.sd()).accounts =~= self.view().accounts);
            }
            self.apply_journaled(i, next, entry);
        } else {
            self.put_account(i, next);
            self.journal.push(entry);
        }
    }

    /// Starts the creation of a contract at a loaded `address` by a loaded
    /// `caller` with an endowment: a checkpoint, then the account is marked
    /// created, touched and funded. An account with code or a nonce collides; an
    /// endowment that would overflow the account's balance fails. Either failure
    /// reverts to the checkpoint.
    #[verifier::rlimit(100)]
    #[verifier::spinoff_prover]
    pub fn create_account_checkpoint(&mut self, caller: Address, address: Address, balance: U256, spec_id: SpecId) -> (r: Result<
        JournalCheckpoint,
        TransferError,
    >)
        requires
            old(self).wf(),
            old(self).depth < usize::MAX,
            old(self).view().accounts.contains_key(caller),
            old(self).view().accounts.contains_key(address),
        ensures
            final(self).wf(),
            ({
                let target = old(self).view().accounts[address];
                let sd_at_creation = spec_id.rank() >= SpecId::SPURIOUS_DRAGON.rank();
                if target.code_hash != keccak_empty() || target.nonce != 0 {
                    &&& r == Err::<JournalCheckpoint, TransferError>(TransferError::CreateCollision)
                    &&& final(self).view() == old(self).view()
                    &&& final(self).journal@ == old(self).journal@
                    &&& final(self).depth == old(self).depth
                } else if target.balance.value() + balance.value() > u256_max() {
                    &&& r == Err::<JournalCheckpoint, TransferError>(TransferError::OverflowPayment)
                    &&& final(self).journal@ == old(self).journal@
                    &&& final(self).depth == old(self).depth
                    &&& final(self).view().accounts.dom() == old(self).view().accounts.dom()
                    &&& forall|x: Address| #[trigger] old(self).view().accounts.contains_key(x)
                        ==> final(self).view().accounts[x].balance == old(self).view().accounts[x].balance
                        && final(self).view().accounts[x].nonce == old(self).view().accounts[x].nonce
                    &&& !target.created_locally && !(old(self).sd() && address == precompile3()) ==> agrees(
                        final(self).view(),
                        old(self).view(),
                    )
                } else {
                    &&& r == Ok::<JournalCheckpoint, TransferError>(
                        JournalCheckpoint { log_i: old(self).logs@.len() as usize, journal_i: old(self).journal@.len() as usize },
                    )
                    &&& final(self).depth == old(self).depth + 1
                    &&& final(self).journal@.len() >= old(self).journal@.len()
                    &&& final(self).journal@.take(old(self).journal@.len() as int) == old(self).journal@
                    &&& final(self).view().accounts[address].created
                    &&& final(self).view().accounts[address].created_locally
                    &&& final(self).view().accounts[address].touched
                    &&& final(self).view().accounts[address].nonce == if sd_at_creation {
                        1u64
                    } else {
                        0u64
                    }
                    &&& caller != address ==> final(self).view().accounts[address].balance.value() == target.balance.value()
                        + balance.value()
                    &&& caller != address ==> final(self).view().accounts[caller].balance.value() == wrapping_sub_spec(
                        old(self).view().accounts[caller].balance.value(),
                        balance.value(),
                    )
                    &&& caller == address ==> final(self).view().accounts[address].balance == target.balance
                    &&& !target.created_locally && !(old(self).sd() && address == precompile3()) && (balance.value()
                        != 0 ==> caller != address && balance.value() <= old(self).view().accounts[caller].balance.value())
                        ==> undoable(
                        old(self).view(),
                        final(self).view(),
                        final(self).journal@.skip(old(self).journal@.len() as int),
                        old(self).sd(),
                    )
                }
            }),
            final(self).logs@ == old(self).logs@,
            final(self).spec == old(self).spec,
    {
        let ghost v0 = self.view();
        let ghost j0 = self.journal@;
        let ghost sd = old(self).sd();
        let checkpoint = self.checkpoint();
        let i = self.find_account(address).unwrap();
        let target = self.accounts[i].1;
        if target.code_hash != keccak_empty_hash() || target.nonce != 0 {
            self.checkpoint_revert(checkpoint);
            return Err(TransferError::CreateCollision);
        }
        let sd_at_creation = spec_id.is_enabled_in(SpecId::SPURIOUS_DRAGON);
        self.mark_created(address, sd_at_creation);
        let ghost v1 = self.view();
        let ghost j1 = self.journal@;
        self.touch_account(address);
        let ghost v2 = self.view();
        let ghost j2 = self.journal@;
        proof {
            assert(j1.take(j0.len() as int) =~= j0);
            assert(self.journal@.take(j1.len() as int) =~= j1);
            assert(j2.take(j0.len() as int) =~= j2.take(j1.len() as int).take(j0.len() as int));
            if !target.created_locally && !(sd && address == precompile3()) {
                assert(undoable(v0, v2, j2.skip(j0.len() as int), sd)) by {
                    lemma_undoable_compose(v0, v1, v2, j0, j1, j2, sd);
                }
            }
        }
        if balance.is_zero() {
            proof {
                lemma_value_nonneg_parts(target.balance);
                lemma_value_nonneg_parts(v0.accounts[caller].balance);
                lemma_wrapping_inverse_sub(v0.accounts[caller].balance.value(), 0);
            }
            return Ok(checkpoint);
        }
        let funded = match u256_checked_add(target.balance, balance) {
            None => {
                proof {
                    assert forall|k: int| checkpoint.journal_i <= k < self.journal@.len() implies entry_present(
                        self.view(),
                        #[trigger] self.journal@[k],
                        self.sd(),
                    ) by {
                        assert(k == j0.len() || k == j0.len() + 1);
                    }
                }
                let ghost reverted_from = self.view();
                self.checkpoint_revert(checkpoint);
                proof {
                    assert(self.journal@ =~= j0);
                    assert(reverted_from == v2);
                    assert(self.view() == revert_entries(v2, j2.skip(j0.len() as int), sd));
                    assert(self.view().accounts.dom() == v0.accounts.dom() && forall|x: Address|
                        #[trigger] v0.accounts.contains_key(x) ==> self.view().accounts[x].balance == v0.accounts[x].balance
                            && self.view().accounts[x].nonce == v0.accounts[x].nonce) by {
                        assert(target == v0.accounts[address]);
                        assert(j2.skip(j0.len() as int) =~= if target.touched {
                            seq![JournalEntry::AccountCreated { address, is_created_globally: !target.created }]
                        } else {
                            seq![
                                JournalEntry::AccountCreated { address, is_created_globally: !target.created },
                                JournalEntry::AccountTouched { address },
                            ]
                        });
                        lemma_creation_revert_keeps_values(v0, address, sd_at_creation, sd);
                    }
                    if !target.created_locally && !(sd && address == precompile3()) {
                        assert(agrees(self.view(), v0)) by {
                            assert(reverted_from == v2);
                            assert(self.view() == revert_entries(v2, j2.skip(j0.len() as int), sd));
                        }
                    }
                }
                return Err(TransferError::OverflowPayment);
            },
            Some(f) => f,
        };
        self.fund_created(caller, address, balance, funded);
        proof {
            if caller == address {
                assert(self.view().accounts[address].balance == target.balance) by {
                    lemma_value_nonneg_parts(funded);
                    lemma_value_nonneg_parts(target.balance);
                    lemma_wrapping_inverse_sub(funded.value(), balance.value());
                    crate::primitives::lemma_value_injective(self.view().accounts[address].balance, target.balance);
                }
            }
            assert(self.journal@.take(j2.len() as int) =~= j2);
            assert(self.journal@.take(j0.len() as int) =~= self.journal@.take(j2.len() as int).take(j0.len() as int));
            if !target.created_locally && !(sd && address == precompile3()) && caller != address
                && balance.value() <= v0.accounts[caller].balance.value() {
                assert(undoable(v0, self.view(), self.journal@.skip(j0.len() as int), sd)) by {
                    assert(v2.accounts[caller] == v0.accounts[caller]);
                    assert(self.journal@.skip(j2.len() as int) =~= seq![
                        JournalEntry::BalanceTransfer { from: caller, to: address, balance },
                    ]);
                    lemma_fund_undoable(v2, self.view(), caller, address, balance, funded, sd);
                    lemma_undoable_compose(v0, v2, self.view(), j0, j2, self.journal@, sd);
                }
            }
        }
        Ok(checkpoint)
    }
}

/// What a self-destruct reports.
#[derive(Clone, Copy, PartialEq, Eq, Structural, Debug)]
pub struct SelfDestructResult {
    pub had_value: bool,
    pub target_exists: bool,
    pub previously_destroyed: bool,
}

/// Whether an account counts as empty: from Spurious Dragon, no code, balance or
/// nonce; before, loaded as not existing and not touched since.
pub open spec fn state_clear_aware_is_empty(a: JournaledAccountState, sd: bool) -> bool {
    if sd {
        (a.code_hash == keccak_empty() || a.code_hash == B256 { w0: 0, w1: 0, w2: 0, w3: 0 }) && a.balance.value() == 0
            && a.nonce == 0
    } else {
        a.loaded_as_not_existing && !a.touched
    }
}

/// How a self-destruct of `a` will be undone.
pub open spec fn destroyed_status_of(a: JournaledAccountState) -> SelfdestructionRevertStatus {
    if !a.selfdestructed {
        SelfdestructionRevertStatus::GloballySelfdestroyed
    } else if !a.selfdestructed_locally {
        SelfdestructionRevertStatus::LocallySelfdestroyed
    } else {
        SelfdestructionRevertStatus::RepeatedSelfdestruction
    }
}

/// An operation that kept the loaded accounts and slots, and whose entries when
/// reverted give back the accounts, slots and transient storage, is undoable.
proof fn lemma_undone(before: JournalView, after: JournalView, entries: Seq<JournalEntry>, sd: bool)
    requires
        after.accounts.dom() == before.accounts.dom(),
        after.slots.dom() == before.slots.dom(),
        all_present(after, entries, sd),
        revert_entries(after, entries, sd).accounts == before.accounts,
        revert_entries(after, entries, sd).slots == before.slots,
        revert_entries(after, entries, sd).transient == before.transient,
    ensures
        undoable(before, after, entries, sd),
{
    lemma_agrees_refl(before);
}

/// What reverting a destruction does to the destroyed account and its target.
proof fn lemma_revert_destroyed(
    v: JournalView,
    had_balance: U256,
    address: Address,
    target: Address,
    destroyed_status: SelfdestructionRevertStatus,
    sd: bool,
)
    ensures
        ({
            let account = v.accounts[address];
            let v1 = with_account(
                v,
                address,
                undone_destroyed(account, word(wrapping_add_spec(account.balance.value(), had_balance.value())), destroyed_status),
            );
            revert_entry(v, JournalEntry::AccountDestroyed { had_balance, address, target, destroyed_status }, sd) == if address
                != target {
                with_balance(v1, target, word(wrapping_sub_spec(v1.accounts[target].balance.value(), had_balance.value())))
            } else {
                v1
            }
        }),
{
    reveal(revert_entry);
}

/// Adding then subtracting the same amount, both wrapped, gives back the number.
proof fn lemma_wrapping_add_sub(c: nat, b: nat)
    requires
        c <= u256_max(),
        b <= u256_max(),
    ensures
        wrapping_sub_spec(wrapping_add_spec(c, b), b) == c,
{
    let m = crate::primitives::word_modulus();
    let x = (c + b) as int;
    vstd::arithmetic::div_mod::lemma_sub_mod_noop(x, b as int, m);
    vstd::arithmetic::div_mod::lemma_small_mod(c, m as nat);
    vstd::arithmetic::div_mod::lemma_small_mod(b, m as nat);
    assert(wrapping_add_spec(c, b) == x % m);
}

/// The flags and balance that reverting a destruction puts back on the account.
pub open spec fn undone_destroyed(
    account: JournaledAccountState,
    restored: U256,
    status: SelfdestructionRevertStatus,
) -> JournaledAccountState {
    let flagged = match status {
        SelfdestructionRevertStatus::GloballySelfdestroyed => JournaledAccountState {
            selfdestructed: false,
            selfdestructed_locally: false,
            ..account
        },
        SelfdestructionRevertStatus::LocallySelfdestroyed => JournaledAccountState {
            selfdestructed_locally: false,
            ..account
        },
        SelfdestructionRevertStatus::RepeatedSelfdestruction => account,
    };
    JournaledAccountState { balance: restored, ..flagged }
}

/// Reverting the destruction of an account gives it back, when it was not marked
/// destroyed locally without being marked destroyed.
proof fn lemma_undone_destroyed(a: JournaledAccountState, zero: U256, restored: U256)
    requires
        a.selfdestructed_locally ==> a.selfdestructed,
        restored == a.balance,
    ensures
        undone_destroyed(
            JournaledAccountState { selfdestructed: true, selfdestructed_locally: true, balance: zero, ..a },
            restored,
            destroyed_status_of(a),
        ) == a,
{
}

/// Undoing the destruction of an account in favour of a distinct target credited
/// with its balance (`credited`), when the account is not marked destroyed
/// locally without being marked destroyed.
#[verifier::rlimit(30)]
proof fn lemma_destroy_undoable(
    before: JournalView,
    address: Address,
    target: Address,
    credited: U256,
    zero: U256,
    sd: bool,
)
    requires
        before.accounts.contains_key(address),
        before.accounts.contains_key(target),
        address != target,
        before.accounts[address].selfdestructed_locally ==> before.accounts[address].selfdestructed,
        credited.value() == wrapping_add_spec(before.accounts[target].balance.value(), before.accounts[address].balance.value()),
        zero.value() == 0,
    ensures
        ({
            let a = before.accounts[address];
            let mid = with_account(before, target, JournaledAccountState { balance: credited, ..before.accounts[target] });
            undoable(
                before,
                with_account(mid, address, JournaledAccountState { selfdestructed: true, selfdestructed_locally: true, balance: zero, ..a }),
                seq![
                    JournalEntry::AccountDestroyed {
                        had_balance: a.balance,
                        address,
                        target,
                        destroyed_status: destroyed_status_of(a),
                    },
                ],
                sd,
            )
        }),
{
    let a = before.accounts[address];
    let t = before.accounts[target];
    let mid = with_account(before, target, JournaledAccountState { balance: credited, ..t });
    let destroyed = JournaledAccountState { selfdestructed: true, selfdestructed_locally: true, balance: zero, ..a };
    let after = with_account(mid, address, destroyed);
    let status = destroyed_status_of(a);
    let e = JournalEntry::AccountDestroyed { had_balance: a.balance, address, target, destroyed_status: status };
    let entries = seq![e];
    assert(revert_entries(after, entries, sd) == revert_entry(after, e, sd)) by {
        assert(entries.drop_last() =~= Seq::<JournalEntry>::empty());
        reveal_with_fuel(revert_entries, 2);
    }
    let restored = word(wrapping_add_spec(zero.value(), a.balance.value()));
    assert(restored == a.balance) by {
        lemma_value_nonneg_parts(a.balance);
        lemma_wrapping_inverse(0, a.balance.value());
        lemma_word(a.balance);
    }
    let tb = word(wrapping_sub_spec(credited.value(), a.balance.value()));
    assert(tb == t.balance) by {
        lemma_value_nonneg_parts(a.balance);
        lemma_value_nonneg_parts(t.balance);
        lemma_wrapping_add_sub(t.balance.value(), a.balance.value());
        lemma_word(t.balance);
    }
    let undone = undone_destroyed(destroyed, restored, status);
    lemma_undone_destroyed(a, zero, restored);
    let v1 = with_account(after, address, undone);
    assert(v1.accounts[target].balance == credited);
    let r = with_balance(v1, target, tb);
    assert(revert_entry(after, e, sd) == r) by {
        lemma_revert_destroyed(after, a.balance, address, target, status, sd);
    }
    assert(r.accounts =~= before.accounts);
    assert(after.accounts.dom() =~= before.accounts.dom());
    assert(all_present(after, entries, sd));
    lemma_undone(before, after, entries, sd);
}

/// Undoing a touch of a loaded account, unless it is the RIPEMD-160 precompile
/// after Spurious Dragon: the touch is journaled when the account was not
/// touched, and reverting it clears the flag again.
proof fn lemma_touch_undoable(before: JournalView, address: Address, sd: bool)
    requires
        before.accounts.contains_key(address),
        !(sd && address == precompile3()),
    ensures
        undoable(
            before,
            with_account(before, address, JournaledAccountState { touched: true, ..before.accounts[address] }),
            if before.accounts[address].touched {
                Seq::<JournalEntry>::empty()
            } else {
                seq![JournalEntry::AccountTouched { address }]
            },
            sd,
        ),
{
    let after = with_account(before, address, JournaledAccountState { touched: true, ..before.accounts[address] });
    if before.accounts[address].touched {
        assert(after.accounts =~= before.accounts);
        assert(revert_entries(after, Seq::<JournalEntry>::empty(), sd) == after);
        lemma_undone(before, after, Seq::<JournalEntry>::empty(), sd);
    } else {
        let e = JournalEntry::AccountTouched { address };
        let entries = seq![e];
        assert(revert_entries(after, entries, sd) == revert_entry(after, e, sd)) by {
            assert(entries.drop_last() =~= Seq::<JournalEntry>::empty());
            reveal_with_fuel(revert_entries, 2);
        }
        assert(revert_entry(after, e, sd) == with_account(after, address, JournaledAccountState { touched: false, ..after.accounts[address] })) by {
            reveal(revert_entry);
        }
        assert(revert_entry(after, e, sd).accounts =~= before.accounts);
        assert(after.accounts.dom() =~= before.accounts.dom());
        assert(all_present(after, entries, sd));
        lemma_undone(before, after, entries, sd);
    }
}

/// Undoing the destruction of an account in favour of itself.
#[verifier::rlimit(30)]
proof fn lemma_destroy_self_undoable(before: JournalView, address: Address, zero: U256, sd: bool)
    requires
        before.accounts.contains_key(address),
        before.accounts[address].selfdestructed_locally ==> before.accounts[address].selfdestructed,
        zero.value() == 0,
    ensures
        ({
            let a = before.accounts[address];
            undoable(
                before,
                with_account(before, address, JournaledAccountState { selfdestructed: true, selfdestructed_locally: true, balance: zero, ..a }),
                seq![
                    JournalEntry::AccountDestroyed {
                        had_balance: a.balance,
                        address,
                        target: address,
                        destroyed_status: destroyed_status_of(a),
                    },
                ],
                sd,
            )
        }),
{
    let a = before.accounts[address];
    let destroyed = JournaledAccountState { selfdestructed: true, selfdestructed_locally: true, balance: zero, ..a };
    let after = with_account(before, address, destroyed);
    let status = destroyed_status_of(a);
    let e = JournalEntry::AccountDestroyed { had_balance: a.balance, address, target: address, destroyed_status: status };
    let entries = seq![e];
    assert(revert_entries(after, entries, sd) == revert_entry(after, e, sd)) by {
        assert(entries.drop_last() =~= Seq::<JournalEntry>::empty());
        reveal_with_fuel(revert_entries, 2);
    }
    let restored = word(wrapping_add_spec(zero.value(), a.balance.value()));
    assert(restored == a.balance) by {
        lemma_value_nonneg_parts(a.balance);
        lemma_wrapping_inverse(0, a.balance.value());
        lemma_word(a.balance);
    }
    lemma_undone_destroyed(a, zero, restored);
    let r = with_account(after, address, undone_destroyed(destroyed, restored, status));
    assert(revert_entry(after, e, sd) == r) by {
        lemma_revert_destroyed(after, a.balance, address, address, status, sd);
    }
    assert(r.accounts =~= before.accounts);
    assert(after.accounts.dom() =~= before.accounts.dom());
    assert(all_present(after, entries, sd));
    lemma_undone(before, after, entries, sd);
}

/// Reverting the creation of an account (its creation entry and, when it was
/// not touched, its touch) gives every loaded account back its balance and nonce.
proof fn lemma_creation_revert_keeps_values(v0: JournalView, address: Address, sd_at_creation: bool, sd: bool)
    requires
        v0.accounts.contains_key(address),
        v0.accounts[address].nonce == 0,
    ensures
        ({
            let a = v0.accounts[address];
            let v1 = with_account(v0, address, created_account(a, sd_at_creation));
            let v2 = with_account(v1, address, JournaledAccountState { touched: true, ..v1.accounts[address] });
            let c = JournalEntry::AccountCreated { address, is_created_globally: !a.created };
            let entries = if a.touched {
                seq![c]
            } else {
                seq![c, JournalEntry::AccountTouched { address }]
            };
            let r = revert_entries(v2, entries, sd);
            &&& r.accounts.dom() == v0.accounts.dom()
            &&& forall|x: Address| #[trigger] v0.accounts.contains_key(x) ==> r.accounts[x].balance
                == v0.accounts[x].balance && r.accounts[x].nonce == v0.accounts[x].nonce
        }),
{
    reveal(revert_entry);
    let a = v0.accounts[address];
    let v1 = with_account(v0, address, created_account(a, sd_at_creation));
    let v2 = with_account(v1, address, JournaledAccountState { touched: true, ..v1.accounts[address] });
    let c = JournalEntry::AccountCreated { address, is_created_globally: !a.created };
    let t = JournalEntry::AccountTouched { address };
    let w = if a.touched {
        v2
    } else {
        revert_entry(v2, t, sd)
    };
    let entries = if a.touched {
        seq![c]
    } else {
        seq![c, t]
    };
    assert(revert_entries(v2, entries, sd) == revert_entry(w, c, sd)) by {
        reveal_with_fuel(revert_entries, 3);
        if a.touched {
            assert(entries.drop_last() =~= Seq::<JournalEntry>::empty());
        } else {
            assert(entries.drop_last() =~= seq![c]);
            assert(entries.drop_last().drop_last() =~= Seq::<JournalEntry>::empty());
        }
    }
    let r = revert_entry(w, c, sd);
    assert(w.accounts.dom() =~= v0.accounts.dom());
    assert(r.accounts.dom() =~= v0.accounts.dom());
    assert forall|x: Address| #[trigger] v0.accounts.contains_key(x) implies r.accounts[x].balance
        == v0.accounts[x].balance && r.accounts[x].nonce == v0.accounts[x].nonce by {
        if x != address {
            assert(w.accounts[x] == v0.accounts[x]);
        }
    }
}

/// Warming a cold account that is neither created nor self-destructed in this
/// transaction is undone by reverting its entry.
proof fn lemma_warm_undoable(before: JournalView, address: Address, sd: bool)
    requires
        before.accounts.contains_key(address),
        before.accounts[address].cold,
        !before.accounts[address].created_locally,
    ensures
        undoable(
            before,
            with_account(before, address, JournaledAccountState { cold: false, created_locally: false, ..before.accounts[address] }),
            seq![JournalEntry::AccountWarmed { address }],
            sd,
        ),
{
    let after = with_account(before, address, JournaledAccountState { cold: false, created_locally: false, ..before.accounts[address] });
    let e = JournalEntry::AccountWarmed { address };
    let entries = seq![e];
    assert(revert_entries(after, entries, sd) == revert_entry(after, e, sd)) by {
        assert(entries.drop_last() =~= Seq::<JournalEntry>::empty());
        reveal_with_fuel(revert_entries, 2);
    }
    assert(revert_entry(after, e, sd) == with_account(after, address, JournaledAccountState { cold: true, ..after.accounts[address] })) by {
        reveal(revert_entry);
    }
    assert(revert_entry(after, e, sd).accounts =~= before.accounts);
    assert(after.accounts.dom() =~= before.accounts.dom());
    assert(all_present(after, entries, sd));
    lemma_undone(before, after, entries, sd);
}

/// Funding a created account from a distinct caller that can pay is undone by
/// reverting its transfer entry.
#[verifier::rlimit(30)]
proof fn lemma_fund_undoable(
    v2: JournalView,
    v3: JournalView,
    caller: Address,
    address: Address,
    balance: U256,
    funded: U256,
    sd: bool,
)
    requires
        caller != address,
        v2.accounts.contains_key(caller),
        v2.accounts.contains_key(address),
        balance.value() <= v2.accounts[caller].balance.value(),
        funded.value() == v2.accounts[address].balance.value() + balance.value(),
        v3.accounts.dom() == v2.accounts.dom(),
        forall|x: Address|
            x != caller && x != address && #[trigger] v2.accounts.contains_key(x) ==> v3.accounts[x] == v2.accounts[x],
        v3.accounts[address] == (JournaledAccountState { balance: funded, ..v2.accounts[address] }),
        v3.accounts[caller] == (JournaledAccountState { balance: v3.accounts[caller].balance, ..v2.accounts[caller] }),
        v3.accounts[caller].balance.value() == wrapping_sub_spec(v2.accounts[caller].balance.value(), balance.value()),
        v3.slots == v2.slots,
        v3.transient == v2.transient,
    ensures
        undoable(v2, v3, seq![JournalEntry::BalanceTransfer { from: caller, to: address, balance }], sd),
{
    let debited = v3.accounts[caller].balance;
    assert(debited.value() + balance.value() == v2.accounts[caller].balance.value()) by {
        lemma_value_nonneg_parts(v2.accounts[caller].balance);
        lemma_wrapping_inverse_sub(v2.accounts[caller].balance.value(), balance.value());
    }
    lemma_transfer_undo(v2, caller, address, balance, debited, funded, sd);
    let w = with_account(
        with_account(v2, caller, JournaledAccountState { balance: debited, ..v2.accounts[caller] }),
        address,
        JournaledAccountState { balance: funded, ..v2.accounts[address] },
    );
    assert(v3.accounts =~= w.accounts);
    assert(v3 == w);
}

/// A self-destruct of `address` in favour of a distinct `target` is undone by
/// reverting what it journaled: the touch of the target (`j0` to `j1`), then the
/// destruction or the move of the balance (`j1` to `j2`). `vc` is the view after
/// the target was touched and credited, `v3` the final one. This holds when the
/// account is not marked destroyed locally without being marked destroyed, the
/// target is not the RIPEMD-160 precompile after Spurious Dragon, and the
/// credit does not overflow.
#[verifier::rlimit(30)]
proof fn lemma_selfdestruct_undoable(
    v0: JournalView,
    vc: JournalView,
    v3: JournalView,
    j0: Seq<JournalEntry>,
    j1: Seq<JournalEntry>,
    j2: Seq<JournalEntry>,
    address: Address,
    target: Address,
    sd: bool,
    destroys: bool,
)
    requires
        address != target,
        v0.accounts.contains_key(address),
        v0.accounts.contains_key(target),
        v0.accounts[address].selfdestructed_locally ==> v0.accounts[address].selfdestructed,
        !(sd && target == precompile3()),
        v0.accounts[target].balance.value() + v0.accounts[address].balance.value() <= u256_max(),
        vc.accounts == v0.accounts.insert(
            target,
            JournaledAccountState { touched: true, balance: vc.accounts[target].balance, ..v0.accounts[target] },
        ),
        vc.accounts[target].balance.value() == wrapping_add_spec(
            v0.accounts[target].balance.value(),
            v0.accounts[address].balance.value(),
        ),
        vc.slots == v0.slots,
        vc.transient == v0.transient,
        j1 == if v0.accounts[target].touched {
            j0
        } else {
            j0.push(JournalEntry::AccountTouched { address: target })
        },
        ({
            let acc = vc.accounts[address];
            if destroys {
                &&& v3 == with_account(
                    vc,
                    address,
                    JournaledAccountState { selfdestructed: true, selfdestructed_locally: true, balance: zero_word(), ..acc },
                )
                &&& j2 == j1.push(
                    JournalEntry::AccountDestroyed {
                        had_balance: acc.balance,
                        address,
                        target,
                        destroyed_status: destroyed_status_of(acc),
                    },
                )
            } else {
                &&& v3 == with_account(vc, address, JournaledAccountState { balance: zero_word(), ..acc })
                &&& j2 == j1.push(JournalEntry::BalanceTransfer { from: address, to: target, balance: acc.balance })
            }
        }),
    ensures
        j2.take(j0.len() as int) == j0,
        undoable(v0, v3, j2.skip(j0.len() as int), sd),
{
    let a = v0.accounts[address];
    let t = v0.accounts[target];
    let credited = vc.accounts[target].balance;
    let zero = zero_word();
    let vt = with_account(v0, target, JournaledAccountState { touched: true, ..t });
    lemma_touch_undoable(v0, target, sd);
    assert(j1.skip(j0.len() as int) =~= if t.touched {
        Seq::<JournalEntry>::empty()
    } else {
        seq![JournalEntry::AccountTouched { address: target }]
    });
    assert(j1.take(j0.len() as int) =~= j0);
    let mid = with_account(vt, target, JournaledAccountState { balance: credited, ..vt.accounts[target] });
    assert(mid.accounts =~= vc.accounts);
    assert(mid == vc);
    assert(vc.accounts[address] == a);
    if destroys {
        lemma_destroy_undoable(vt, address, target, credited, zero, sd);
    } else {
        assert(credited.value() == t.balance.value() + a.balance.value()) by {
            lemma_wrapping_inverse(t.balance.value(), a.balance.value());
        }
        lemma_transfer_undo(vt, address, target, a.balance, zero, credited, sd);
        assert(v3.accounts =~= with_account(
            with_account(vt, address, JournaledAccountState { balance: zero, ..vt.accounts[address] }),
            target,
            JournaledAccountState { balance: credited, ..vt.accounts[target] },
        ).accounts);
    }
    assert(j2.skip(j1.len() as int) =~= seq![j2.last()]);
    assert(j2.take(j1.len() as int) =~= j1);
    lemma_undoable_compose(v0, vt, v3, j0, j1, j2, sd);
}

impl Journal {
    /// Whether a loaded account counts as empty at the journal's hardfork.
    pub fn is_empty_account(&self, address: Address) -> (r: bool)
        requires
            self.wf(),
            self.view().accounts.contains_key(address),
        ensures
            r == state_clear_aware_is_empty(self.view().accounts[address], self.sd()),
    {
        let i = self.find_account(address).unwrap();
        let a = self.accounts[i].1;
        if self.spec.is_enabled_in(SpecId::SPURIOUS_DRAGON) {
            (a.code_hash == keccak_empty_hash() || a.code_hash == (B256 { w0: 0, w1: 0, w2: 0, w3: 0 })) && a.balance.is_zero()
                && a.nonce == 0
        } else {
            a.loaded_as_not_existing && !a.touched
        }
    }

    /// Touches the target of a self-destruct and credits it with the balance of
    /// the destroyed account.
    fn credit_target(&mut self, address: Address, target: Address)
        requires
            old(self).wf(),
            address != target,
            old(self).view().accounts.contains_key(address),
            old(self).view().accounts.contains_key(target),
        ensures
            final(self).wf(),
            final(self).view().accounts == old(self).view().accounts.insert(
                target,
                JournaledAccountState {
                    touched: true,
                    balance: final(self).view().accounts[target].balance,
                    ..old(self).view().accounts[target]
                },
            ),
            final(self).view().accounts[target].balance.value() == wrapping_add_spec(
                old(self).view().accounts[target].balance.value(),
                old(self).view().accounts[address].balance.value(),
            ),
            final(self).view().slots == old(self).view().slots,
            final(self).view().transient == old(self).view().transient,
            final(self).journal@.len() >= old(self).journal@.len(),
            final(self).journal@.take(old(self).journal@.len() as int) == old(self).journal@,
            final(self).journal@ == if old(self).view().accounts[target].touched {
                old(self).journal@
            } else {
                old(self).journal@.push(JournalEntry::AccountTouched { address: target })
            },
            final(self).logs == old(self).logs,
            final(self).depth == old(self).depth,
            final(self).spec == old(self).spec,
    {
        let i = self.find_account(address).unwrap();
        let acc_balance = self.accounts[i].1.balance;
        self.touch_account(target);
        let j = self.find_account(target).unwrap();
        let target_account = self.accounts[j].1;
        let credited = u256_wrapping_add(target_account.balance, acc_balance);
        self.put_account(j, JournaledAccountState { balance: credited, ..target_account });
        proof {
            assert(self.view().accounts =~= old(self).view().accounts.insert(
                target,
                JournaledAccountState { touched: true, balance: credited, ..old(self).view().accounts[target] },
            ));
        }
    }

    /// Empties a self-destructed account: one created in this transaction (or
    /// any before Cancun) is marked destroyed and emptied, journaled with how to
    /// undo it; otherwise, from Cancun, its balance is moved to a distinct target.
    /// Returns its balance and the undo status.
    fn empty_destroyed(&mut self, address: Address, target: Address) -> (r: (U256, SelfdestructionRevertStatus))
        requires
            old(self).wf(),
            old(self).view().accounts.contains_key(address),
        ensures
            final(self).wf(),
            ({
                let acc = old(self).view().accounts[address];
                let destroys = acc.created_locally || !(old(self).spec.rank() >= SpecId::CANCUN.rank());
                &&& r == (acc.balance, destroyed_status_of(acc))
                &&& if destroys {
                    &&& final(self).view() == with_account(
                        old(self).view(),
                        address,
                        JournaledAccountState {
                            selfdestructed: true,
                            selfdestructed_locally: true,
                            balance: zero_word(),
                            ..acc
                        },
                    )
                    &&& final(self).journal@ == old(self).journal@.push(
                        JournalEntry::AccountDestroyed {
                            had_balance: acc.balance,
                            address,
                            target,
                            destroyed_status: destroyed_status_of(acc),
                        },
                    )
                } else if address != target {
                    &&& final(self).view() == with_account(
                        old(self).view(),
                        address,
                        JournaledAccountState { balance: zero_word(), ..acc },
                    )
                    &&& final(self).journal@ == old(self).journal@.push(
                        JournalEntry::BalanceTransfer { from: address, to: target, balance: acc.balance },
                    )
                } else {
                    &&& final(self).view() == old(self).view()
                    &&& final(self).journal@ == old(self).journal@
                }
                &&& !destroys ==> final(self).view().accounts[address].selfdestructed == acc.selfdestructed
                    && final(self).view().accounts[address].selfdestructed_locally == acc.selfdestructed_locally
            }),
            final(self).logs == old(self).logs,
            final(self).depth == old(self).depth,
            final(self).spec == old(self).spec,
    {
        let i = self.find_account(address).unwrap();
        let acc = self.accounts[i].1;
        let balance = acc.balance;
        let destroyed_status = if !acc.selfdestructed {
            SelfdestructionRevertStatus::GloballySelfdestroyed
        } else if !acc.selfdestructed_locally {
            SelfdestructionRevertStatus::LocallySelfdestroyed
        } else {
            SelfdestructionRevertStatus::RepeatedSelfdestruction
        };
        let zero = U256 { l0: 0, l1: 0, l2: 0, l3: 0 };
        if acc.created_locally || !self.spec.is_enabled_in(SpecId::CANCUN) {
            self.put_account(i, JournaledAccountState { selfdestructed: true, selfdestructed_locally: true, balance: zero, ..acc });
            self.journal.push(JournalEntry::AccountDestroyed { had_balance: balance, address, target, destroyed_status });
        } else if address != target {
            self.put_account(i, JournaledAccountState { balance: zero, ..acc });
            self.journal.push(JournalEntry::BalanceTransfer { from: address, to: target, balance });
        }
        (balance, destroyed_status)
    }

    /// Self-destructs a loaded account in favour of a loaded target: the target
    /// is touched and credited with the balance. An account created in this
    /// transaction (or any account before Cancun) is marked destroyed and emptied;
    /// otherwise, from Cancun, only its balance moves. `is_cold` tells whether the
    /// target was cold when loaded.
    #[verifier::rlimit(80)]
    pub fn selfdestruct(&mut self, address: Address, target: Address, is_cold: bool) -> (r: (SelfDestructResult, bool))
        requires
            old(self).wf(),
            old(self).view().accounts.contains_key(address),
            old(self).view().accounts.contains_key(target),
        ensures
            final(self).wf(),
            ({
                let a = old(self).view().accounts[address];
                let t = old(self).view().accounts[target];
                let status = destroyed_status_of(a);
                let cancun = old(self).spec.rank() >= SpecId::CANCUN.rank();
                let destroys = a.created_locally || !cancun;
                &&& r.0 == SelfDestructResult {
                    had_value: a.balance.value() != 0,
                    target_exists: !state_clear_aware_is_empty(t, old(self).sd()),
                    previously_destroyed: status == SelfdestructionRevertStatus::RepeatedSelfdestruction,
                }
                &&& r.1 == is_cold
                &&& address != target ==> final(self).view().accounts[target].touched
                    && final(self).view().accounts[target].balance.value() == wrapping_add_spec(t.balance.value(), a.balance.value())
                &&& destroys ==> final(self).view().accounts[address].selfdestructed
                    && final(self).view().accounts[address].selfdestructed_locally
                    && final(self).view().accounts[address].balance.value() == 0
                    && final(self).journal@.last() == JournalEntry::AccountDestroyed {
                        had_balance: a.balance,
                        address,
                        target,
                        destroyed_status: status,
                    }
                &&& !destroys && address != target ==> final(self).view().accounts[address].balance.value() == 0
                    && final(self).journal@.last() == JournalEntry::BalanceTransfer { from: address, to: target, balance: a.balance }
                &&& !destroys && address == target ==> final(self).view() == old(self).view()
                    && final(self).journal@ == old(self).journal@
                &&& !destroys ==> final(self).view().accounts[address].selfdestructed == a.selfdestructed
                    && final(self).view().accounts[address].selfdestructed_locally == a.selfdestructed_locally
                &&& (a.selfdestructed_locally ==> a.selfdestructed)
                    && !(old(self).sd() && target == precompile3() && address != target)
                    && (address != target ==> t.balance.value() + a.balance.value() <= u256_max())
                    ==> undoable(
                    old(self).view(),
                    final(self).view(),
                    final(self).journal@.skip(old(self).journal@.len() as int),
                    old(self).sd(),
                )
            }),
            final(self).view().accounts.dom() == old(self).view().accounts.dom(),
            final(self).view().slots == old(self).view().slots,
            final(self).view().transient == old(self).view().transient,
            final(self).journal@.len() >= old(self).journal@.len(),
            final(self).journal@.take(old(self).journal@.len() as int) == old(self).journal@,
            final(self).logs == old(self).logs,
            final(self).depth == old(self).depth,
            final(self).spec == old(self).spec,
    {
        let ghost j0 = self.journal@;
        let ghost v0 = self.view();
        let is_empty = self.is_empty_account(target);
        if address != target {
            self.credit_target(address, target);
        }
        let ghost vc = self.view();
        let ghost j1 = self.journal@;
        let (balance, destroyed_status) = self.empty_destroyed(address, target);
        proof {
            assert(self.journal@.take(j0.len() as int) =~= j0) by {
                assert(self.journal@.take(j1.len() as int) == j1);
                assert(j1.take(j0.len() as int) == j0);
                assert(self.journal@.take(j0.len() as int) =~= self.journal@.take(j1.len() as int).take(j0.len() as int));
            }
            if address != target {
                assert(vc.accounts[address] == v0.accounts[address]);
            }
            let a = v0.accounts[address];
            let sd = old(self).sd();
            let destroys = a.created_locally || !(old(self).spec.rank() >= SpecId::CANCUN.rank());
            if (a.selfdestructed_locally ==> a.selfdestructed) && !(sd && target == precompile3() && address != target)
                && (address != target ==> v0.accounts[target].balance.value() + a.balance.value() <= u256_max()) {
                if address != target {
                    lemma_selfdestruct_undoable(v0, vc, self.view(), j0, j1, self.journal@, address, target, sd, destroys);
                } else if destroys {
                    lemma_destroy_self_undoable(v0, address, zero_word(), sd);
                    assert(self.journal@.skip(j0.len() as int) =~= seq![
                        JournalEntry::AccountDestroyed {
                            had_balance: a.balance,
                            address,
                            target: address,
                            destroyed_status: destroyed_status_of(a),
                        },
                    ]);
                } else {
                    assert(self.journal@.skip(j0.len() as int) =~= Seq::<JournalEntry>::empty());
                    lemma_undone(v0, v0, Seq::<JournalEntry>::empty(), sd);
                }
            }
        }
        (
            SelfDestructResult {
                had_value: !balance.is_zero(),
                target_exists: !is_empty,
                previously_destroyed: match destroyed_status {
                    SelfdestructionRevertStatus::RepeatedSelfdestruction => true,
                    _ => false,
                },
            },
            is_cold,
        )
    }

    /// Journals the changes a transaction makes to its caller up front: the old
    /// balance, the touch, and the nonce bump of a call.
    pub fn caller_accounting_journal_entry(&mut self, address: Address, old_balance: U256, bump_nonce: bool)
        ensures
            final(self).journal@ == if bump_nonce {
                old(self).journal@.push(JournalEntry::BalanceChange { old_balance, address }).push(
                    JournalEntry::AccountTouched { address },
                ).push(JournalEntry::NonceBump { address })
            } else {
                old(self).journal@.push(JournalEntry::BalanceChange { old_balance, address }).push(
                    JournalEntry::AccountTouched { address },
                )
            },
            final(self).accounts == old(self).accounts,
            final(self).slots == old(self).slots,
            final(self).transient == old(self).transient,
            final(self).logs == old(self).logs,
            final(self).depth == old(self).depth,
            final(self).spec == old(self).spec,
    {
        self.journal.push(JournalEntry::BalanceChange { old_balance, address });
        self.journal.push(JournalEntry::AccountTouched { address });
        if bump_nonce {
            self.journal.push(JournalEntry::NonceBump { address });
        }
    }

    /// Journals a nonce bump made elsewhere.
    pub fn nonce_bump_journal_entry(&mut self, address: Address)
        ensures
            final(self).journal@ == old(self).journal@.push(JournalEntry::NonceBump { address }),
            final(self).accounts == old(self).accounts,
            final(self).slots == old(self).slots,
            final(self).transient == old(self).transient,
            final(self).logs == old(self).logs,
            final(self).depth == old(self).depth,
            final(self).spec == old(self).spec,
    {
        self.journal.push(JournalEntry::NonceBump { address });
    }

    /// Clears everything of the transaction but the journal, keeping the
    /// allocations for the next one.
    pub fn clear(&mut self)
        ensures
            final(self).accounts@ == Seq::<(Address, JournaledAccountState)>::empty(),
            final(self).slots@ == Seq::<((Address, U256), StorageSlotState)>::empty(),
            final(self).transient@ == Seq::<((Address, U256), U256)>::empty(),
            final(self).logs@ == Seq::<Log>::empty(),
            final(self).depth == 0,
            final(self).journal == old(self).journal,
            final(self).spec == old(self).spec,
            final(self).warm_addresses.coinbase == None::<Address>,
            final(self).warm_addresses.access_list@.len() == 0,
            final(self).warm_addresses.precompiles@ == old(self).warm_addresses.precompiles@,
    {
        self.warm_addresses.clear_coinbase_and_access_list();
        self.accounts.clear();
        self.slots.clear();
        self.logs.clear();
        self.transient.clear();
        self.depth = 0;
    }

    /// Takes the loaded state at the end of a transaction and resets the rest.
    /// Before Spurious Dragon a touched empty account that was neither destroyed
    /// nor created is kept as created when it was loaded as not existing, and
    /// as untouched otherwise.
    pub fn extract_state(&mut self) -> (r: (Vec<(Address, JournaledAccountState)>, Vec<((Address, U256), StorageSlotState)>))
        ensures
            r.0@.len() == old(self).accounts@.len(),
            forall|i: int|
                0 <= i < r.0@.len() ==> {
                    let (a0, s0) = old(self).accounts@[i];
                    let fix = !old(self).sd() && s0.touched && state_clear_aware_is_empty(s0, true) && !s0.selfdestructed
                        && !s0.created;
                    &&& (#[trigger] r.0@[i]).0 == a0
                    &&& r.0@[i].1 == if fix && s0.loaded_as_not_existing {
                        JournaledAccountState { created: true, ..s0 }
                    } else if fix {
                        JournaledAccountState { touched: false, ..s0 }
                    } else {
                        s0
                    }
                },
            r.1@ == old(self).slots@,
            final(self).accounts@ == Seq::<(Address, JournaledAccountState)>::empty(),
            final(self).slots@ == Seq::<((Address, U256), StorageSlotState)>::empty(),
            final(self).transient@ == Seq::<((Address, U256), U256)>::empty(),
            final(self).logs@ == Seq::<Log>::empty(),
            final(self).journal@ == Seq::<JournalEntry>::empty(),
            final(self).depth == 0,
            final(self).spec == old(self).spec,
            final(self).warm_addresses.coinbase == None::<Address>,
            final(self).warm_addresses.access_list@.len() == 0,
            final(self).warm_addresses.precompiles@ == old(self).warm_addresses.precompiles@,
    {
        self.warm_addresses.clear_coinbase_and_access_list();
        let sd = self.spec.is_enabled_in(SpecId::SPURIOUS_DRAGON);
        let mut accounts: Vec<(Address, JournaledAccountState)> = Vec::new();
        std::mem::swap(&mut accounts, &mut self.accounts);
        let mut slots: Vec<((Address, U256), StorageSlotState)> = Vec::new();
        std::mem::swap(&mut slots, &mut self.slots);
        let mut out: Vec<(Address, JournaledAccountState)> = Vec::new();
        let empty_code = keccak_empty_hash();
        let mut i: usize = 0;
        while i < accounts.len()
            invariant
                i <= accounts@.len(),
                accounts@ == old(self).accounts@,
                sd == old(self).sd(),
                empty_code == keccak_empty(),
                out@.len() == i,
                forall|k: int|
                    0 <= k < i ==> {
                        let (a0, s0) = old(self).accounts@[k];
                        let fix = !old(self).sd() && s0.touched && state_clear_aware_is_empty(s0, true) && !s0.selfdestructed
                            && !s0.created;
                        &&& (#[trigger] out@[k]).0 == a0
                        &&& out@[k].1 == if fix && s0.loaded_as_not_existing {
                            JournaledAccountState { created: true, ..s0 }
                        } else if fix {
                            JournaledAccountState { touched: false, ..s0 }
                        } else {
                            s0
                        }
                    },
            decreases accounts@.len() - i,
        {
            let (address, mut account) = accounts[i];
            let is_empty = (account.code_hash == empty_code || account.code_hash == (B256 { w0: 0, w1: 0, w2: 0, w3: 0 }))
                && account.balance.is_zero() && account.nonce == 0;
            if !sd && account.touched && is_empty && !account.selfdestructed && !account.created {
                if account.loaded_as_not_existing {
                    account.created = true;
                } else {
                    account.touched = false;
                }
            }
            out.push((address, account));
            proof {
                assert(out@[i as int] == (address, account));
            }
            i = i + 1;
        }
        self.logs.clear();
        self.transient.clear();
        self.journal.clear();
        self.depth = 0;
        (out, slots)
    }
}

} // verus!
