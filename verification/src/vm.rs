//! What an execution reads: the multi-version memory first, the chain state
//! before the block second, with the origin of every read recorded for later
//! validation. Lazily updated balances are fully evaluated when they are read.
use vstd::prelude::*;

use crate::collections::{
    read_accounts_contents, read_accounts_insert, read_accounts_new, read_origins_clone,
    read_origins_contents, read_origins_get, read_origins_len, read_origins_new, read_origins_push,
    read_set_contents, read_set_get, read_set_insert, read_set_new, ReadAccounts, ReadOrigins,
    ReadSet,
};
use crate::hashing::{hash_deterministic, location_hash, MemoryLocation, MemoryLocationHash};
use crate::mv_memory::{closest_below, lemma_closest_below, origins_match, read_still_valid, MvMemory};
use crate::primitives::{
    abs_diff_spec, saturating_add_spec, saturating_sub_spec, u256_abs_diff, u256_lt,
    u256_max, u256_saturating_add, u256_saturating_sub, Address, B256, U256,
};
use crate::types::{AccountBasic, MemoryEntry, MemoryValue, ReadOrigin, TxIdx, TxVersion};

verus! {

/// Errors when reading a memory location.
#[derive(Debug, Clone, PartialEq, Eq)]
pub enum ReadError {
    /// Cannot read memory location from storage.
    StorageError(String),
    /// This memory location has been written by a lower transaction.
    Blocking(TxIdx),
    /// There has been an inconsistent read like reading the same location from
    /// storage in the first call but from the multi-version memory in the next.
    InconsistentRead,
    /// Found an invalid nonce, like the first transaction of a sender not having
    /// a (+1) nonce from storage.
    InvalidNonce(TxIdx),
    /// Read a self-destructed account that is very hard to handle, as there is
    /// no performant way to mark all storage slots as cleared.
    SelfDestructedAccount,
    /// The bytecode is invalid and cannot be converted.
    InvalidBytecode,
    /// The stored memory value type doesn't match its location type.
    InvalidMemoryValueType,
}

/// A pending balance change of a lazily updated account: a signed amount and the
/// number of nonce increments of lazy senders.
#[derive(Clone, Copy, PartialEq, Eq, Structural, Debug)]
pub struct LazyDelta {
    pub positive: bool,
    pub amount: U256,
    pub nonce_addition: u64,
}

/// The pending change, as numbers.
pub struct DeltaSpec {
    pub positive: bool,
    pub amount: nat,
    pub nonce_addition: nat,
}

impl LazyDelta {
    pub open spec fn spec(self) -> DeltaSpec {
        DeltaSpec { positive: self.positive, amount: self.amount.value(), nonce_addition: self.nonce_addition as nat }
    }
}

/// No pending change.
pub open spec fn no_delta() -> DeltaSpec {
    DeltaSpec { positive: true, amount: 0, nonce_addition: 0 }
}

/// A lazy recipient adds `addition` to the pending change.
pub open spec fn recipient_step(d: DeltaSpec, addition: nat) -> DeltaSpec {
    if d.positive {
        DeltaSpec { amount: saturating_add_spec(d.amount, addition), ..d }
    } else {
        DeltaSpec { positive: addition >= d.amount, amount: abs_diff_spec(d.amount, addition), ..d }
    }
}

/// A lazy sender subtracts `subtraction` from the pending change and bumps the nonce.
pub open spec fn sender_step(d: DeltaSpec, subtraction: nat) -> DeltaSpec {
    if d.positive {
        DeltaSpec {
            positive: d.amount >= subtraction,
            amount: abs_diff_spec(d.amount, subtraction),
            nonce_addition: d.nonce_addition + 1,
        }
    } else {
        DeltaSpec {
            amount: saturating_add_spec(d.amount, subtraction),
            nonce_addition: d.nonce_addition + 1,
            ..d
        }
    }
}

/// How walking down the entries of a basic location ends.
pub enum WalkOutcome {
    /// An estimate of a lower transaction: wait for it.
    Blocked(TxIdx),
    /// The origins differ from those of an earlier read of the same location.
    Inconsistent,
    /// An entry that a basic location cannot hold.
    InvalidValue,
    /// The origins met on the way, the absolute account value found (if any), and
    /// the lazy updates above it.
    Done { origins: Seq<ReadOrigin>, account: Option<AccountBasic>, delta: DeltaSpec },
}

/// Walks down the entries of a basic location from the closest one below `bound`,
/// accumulating lazy updates until an absolute value or the bottom. `prev` holds
/// the origins of an earlier read of the same location in this execution, which
/// the new origins must repeat.
pub open spec fn walk(
    m: Map<TxIdx, MemoryEntry>,
    bound: int,
    prev: Option<Seq<ReadOrigin>>,
    origins: Seq<ReadOrigin>,
    delta: DeltaSpec,
) -> WalkOutcome
    decreases bound,
{
    match closest_below(m, bound) {
        None => WalkOutcome::Done { origins, account: None, delta },
        Some((k, MemoryEntry::Estimate)) => WalkOutcome::Blocked(k),
        Some((k, MemoryEntry::Data(incarnation, value))) => {
            let origin = ReadOrigin::MvMemory(TxVersion { tx_idx: k, tx_incarnation: incarnation });
            if prev is Some && (prev->0.len() == origins.len() || prev->0[origins.len() as int]
                != origin) {
                WalkOutcome::Inconsistent
            } else {
                proof {
                    lemma_closest_below(m, bound);
                }
                match value {
                    MemoryValue::Basic(basic) => WalkOutcome::Done {
                        origins: origins.push(origin),
                        account: Some(basic),
                        delta,
                    },
                    MemoryValue::LazyRecipient(addition) => walk(
                        m,
                        k as int,
                        prev,
                        origins.push(origin),
                        recipient_step(delta, addition.value()),
                    ),
                    MemoryValue::LazySender(subtraction) => walk(
                        m,
                        k as int,
                        prev,
                        origins.push(origin),
                        sender_step(delta, subtraction.value()),
                    ),
                    _ => WalkOutcome::InvalidValue,
                }
            }
        },
    }
}


/// The pending change as a signed amount.
pub open spec fn delta_value(d: DeltaSpec) -> int {
    if d.positive {
        d.amount as int
    } else {
        -(d.amount as int)
    }
}

/// The entry of `m` that a read origin names, if any.
pub open spec fn origin_entry(m: Map<TxIdx, MemoryEntry>, origin: ReadOrigin) -> Option<MemoryEntry> {
    match origin {
        ReadOrigin::MvMemory(v) => if m.contains_key(v.tx_idx) {
            Some(m[v.tx_idx])
        } else {
            None
        },
        ReadOrigin::Storage => None,
    }
}

/// The signed balance change of an entry: a lazy credit adds, a lazy debit
/// subtracts, anything else changes nothing.
pub open spec fn lazy_change(entry: Option<MemoryEntry>) -> int {
    match entry {
        Some(MemoryEntry::Data(_, MemoryValue::LazyRecipient(a))) => a.value() as int,
        Some(MemoryEntry::Data(_, MemoryValue::LazySender(s))) => -(s.value() as int),
        _ => 0,
    }
}

/// Whether an entry is a lazy debit, which also bumps the nonce.
pub open spec fn lazy_debit_count(entry: Option<MemoryEntry>) -> nat {
    match entry {
        Some(MemoryEntry::Data(_, MemoryValue::LazySender(_))) => 1,
        _ => 0,
    }
}

/// The total of the balance changes of the entries that `origins` name.
pub open spec fn changes_sum(m: Map<TxIdx, MemoryEntry>, origins: Seq<ReadOrigin>) -> int
    decreases origins.len(),
{
    if origins.len() == 0 {
        0
    } else {
        lazy_change(origin_entry(m, origins[0])) + changes_sum(m, origins.drop_first())
    }
}

/// The total size of the balance changes of the entries that `origins` name.
pub open spec fn changes_size(m: Map<TxIdx, MemoryEntry>, origins: Seq<ReadOrigin>) -> nat
    decreases origins.len(),
{
    if origins.len() == 0 {
        0
    } else {
        let c = lazy_change(origin_entry(m, origins[0]));
        (if c >= 0 { c } else { -c }) as nat + changes_size(m, origins.drop_first())
    }
}

/// The number of lazy debits among the entries that `origins` name.
pub open spec fn debits_count(m: Map<TxIdx, MemoryEntry>, origins: Seq<ReadOrigin>) -> nat
    decreases origins.len(),
{
    if origins.len() == 0 {
        0
    } else {
        lazy_debit_count(origin_entry(m, origins[0])) + debits_count(m, origins.drop_first())
    }
}

/// The sums over `origins` with one more origin in front.
proof fn lemma_sums_cons(m: Map<TxIdx, MemoryEntry>, o: ReadOrigin, rest: Seq<ReadOrigin>)
    ensures
        changes_sum(m, seq![o] + rest) == lazy_change(origin_entry(m, o)) + changes_sum(m, rest),
        changes_size(m, seq![o] + rest) == ({
            let c = lazy_change(origin_entry(m, o));
            (if c >= 0 { c } else { -c }) as nat
        }) + changes_size(m, rest),
        debits_count(m, seq![o] + rest) == lazy_debit_count(origin_entry(m, o)) + debits_count(m, rest),
{
    assert((seq![o] + rest).drop_first() =~= rest);
    assert((seq![o] + rest)[0] == o);
}

/// A credit adds to the signed pending change, while the total stays within a word.
proof fn lemma_recipient_step_value(d: DeltaSpec, addition: nat)
    requires
        d.amount + addition <= u256_max(),
    ensures
        delta_value(recipient_step(d, addition)) == delta_value(d) + addition,
        recipient_step(d, addition).nonce_addition == d.nonce_addition,
        recipient_step(d, addition).amount <= d.amount + addition,
{
}

/// A debit subtracts from the signed pending change and bumps the nonce count.
proof fn lemma_sender_step_value(d: DeltaSpec, subtraction: nat)
    requires
        d.amount + subtraction <= u256_max(),
    ensures
        delta_value(sender_step(d, subtraction)) == delta_value(d) - subtraction,
        sender_step(d, subtraction).nonce_addition == d.nonce_addition + 1,
        sender_step(d, subtraction).amount <= d.amount + subtraction,
{
}

/// The origins after `origins` in `os`, when `os` starts with `origins` and
/// then `origin`.
proof fn lemma_origins_after(os: Seq<ReadOrigin>, origins: Seq<ReadOrigin>, origin: ReadOrigin)
    requires
        os.len() >= origins.len() + 1,
        os.subrange(0, origins.len() + 1 as int) == origins.push(origin),
    ensures
        os.skip(origins.len() as int) =~= seq![origin] + os.skip(origins.len() + 1 as int),
        os.subrange(0, origins.len() as int) =~= origins,
{
    assert forall|i: int| 0 <= i <= origins.len() implies os[i] == origins.push(origin)[i] by {
        assert(os.subrange(0, origins.len() + 1 as int)[i] == os[i]);
    }
}

/// Walking down a basic location adds up the lazy updates it meets: the
/// signed amount of the pending change grows by every credit and shrinks by
/// every debit met between the reader and the absolute value below it, and
/// its nonce count grows by one per debit, as long as the amounts together
/// stay within a word (beyond that the change is held at the largest word).
/// The origins met are appended to those given.
#[verifier::rlimit(40)]
pub proof fn lemma_walk_adds_lazy_updates(
    m: Map<TxIdx, MemoryEntry>,
    bound: int,
    prev: Option<Seq<ReadOrigin>>,
    origins: Seq<ReadOrigin>,
    delta: DeltaSpec,
)
    ensures
        walk(m, bound, prev, origins, delta) matches WalkOutcome::Done { origins: os, delta: d, .. } ==> {
            &&& os.len() >= origins.len()
            &&& os.subrange(0, origins.len() as int) == origins
            &&& delta.amount + changes_size(m, os.skip(origins.len() as int)) <= u256_max() ==> {
                &&& delta_value(d) == delta_value(delta) + changes_sum(m, os.skip(origins.len() as int))
                &&& d.nonce_addition == delta.nonce_addition + debits_count(m, os.skip(origins.len() as int))
            }
        },
    decreases bound,
{
    match closest_below(m, bound) {
        None => {
            assert(origins.skip(origins.len() as int) =~= Seq::<ReadOrigin>::empty());
            assert(origins.subrange(0, origins.len() as int) =~= origins);
        },
        Some((k, MemoryEntry::Estimate)) => {},
        Some((k, MemoryEntry::Data(incarnation, value))) => {
            let origin = ReadOrigin::MvMemory(TxVersion { tx_idx: k, tx_incarnation: incarnation });
            lemma_closest_below(m, bound);
            let pushed = origins.push(origin);
            assert(origin_entry(m, origin) == Some(MemoryEntry::Data(incarnation, value)));
            if prev is Some && (prev->0.len() == origins.len() || prev->0[origins.len() as int] != origin) {
            } else {
                match value {
                    MemoryValue::Basic(basic) => {
                        assert(pushed.subrange(0, origins.len() + 1 as int) =~= pushed);
                        assert(pushed.skip(origins.len() + 1 as int) =~= Seq::<ReadOrigin>::empty());
                        lemma_origins_after(pushed, origins, origin);
                        lemma_sums_cons(m, origin, Seq::<ReadOrigin>::empty());
                    },
                    MemoryValue::LazyRecipient(addition) => {
                        let next = recipient_step(delta, addition.value());
                        lemma_walk_adds_lazy_updates(m, k as int, prev, pushed, next);
                        if let WalkOutcome::Done { origins: os, delta: d, .. } = walk(m, k as int, prev, pushed, next) {
                            let rest = os.skip(pushed.len() as int);
                            lemma_origins_after(os, origins, origin);
                            lemma_sums_cons(m, origin, rest);
                            if delta.amount + changes_size(m, os.skip(origins.len() as int)) <= u256_max() {
                                lemma_recipient_step_value(delta, addition.value());
                            }
                        }
                    },
                    MemoryValue::LazySender(subtraction) => {
                        let next = sender_step(delta, subtraction.value());
                        lemma_walk_adds_lazy_updates(m, k as int, prev, pushed, next);
                        if let WalkOutcome::Done { origins: os, delta: d, .. } = walk(m, k as int, prev, pushed, next) {
                            let rest = os.skip(pushed.len() as int);
                            lemma_origins_after(os, origins, origin);
                            lemma_sums_cons(m, origin, rest);
                            if delta.amount + changes_size(m, os.skip(origins.len() as int)) <= u256_max() {
                                lemma_sender_step_value(delta, subtraction.value());
                            }
                        }
                    },
                    _ => {},
                }
            }
        },
    }
}

/// The basic location of an address.
pub open spec fn basic_location(address: Address) -> MemoryLocationHash {
    location_hash(MemoryLocation::Basic(address), usize::BITS)
}

/// The code-hash location of an address.
pub open spec fn code_hash_location(address: Address) -> MemoryLocationHash {
    location_hash(MemoryLocation::CodeHash(address), usize::BITS)
}

/// The location of a storage slot.
pub open spec fn storage_location(address: Address, index: U256) -> MemoryLocationHash {
    location_hash(MemoryLocation::Storage(address, index), usize::BITS)
}

/// The origins to record after pushing `origin` onto `prev`: the first read
/// registers it, a later read must repeat the last origin.
pub open spec fn pushed_origins(prev: Seq<ReadOrigin>, origin: ReadOrigin) -> Option<Seq<ReadOrigin>> {
    if prev.len() == 0 {
        Some(seq![origin])
    } else if prev.last() == origin {
        Some(prev)
    } else {
        None
    }
}

/// The origins recorded so far for `location`, empty when none.
pub open spec fn origins_or_empty(reads: Map<MemoryLocationHash, Seq<ReadOrigin>>, location: MemoryLocationHash) -> Seq<ReadOrigin> {
    if reads.contains_key(location) {
        reads[location]
    } else {
        Seq::empty()
    }
}

/// The entries of `location`, empty when none.
pub open spec fn entries_or_empty(
    entries: Map<MemoryLocationHash, Map<TxIdx, MemoryEntry>>,
    location: MemoryLocationHash,
) -> Map<TxIdx, MemoryEntry> {
    if entries.contains_key(location) {
        entries[location]
    } else {
        Map::empty()
    }
}

/// Pushes a new read origin. Errors when there is already an origin that does
/// not match the new one, to force a re-execution.
pub fn push_origin(read_origins: &mut ReadOrigins, origin: ReadOrigin) -> (r: Result<(), ReadError>)
    ensures
        match pushed_origins(read_origins_contents(*old(read_origins)), origin) {
            Some(next) => r is Ok && read_origins_contents(*final(read_origins)) == next,
            None => r == Err::<(), ReadError>(ReadError::InconsistentRead) && read_origins_contents(*final(read_origins))
                == read_origins_contents(*old(read_origins)),
        },
{
    let n = read_origins_len(read_origins);
    if n > 0 {
        let prev_origin = read_origins_get(read_origins, n - 1);
        if prev_origin != origin {
            return Err(ReadError::InconsistentRead);
        }
    } else {
        read_origins_push(read_origins, origin);
        proof {
            assert(read_origins_contents(*read_origins) =~= seq![origin]);
        }
    }
    Ok(())
}

/// What a read of a code hash found in the multi-version memory.
#[derive(Clone, Copy, PartialEq, Eq, Structural, Debug)]
pub enum CodeHashRead {
    /// A lower transaction deployed this code hash.
    Found(B256),
    /// Fall back to the chain state before the block.
    FromStorage,
}

/// What a read of a storage slot found in the multi-version memory.
#[derive(Clone, Copy, PartialEq, Eq, Structural, Debug)]
pub enum StorageRead {
    /// A lower transaction wrote this value.
    Found(U256),
    /// Fall back to the chain state before the block.
    FromStorage,
}

/// What a read of a basic account found in the multi-version memory.
#[derive(Clone, Copy, PartialEq, Eq, Structural, Debug)]
pub enum BasicRead {
    /// The sender of a lazily updated raw transfer, mocked with the largest
    /// balance and the transaction's nonce; its balance is evaluated later.
    LazySender(AccountBasic),
    /// The recipient of a lazily updated raw transfer, read as missing.
    LazyRecipient,
    /// The walk down the entries ended: with an absolute account value found in
    /// memory, or with none (read the chain state next), and the lazy updates above.
    Walked { location: MemoryLocationHash, account: Option<AccountBasic>, delta: LazyDelta },
}

/// The database of one execution: it answers the reads of the EVM from the
/// multi-version memory and storage, and records the read set.
pub struct VmDb {
    pub tx_idx: TxIdx,
    pub caller: Address,
    /// The recipient of a call; `None` for a contract creation.
    pub to: Option<Address>,
    /// The nonce the transaction claims, when it claims one.
    pub tx_nonce: Option<u64>,
    pub from_hash: MemoryLocationHash,
    pub to_hash: Option<MemoryLocationHash>,
    pub to_code_hash: Option<B256>,
    /// Whether this transaction is updated lazily: only raw transfers' senders and
    /// recipients at the moment.
    pub is_lazy: bool,
    pub read_set: ReadSet,
    pub read_accounts: ReadAccounts,
}

impl VmDb {
    /// The sender and recipient locations are those of their addresses.
    pub open spec fn wf(&self) -> bool {
        &&& self.from_hash == basic_location(self.caller)
        &&& self.to_hash == match self.to {
            Some(to) => Some(basic_location(to)),
            None => None::<MemoryLocationHash>,
        }
    }

    pub fn new(tx_idx: TxIdx, caller: Address, to: Option<Address>, tx_nonce: Option<u64>) -> (r: VmDb)
        ensures
            r.wf(),
            r.tx_idx == tx_idx,
            r.caller == caller,
            r.to == to,
            r.tx_nonce == tx_nonce,
            r.to_code_hash is None,
            !r.is_lazy,
            read_set_contents(r.read_set) == crate::collections::no_reads(),
            read_accounts_contents(r.read_accounts) == crate::collections::no_read_accounts(),
    {
        let from_hash = hash_deterministic(MemoryLocation::Basic(caller));
        let to_hash = match to {
            Some(to) => Some(hash_deterministic(MemoryLocation::Basic(to))),
            None => None,
        };
        // Unless it is a raw transfer that is lazily updated, we read at least
        // from the sender and recipient accounts.
        VmDb {
            tx_idx,
            caller,
            to,
            tx_nonce,
            from_hash,
            to_hash,
            to_code_hash: None,
            is_lazy: false,
            read_set: read_set_new(),
            read_accounts: read_accounts_new(),
        }
    }

    /// The basic location of `address`, reusing the sender and recipient hashes.
    pub fn hash_basic(&self, address: &Address) -> (r: MemoryLocationHash)
        requires
            self.wf(),
        ensures
            r == basic_location(*address),
    {
        if *address == self.caller {
            return self.from_hash;
        }
        if let Some(to) = &self.to {
            if *to == *address {
                return self.to_hash.unwrap();
            }
        }
        hash_deterministic(MemoryLocation::Basic(*address))
    }

    /// The origins recorded for `location`, registering an empty list on the first read.
    fn origins_for(&mut self, location: MemoryLocationHash) -> (r: ReadOrigins)
        ensures
            read_origins_contents(r) == origins_or_empty(read_set_contents(old(self).read_set), location),
            read_set_contents(final(self).read_set) == read_set_contents(old(self).read_set).insert(
                location,
                origins_or_empty(read_set_contents(old(self).read_set), location),
            ),
            final(self).tx_idx == old(self).tx_idx,
            final(self).caller == old(self).caller,
            final(self).to == old(self).to,
            final(self).tx_nonce == old(self).tx_nonce,
            final(self).from_hash == old(self).from_hash,
            final(self).to_hash == old(self).to_hash,
            final(self).to_code_hash == old(self).to_code_hash,
            final(self).is_lazy == old(self).is_lazy,
            final(self).read_accounts == old(self).read_accounts,
    {
        match read_set_get(&self.read_set, location) {
            Some(origins) => {
                proof {
                    assert(read_set_contents(self.read_set).insert(location, read_origins_contents(origins))
                        =~= read_set_contents(self.read_set));
                }
                origins
            },
            None => {
                let origins = read_origins_new();
                read_set_insert(&mut self.read_set, location, read_origins_clone(&origins));
                origins
            },
        }
    }

    /// Reads the code hash of `address` from the multi-version memory: a code hash
    /// written by the closest lower transaction, or a fall back to storage.
    pub fn code_hash_from_memory(&mut self, mv: &MvMemory, address: &Address) -> (r: Result<CodeHashRead, ReadError>)
        ensures
            ({
                let location = code_hash_location(*address);
                let prev = origins_or_empty(read_set_contents(old(self).read_set), location);
                let closest = closest_below(entries_or_empty(mv.entries(), location), old(self).tx_idx as int);
                let reads = read_set_contents(old(self).read_set);
                match closest {
                    Some((k, MemoryEntry::Data(_, MemoryValue::SelfDestructed))) => r == Err::<CodeHashRead, ReadError>(
                        ReadError::SelfDestructedAccount,
                    ) && read_set_contents(final(self).read_set) == reads.insert(location, prev),
                    Some((k, MemoryEntry::Data(incarnation, MemoryValue::CodeHash(h)))) => {
                        let origin = ReadOrigin::MvMemory(TxVersion { tx_idx: k, tx_incarnation: incarnation });
                        match pushed_origins(prev, origin) {
                            Some(next) => r == Ok::<CodeHashRead, ReadError>(CodeHashRead::Found(h))
                                && read_set_contents(final(self).read_set) == reads.insert(location, next),
                            None => r == Err::<CodeHashRead, ReadError>(ReadError::InconsistentRead)
                                && read_set_contents(final(self).read_set) == reads.insert(location, prev),
                        }
                    },
                    _ => match pushed_origins(prev, ReadOrigin::Storage) {
                        Some(next) => r == Ok::<CodeHashRead, ReadError>(CodeHashRead::FromStorage)
                            && read_set_contents(final(self).read_set) == reads.insert(location, next),
                        None => r == Err::<CodeHashRead, ReadError>(ReadError::InconsistentRead)
                            && read_set_contents(final(self).read_set) == reads.insert(location, prev),
                    },
                }
            }),
            final(self).tx_idx == old(self).tx_idx,
            final(self).caller == old(self).caller,
            final(self).to == old(self).to,
            final(self).tx_nonce == old(self).tx_nonce,
            final(self).from_hash == old(self).from_hash,
            final(self).to_hash == old(self).to_hash,
            final(self).to_code_hash == old(self).to_code_hash,
            final(self).is_lazy == old(self).is_lazy,
            final(self).read_accounts == old(self).read_accounts,
    {
        let location = hash_deterministic(MemoryLocation::CodeHash(*address));
        let mut read_origins = self.origins_for(location);
        let ghost prev = read_origins_contents(read_origins);
        let ghost reads1 = read_set_contents(self.read_set);
        let closest = match mv.entry_below(location, self.tx_idx) {
            Some(c) => c,
            None => None,
        };
        // Try to read the latest code hash in the multi-version memory.
        if let Some((tx_idx, MemoryEntry::Data(tx_incarnation, value))) = closest {
            match value {
                MemoryValue::SelfDestructed => {
                    return Err(ReadError::SelfDestructedAccount);
                },
                MemoryValue::CodeHash(code_hash) => {
                    let pushed = push_origin(&mut read_origins, ReadOrigin::MvMemory(TxVersion { tx_idx, tx_incarnation }));
                    read_set_insert(&mut self.read_set, location, read_origins);
                    proof {
                        assert(reads1.insert(location, prev) =~= reads1);
                    }
                    match pushed {
                        Ok(()) => {
                            return Ok(CodeHashRead::Found(code_hash));
                        },
                        Err(e) => {
                            return Err(e);
                        },
                    }
                },
                _ => {},
            }
        }
        // Fall back to storage.
        let pushed = push_origin(&mut read_origins, ReadOrigin::Storage);
        read_set_insert(&mut self.read_set, location, read_origins);
        proof {
            assert(reads1.insert(location, prev) =~= reads1);
        }
        match pushed {
            Ok(()) => Ok(CodeHashRead::FromStorage),
            Err(e) => Err(e),
        }
    }

    /// Reads a storage slot from the multi-version memory: the value written by the
    /// closest lower transaction, or a fall back to storage.
    pub fn storage_from_memory(&mut self, mv: &MvMemory, address: &Address, index: &U256) -> (r: Result<StorageRead, ReadError>)
        ensures
            ({
                let location = storage_location(*address, *index);
                let prev = origins_or_empty(read_set_contents(old(self).read_set), location);
                let closest = closest_below(entries_or_empty(mv.entries(), location), old(self).tx_idx as int);
                let reads = read_set_contents(old(self).read_set);
                match closest {
                    Some((k, MemoryEntry::Data(incarnation, MemoryValue::Storage(v)))) => {
                        let origin = ReadOrigin::MvMemory(TxVersion { tx_idx: k, tx_incarnation: incarnation });
                        match pushed_origins(prev, origin) {
                            Some(next) => r == Ok::<StorageRead, ReadError>(StorageRead::Found(v))
                                && read_set_contents(final(self).read_set) == reads.insert(location, next),
                            None => r == Err::<StorageRead, ReadError>(ReadError::InconsistentRead)
                                && read_set_contents(final(self).read_set) == reads.insert(location, prev),
                        }
                    },
                    Some((k, MemoryEntry::Estimate)) => r == Err::<StorageRead, ReadError>(ReadError::Blocking(k))
                        && read_set_contents(final(self).read_set) == reads.insert(location, prev),
                    Some(_) => r == Err::<StorageRead, ReadError>(ReadError::InvalidMemoryValueType)
                        && read_set_contents(final(self).read_set) == reads.insert(location, prev),
                    None => match pushed_origins(prev, ReadOrigin::Storage) {
                        Some(next) => r == Ok::<StorageRead, ReadError>(StorageRead::FromStorage)
                            && read_set_contents(final(self).read_set) == reads.insert(location, next),
                        None => r == Err::<StorageRead, ReadError>(ReadError::InconsistentRead)
                            && read_set_contents(final(self).read_set) == reads.insert(location, prev),
                    },
                }
            }),
            final(self).tx_idx == old(self).tx_idx,
            final(self).caller == old(self).caller,
            final(self).to == old(self).to,
            final(self).tx_nonce == old(self).tx_nonce,
            final(self).from_hash == old(self).from_hash,
            final(self).to_hash == old(self).to_hash,
            final(self).to_code_hash == old(self).to_code_hash,
            final(self).is_lazy == old(self).is_lazy,
            final(self).read_accounts == old(self).read_accounts,
    {
        let location = hash_deterministic(MemoryLocation::Storage(*address, *index));
        let mut read_origins = self.origins_for(location);
        let ghost prev = read_origins_contents(read_origins);
        let ghost reads1 = read_set_contents(self.read_set);
        proof {
            assert(reads1.insert(location, prev) =~= reads1);
            lemma_closest_below(entries_or_empty(mv.entries(), location), 0);
        }
        // Try reading from the multi-version memory.
        if self.tx_idx > 0 {
            if let Some(Some((closest_idx, entry))) = mv.entry_below(location, self.tx_idx) {
                match entry {
                    MemoryEntry::Data(tx_incarnation, MemoryValue::Storage(value)) => {
                        let pushed = push_origin(
                            &mut read_origins,
                            ReadOrigin::MvMemory(TxVersion { tx_idx: closest_idx, tx_incarnation }),
                        );
                        read_set_insert(&mut self.read_set, location, read_origins);
                        return match pushed {
                            Ok(()) => Ok(StorageRead::Found(value)),
                            Err(e) => Err(e),
                        };
                    },
                    MemoryEntry::Estimate => {
                        return Err(ReadError::Blocking(closest_idx));
                    },
                    _ => {
                        return Err(ReadError::InvalidMemoryValueType);
                    },
                }
            }
        }
        // Fall back to storage.
        let pushed = push_origin(&mut read_origins, ReadOrigin::Storage);
        read_set_insert(&mut self.read_set, location, read_origins);
        match pushed {
            Ok(()) => Ok(StorageRead::FromStorage),
            Err(e) => Err(e),
        }
    }
}


/// The outcome of reading a basic account from the multi-version memory, and the
/// origins that the read set holds for its location afterwards.
pub open spec fn basic_read_spec(
    db: VmDb,
    entries: Map<MemoryLocationHash, Map<TxIdx, MemoryEntry>>,
    address: Address,
) -> (Result<(Option<AccountBasic>, DeltaSpec), ReadError>, Seq<ReadOrigin>) {
    let location = basic_location(address);
    let prev = origins_or_empty(read_set_contents(db.read_set), location);
    let has_prev = prev.len() > 0;
    let prior = if has_prev {
        Some(prev)
    } else {
        None
    };
    match walk(entries_or_empty(entries, location), db.tx_idx as int, prior, Seq::empty(), no_delta()) {
        WalkOutcome::Blocked(k) => (Err(ReadError::Blocking(k)), prev),
        WalkOutcome::Inconsistent => (Err(ReadError::InconsistentRead), prev),
        WalkOutcome::InvalidValue => (Err(ReadError::InvalidMemoryValueType), prev),
        WalkOutcome::Done { origins, account, delta } => {
            if account is None {
                if !has_prev {
                    (Ok((None, delta)), origins.push(ReadOrigin::Storage))
                } else if prev.len() != origins.len() + 1 || prev.last() != ReadOrigin::Storage {
                    (Err(ReadError::InconsistentRead), prev)
                } else {
                    (Ok((None, delta)), prev)
                }
            } else if !has_prev {
                (Ok((account, delta)), origins)
            } else {
                (Ok((account, delta)), prev)
            }
        },
    }
}

/// The account a read evaluates to, from the absolute value found (in memory or
/// storage) and the lazy updates above it: a missing account with a nonzero
/// pending amount counts as an empty one; the sender's nonce must match the
/// transaction's.
pub open spec fn resolve_spec(
    db: VmDb,
    location: MemoryLocationHash,
    found: Option<AccountBasic>,
    delta: DeltaSpec,
) -> Result<Option<(nat, u64)>, ReadError> {
    let base = match found {
        Some(a) => Some(a),
        None => if delta.amount > 0 {
            Some(AccountBasic { balance: U256 { l0: 0, l1: 0, l2: 0, l3: 0 }, nonce: 0 })
        } else {
            None
        },
    };
    match base {
        None => Ok(None),
        Some(account) => {
            let nonce = ((account.nonce + delta.nonce_addition) % 0x1_0000_0000_0000_0000) as u64;
            if location == db.from_hash && db.tx_nonce is Some && db.tx_nonce->0 != nonce {
                if db.tx_idx > 0 {
                    Err(ReadError::Blocking((db.tx_idx - 1) as TxIdx))
                } else {
                    Err(ReadError::InvalidNonce(db.tx_idx))
                }
            } else {
                let balance = if delta.positive {
                    saturating_add_spec(account.balance.value(), delta.amount)
                } else {
                    saturating_sub_spec(account.balance.value(), delta.amount)
                };
                Ok(Some((balance, nonce)))
            }
        },
    }
}

impl VmDb {
    /// Reads the basic account of `address` from the multi-version memory, fully
    /// evaluating lazy updates down to the first absolute value. The origins are
    /// checked against those of an earlier read of the same location, and
    /// registered on the first read.
    #[verifier::loop_isolation(false)]
    pub fn basic_from_memory(&mut self, mv: &MvMemory, address: &Address) -> (r: Result<BasicRead, ReadError>)
        requires
            old(self).wf(),
        ensures
            final(self).wf(),
            final(self).tx_idx == old(self).tx_idx,
            final(self).caller == old(self).caller,
            final(self).to == old(self).to,
            final(self).tx_nonce == old(self).tx_nonce,
            final(self).from_hash == old(self).from_hash,
            final(self).to_hash == old(self).to_hash,
            final(self).to_code_hash == old(self).to_code_hash,
            final(self).is_lazy == old(self).is_lazy,
            final(self).read_accounts == old(self).read_accounts,
            ({
                let location = basic_location(*address);
                if old(self).is_lazy && location == old(self).from_hash {
                    &&& r == Ok::<BasicRead, ReadError>(BasicRead::LazySender(AccountBasic {
                        balance: U256 { l0: u64::MAX, l1: u64::MAX, l2: u64::MAX, l3: u64::MAX },
                        nonce: match old(self).tx_nonce {
                            Some(n) => n,
                            None => 1u64,
                        },
                    }))
                    &&& final(self).read_set == old(self).read_set
                } else if old(self).is_lazy && Some(location) == old(self).to_hash {
                    &&& r == Ok::<BasicRead, ReadError>(BasicRead::LazyRecipient)
                    &&& final(self).read_set == old(self).read_set
                } else {
                    let (outcome, origins) = basic_read_spec(*old(self), mv.entries(), *address);
                    &&& read_set_contents(final(self).read_set) == read_set_contents(old(self).read_set).insert(location, origins)
                    &&& match outcome {
                        Ok((account, delta)) => r matches Ok(BasicRead::Walked { location: l, account: a, delta: d })
                            && l == location && a == account && d.spec() == delta,
                        Err(e) => r == Err::<BasicRead, ReadError>(e),
                    }
                }
            }),
    {
        let location = self.hash_basic(address);
        // We return a mock for non-contract addresses (for lazy updates) to avoid
        // unnecessarily evaluating their balance here.
        if self.is_lazy {
            if location == self.from_hash {
                let nonce = match self.tx_nonce {
                    Some(n) => n,
                    None => 1,
                };
                return Ok(BasicRead::LazySender(AccountBasic { balance: U256 { l0: u64::MAX, l1: u64::MAX, l2: u64::MAX, l3: u64::MAX }, nonce }));
            } else if Some(location) == self.to_hash {
                return Ok(BasicRead::LazyRecipient);
            }
        }
        let prev = self.origins_for(location);
        let ghost p = read_origins_contents(prev);
        let ghost reads1 = read_set_contents(self.read_set);
        let prev_len = read_origins_len(&prev);
        let has_prev = prev_len > 0;
        let ghost prior = if has_prev { Some(p) } else { None::<Seq<ReadOrigin>> };
        let ghost m = entries_or_empty(mv.entries(), location);
        let ghost total = walk(m, self.tx_idx as int, prior, Seq::empty(), no_delta());
        // We accumulate new origins to either match the previous origins or
        // register them on the first read.
        let mut new_origins = read_origins_new();
        let mut account: Option<AccountBasic> = None;
        let mut delta = LazyDelta { positive: true, amount: U256::zero(), nonce_addition: 0 };
        let mut done = self.tx_idx == 0;
        let mut bound: TxIdx = self.tx_idx;
        proof {
            lemma_closest_below(m, 0);
            assert(delta.spec() == no_delta());
            if done {
                assert(total == WalkOutcome::Done { origins: Seq::<ReadOrigin>::empty(), account: None, delta: no_delta() });
            }
        }
        while !done
            invariant
                self.wf(),
                bound <= self.tx_idx,
                delta.nonce_addition + bound <= self.tx_idx,
                read_origins_contents(new_origins).len() <= self.tx_idx,
                has_prev ==> read_origins_contents(new_origins).len() <= prev_len,
                !done ==> read_origins_contents(new_origins).len() + bound <= self.tx_idx,
                m == entries_or_empty(mv.entries(), location),
                p == read_origins_contents(prev),
                prev_len == p.len(),
                has_prev == (prev_len > 0),
                prior == if has_prev { Some(p) } else { None::<Seq<ReadOrigin>> },
                total == walk(m, self.tx_idx as int, prior, Seq::empty(), no_delta()),
                !done ==> account is None && total == walk(m, bound as int, prior, read_origins_contents(new_origins), delta.spec()),
                done ==> total == (WalkOutcome::Done { origins: read_origins_contents(new_origins), account, delta: delta.spec() }),
            decreases bound, (if done { 0int } else { 1int }),
        {
            let closest = match mv.entry_below(location, bound) {
                Some(c) => c,
                None => None,
            };
            proof {
                lemma_closest_below(m, bound as int);
            }
            match closest {
                None => {
                    done = true;
                },
                Some((blocking_idx, MemoryEntry::Estimate)) => {
                    return Err(ReadError::Blocking(blocking_idx));
                },
                Some((closest_idx, MemoryEntry::Data(tx_incarnation, value))) => {
                    let n = read_origins_len(&new_origins);
                    // Inconsistent: the new origins would be longer than the previous ones.
                    if has_prev && prev_len == n {
                        return Err(ReadError::InconsistentRead);
                    }
                    let origin = ReadOrigin::MvMemory(TxVersion { tx_idx: closest_idx, tx_incarnation });
                    // Inconsistent: the new origin differs from the previous one.
                    if has_prev && read_origins_get(&prev, n) != origin {
                        return Err(ReadError::InconsistentRead);
                    }
                    read_origins_push(&mut new_origins, origin);
                    match value {
                        MemoryValue::Basic(basic) => {
                            account = Some(basic);
                            done = true;
                        },
                        MemoryValue::LazyRecipient(addition) => {
                            if delta.positive {
                                delta.amount = u256_saturating_add(delta.amount, addition);
                            } else {
                                let positive = !u256_lt(addition, delta.amount);
                                delta.amount = u256_abs_diff(delta.amount, addition);
                                delta.positive = positive;
                            }
                            bound = closest_idx;
                        },
                        MemoryValue::LazySender(subtraction) => {
                            if delta.positive {
                                let positive = !u256_lt(delta.amount, subtraction);
                                delta.amount = u256_abs_diff(delta.amount, subtraction);
                                delta.positive = positive;
                            } else {
                                delta.amount = u256_saturating_add(delta.amount, subtraction);
                            }
                            delta.nonce_addition = delta.nonce_addition + 1;
                            bound = closest_idx;
                        },
                        _ => {
                            return Err(ReadError::InvalidMemoryValueType);
                        },
                    }
                },
            }
        }
        let n = read_origins_len(&new_origins);
        // Fall back to storage.
        if account.is_none() {
            if !has_prev {
                read_origins_push(&mut new_origins, ReadOrigin::Storage);
            } else if prev_len - 1 != n || read_origins_get(&prev, prev_len - 1) != ReadOrigin::Storage {
                // Inconsistent: the previous origins are longer or did not end in storage.
                proof {
                    assert(reads1 =~= read_set_contents(old(self).read_set).insert(location, p));
                }
                return Err(ReadError::InconsistentRead);
            }
        }
        // Register the origins on the first read; otherwise they match already.
        if !has_prev {
            read_set_insert(&mut self.read_set, location, new_origins);
        }
        proof {
            if has_prev {
                assert(reads1 =~= read_set_contents(old(self).read_set).insert(location, p));
            }
        }
        Ok(BasicRead::Walked { location, account, delta })
    }
}


/// Resolving a basic read applies the pending change to the value found (an
/// empty account when only lazy updates were found): the balance is the found
/// balance plus the signed change, held within `0..=u256_max()`, and the nonce
/// grows by the number of lazy debits. A read that found nothing and has no
/// change finds no account.
pub proof fn lemma_resolve_applies_delta(db: VmDb, location: MemoryLocationHash, found: Option<AccountBasic>, delta: DeltaSpec)
    ensures
        resolve_spec(db, location, found, delta) matches Ok(Some((balance, nonce))) ==> {
            let start: int = match found {
                Some(a) => a.balance.value() as int,
                None => 0,
            };
            let total = start + delta_value(delta);
            &&& balance == (if total < 0 {
                0
            } else if total > u256_max() {
                u256_max() as int
            } else {
                total
            })
            &&& nonce as int == ((match found {
                Some(a) => a.nonce as int,
                None => 0,
            }) + delta.nonce_addition) % 0x1_0000_0000_0000_0000
        },
        found is None && delta.amount == 0 ==> resolve_spec(db, location, found, delta) == Ok::<
            Option<(nat, u64)>,
            ReadError,
        >(None),
        found is Some || delta.amount > 0 ==> !(resolve_spec(db, location, found, delta) matches Ok(None)),
{
    if let Some(a) = found {
        crate::primitives::lemma_value_nonneg_parts(a.balance);
    }
}

impl VmDb {
    /// Evaluates the account a basic read found: `found` is the absolute value from
    /// the multi-version memory or, failing that, from storage, and `delta` the lazy
    /// updates above it. Checks the sender's nonce against the transaction's.
    pub fn resolve_basic(&self, location: MemoryLocationHash, found: Option<AccountBasic>, delta: LazyDelta) -> (r: Result<Option<AccountBasic>, ReadError>)
        ensures
            match resolve_spec(*self, location, found, delta.spec()) {
                Ok(None) => r == Ok::<Option<AccountBasic>, ReadError>(None),
                Ok(Some((balance, nonce))) => r matches Ok(Some(a)) && a.balance.value() == balance && a.nonce == nonce,
                Err(e) => r == Err::<Option<AccountBasic>, ReadError>(e),
            },
    {
        let base = match found {
            Some(a) => Some(a),
            None => if delta.amount.is_zero() {
                None
            } else {
                Some(AccountBasic { balance: U256::zero(), nonce: 0 })
            },
        };
        match base {
            None => Ok(None),
            Some(account) => {
                let nonce = account.nonce.wrapping_add(delta.nonce_addition);
                if location == self.from_hash {
                    if let Some(tx_nonce) = self.tx_nonce {
                        if tx_nonce != nonce {
                            // Retry after the closest sender transaction.
                            return if self.tx_idx > 0 {
                                Err(ReadError::Blocking(self.tx_idx - 1))
                            } else {
                                Err(ReadError::InvalidNonce(self.tx_idx))
                            };
                        }
                    }
                }
                let balance = if delta.positive {
                    u256_saturating_add(account.balance, delta.amount)
                } else {
                    u256_saturating_sub(account.balance, delta.amount)
                };
                Ok(Some(AccountBasic { balance, nonce }))
            },
        }
    }

    /// The code hash of the account at `location` when it is already known: that of
    /// the recipient, read when the execution started.
    pub fn known_code_hash(&self, location: MemoryLocationHash) -> (r: Option<Option<B256>>)
        ensures
            r == if Some(location) == self.to_hash {
                Some(self.to_code_hash)
            } else {
                None::<Option<B256>>
            },
    {
        if Some(location) == self.to_hash {
            Some(self.to_code_hash)
        } else {
            None
        }
    }

    /// Registers a fully evaluated account and its code hash, to later tell whether
    /// the execution changed them.
    pub fn record_read_account(&mut self, location: MemoryLocationHash, account: AccountBasic, code_hash: Option<B256>)
        ensures
            read_accounts_contents(final(self).read_accounts) == read_accounts_contents(old(self).read_accounts).insert(
                location,
                (account, code_hash),
            ),
            final(self).tx_idx == old(self).tx_idx,
            final(self).caller == old(self).caller,
            final(self).to == old(self).to,
            final(self).tx_nonce == old(self).tx_nonce,
            final(self).from_hash == old(self).from_hash,
            final(self).to_hash == old(self).to_hash,
            final(self).to_code_hash == old(self).to_code_hash,
            final(self).is_lazy == old(self).is_lazy,
            final(self).read_set == old(self).read_set,
    {
        read_accounts_insert(&mut self.read_accounts, location, (account, code_hash));
    }

    /// Once the recipient's code hash is read, decides whether this transaction is
    /// updated lazily: a raw transfer (no code at the recipient) whose sender or
    /// recipient already has entries in the multi-version memory. Sequentially
    /// evaluating locations with only one entry is much costlier than evaluating
    /// them concurrently. A recipient that other transactions update lazily stops
    /// being so when this one is not, unless it is the beneficiary.
    pub fn set_recipient_code_hash(&mut self, mv: &mut MvMemory, coinbase: Address, to_code_hash: Option<B256>)
        requires
            old(self).wf(),
            old(mv).wf(),
        ensures
            final(self).wf(),
            final(mv).wf(),
            final(self).tx_idx == old(self).tx_idx,
            final(self).caller == old(self).caller,
            final(self).to == old(self).to,
            final(self).tx_nonce == old(self).tx_nonce,
            final(self).from_hash == old(self).from_hash,
            final(self).to_hash == old(self).to_hash,
            final(self).read_set == old(self).read_set,
            final(self).read_accounts == old(self).read_accounts,
            final(mv).entries() == old(mv).entries(),
            final(mv).dense_locations() == old(mv).dense_locations(),
            final(mv).size() == old(mv).size(),
            forall|t: int| #[trigger] final(mv).reads_of(t) == old(mv).reads_of(t),
            forall|t: int| #[trigger] final(mv).writes_of(t) == old(mv).writes_of(t),
            match old(self).to {
                None => *final(self) == *old(self) && final(mv).lazy() == old(mv).lazy(),
                Some(to) => {
                    &&& final(self).to_code_hash == to_code_hash
                    &&& final(self).is_lazy == (to_code_hash is None && (old(mv).entries().contains_key(
                        old(self).from_hash,
                    ) || old(mv).entries().contains_key(old(self).to_hash->0)))
                    &&& if to != coinbase && !final(self).is_lazy && old(mv).lazy().contains(to) {
                        final(mv).lazy().to_set() == old(mv).lazy().to_set().remove(to)
                    } else {
                        final(mv).lazy() == old(mv).lazy()
                    }
                },
            },
    {
        if let Some(to) = self.to {
            let to_hash = self.to_hash.unwrap();
            self.to_code_hash = to_code_hash;
            self.is_lazy = to_code_hash.is_none() && (mv.contains_location(self.from_hash) || mv.contains_location(to_hash));
            if to != coinbase && !self.is_lazy && mv.is_lazy(&to) {
                mv.remove_lazy_address(&to);
            }
        }
    }
}

/// The first read of a storage slot or code hash by transaction `tx_idx` records
/// one origin: the closest lower version holding data, or storage when no lower
/// transaction has an entry. Validating that read against the memory it read
/// succeeds.
pub proof fn lemma_first_read_validates(
    entries: Map<MemoryLocationHash, Map<TxIdx, MemoryEntry>>,
    location: MemoryLocationHash,
    tx_idx: TxIdx,
)
    ensures
        match closest_below(entries_or_empty(entries, location), tx_idx as int) {
            Some((k, MemoryEntry::Data(incarnation, _))) => read_still_valid(
                entries,
                location,
                seq![ReadOrigin::MvMemory(TxVersion { tx_idx: k, tx_incarnation: incarnation })],
                tx_idx,
            ),
            Some((_, MemoryEntry::Estimate)) => true,
            None => read_still_valid(entries, location, seq![ReadOrigin::Storage], tx_idx),
        },
{
    let m = entries_or_empty(entries, location);
    reveal_with_fuel(origins_match, 2);
    lemma_closest_below(m, tx_idx as int);
    if !entries.contains_key(location) {
        assert(!crate::mv_memory::has_key_below(m, tx_idx as int));
    }
    match closest_below(m, tx_idx as int) {
        Some((k, MemoryEntry::Data(incarnation, _))) => {
            let origins = seq![ReadOrigin::MvMemory(TxVersion { tx_idx: k, tx_incarnation: incarnation })];
            assert(origins.drop_first() =~= Seq::<ReadOrigin>::empty());
        },
        Some((_, MemoryEntry::Estimate)) => {},
        None => {
            let origins = seq![ReadOrigin::Storage];
            assert(origins.drop_first() =~= Seq::<ReadOrigin>::empty());
        },
    }
}

/// The origins a completed walk adds are exactly the chain of closest versions
/// going down from `bound`, ending in storage when no absolute value was found.
pub proof fn lemma_walk_origins_match(
    m: Map<TxIdx, MemoryEntry>,
    bound: int,
    origins: Seq<ReadOrigin>,
    delta: DeltaSpec,
)
    ensures
        walk(m, bound, None, origins, delta) matches WalkOutcome::Done { origins: o, account: a, .. } ==> {
            &&& o.len() >= origins.len()
            &&& o.subrange(0, origins.len() as int) == origins
            &&& origins_match(
                m,
                bound,
                o.subrange(origins.len() as int, o.len() as int) + if a is None {
                    seq![ReadOrigin::Storage]
                } else {
                    Seq::empty()
                },
            )
        },
    decreases bound,
{
    reveal_with_fuel(origins_match, 2);
    lemma_closest_below(m, bound);
    match closest_below(m, bound) {
        None => {
            let tail = Seq::<ReadOrigin>::empty() + seq![ReadOrigin::Storage];
            assert(origins.subrange(origins.len() as int, origins.len() as int) =~= Seq::<ReadOrigin>::empty());
            assert(origins.subrange(0, origins.len() as int) =~= origins);
            assert(tail =~= seq![ReadOrigin::Storage]);
            assert(tail.drop_first() =~= Seq::<ReadOrigin>::empty());
        },
        Some((k, MemoryEntry::Estimate)) => {},
        Some((k, MemoryEntry::Data(incarnation, value))) => {
            let origin = ReadOrigin::MvMemory(TxVersion { tx_idx: k, tx_incarnation: incarnation });
            let pushed = origins.push(origin);
            match value {
                MemoryValue::Basic(_) => {
                    assert(pushed.subrange(0, origins.len() as int) =~= origins);
                    let tail = pushed.subrange(origins.len() as int, pushed.len() as int) + Seq::<ReadOrigin>::empty();
                    assert(tail =~= seq![origin]);
                    assert(tail.drop_first() =~= Seq::<ReadOrigin>::empty());
                },
                MemoryValue::LazyRecipient(_) | MemoryValue::LazySender(_) => {
                    let d2 = match value {
                        MemoryValue::LazyRecipient(addition) => recipient_step(delta, addition.value()),
                        MemoryValue::LazySender(subtraction) => sender_step(delta, subtraction.value()),
                        _ => delta,
                    };
                    assert(walk(m, bound, None, origins, delta) == walk(m, k as int, None, pushed, d2));
                    lemma_walk_origins_match(m, k as int, pushed, d2);
                    if let WalkOutcome::Done { origins: o, account: a, .. } = walk(m, k as int, None, pushed, d2) {
                        let rest = o.subrange(pushed.len() as int, o.len() as int) + if a is None {
                            seq![ReadOrigin::Storage]
                        } else {
                            Seq::<ReadOrigin>::empty()
                        };
                        let tail = o.subrange(origins.len() as int, o.len() as int) + if a is None {
                            seq![ReadOrigin::Storage]
                        } else {
                            Seq::<ReadOrigin>::empty()
                        };
                        assert(o.subrange(0, pushed.len() as int) == pushed);
                        assert(o[origins.len() as int] == pushed[origins.len() as int]);
                        assert(o.subrange(0, origins.len() as int) =~= pushed.subrange(0, origins.len() as int));
                        assert(pushed.subrange(0, origins.len() as int) =~= origins);
                        assert(tail[0] == origin);
                        assert(tail.drop_first() =~= rest);
                    }
                },
                _ => {},
            }
        },
    }
}

/// The first read of a basic account records origins that validate against the
/// memory it read: validating right after the read succeeds.
pub proof fn lemma_first_basic_read_validates(
    db: VmDb,
    entries: Map<MemoryLocationHash, Map<TxIdx, MemoryEntry>>,
    address: Address,
)
    requires
        !read_set_contents(db.read_set).contains_key(basic_location(address)),
    ensures
        basic_read_spec(db, entries, address).0 is Ok ==> read_still_valid(
            entries,
            basic_location(address),
            basic_read_spec(db, entries, address).1,
            db.tx_idx,
        ),
{
    let location = basic_location(address);
    let m = entries_or_empty(entries, location);
    let prev = origins_or_empty(read_set_contents(db.read_set), location);
    assert(prev =~= Seq::<ReadOrigin>::empty());
    lemma_walk_origins_match(m, db.tx_idx as int, Seq::empty(), no_delta());
    if let WalkOutcome::Done { origins: o, account: a, .. } = walk(m, db.tx_idx as int, None, Seq::empty(), no_delta()) {
        assert(o.subrange(0, o.len() as int) =~= o);
        if a is None {
            assert(o + seq![ReadOrigin::Storage] =~= o.push(ReadOrigin::Storage));
        } else {
            assert(o + Seq::<ReadOrigin>::empty() =~= o);
        }
        if !entries.contains_key(location) {
            lemma_closest_below(m, db.tx_idx as int);
            assert(!crate::mv_memory::has_key_below(m, db.tx_idx as int));
            assert(o =~= Seq::<ReadOrigin>::empty());
        }
    }
}

} // verus!
