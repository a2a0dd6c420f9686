use std::hash::BuildHasher;

use pevm::hashing::MemoryLocation;
use pevm::mv_memory::MvMemory;
use pevm::primitives::{Address, U256};
use pevm::types::{AccountBasic, MemoryEntry, MemoryValue, TxVersion};
use pevm::vm::{CodeHashRead, ReadError, StorageRead, VmDb};

fn address(n: u64) -> Address {
    Address { w0: 0, w1: 0, w2: n }
}

fn word(n: u64) -> U256 {
    U256::from_u64(n)
}

fn hash(location: MemoryLocation) -> u64 {
    rustc_hash::FxBuildHasher.hash_one(location)
}

fn version(tx_idx: usize, tx_incarnation: usize) -> TxVersion {
    TxVersion { tx_idx, tx_incarnation }
}

#[test]
fn a_fresh_memory_has_no_entries() {
    let mv = MvMemory::new(3, vec![], vec![]);
    let location = hash(MemoryLocation::Storage(address(1), word(0)));
    assert!(!mv.contains_location(location));
    assert_eq!(mv.entry_below(location, 2), None);
}

#[test]
fn estimated_locations_start_with_estimates() {
    let location = hash(MemoryLocation::Storage(address(1), word(0)));
    let mv = MvMemory::new(3, vec![(location, vec![0, 1])], vec![]);
    assert_eq!(mv.entry_below(location, 2), Some(Some((1, MemoryEntry::Estimate))));
    assert_eq!(mv.entry_below(location, 1), Some(Some((0, MemoryEntry::Estimate))));
    assert_eq!(mv.entry_below(location, 0), Some(None));
}

#[test]
fn a_read_finds_the_closest_lower_write() {
    let mut mv = MvMemory::new(4, vec![], vec![]);
    let slot = hash(MemoryLocation::Storage(address(7), word(3)));
    let db0 = VmDb::new(0, address(1), Some(address(2)), None);
    let wrote = mv.record(&version(0, 0), db0.read_set, vec![(slot, MemoryValue::Storage(word(11)))]);
    assert!(wrote);
    let db2 = VmDb::new(2, address(1), Some(address(2)), None);
    let wrote = mv.record(&version(2, 1), db2.read_set, vec![(slot, MemoryValue::Storage(word(22)))]);
    assert!(wrote);

    let mut reader = VmDb::new(3, address(5), Some(address(6)), None);
    assert_eq!(reader.storage_from_memory(&mv, &address(7), &word(3)), Ok(StorageRead::Found(word(22))));
    let mut reader = VmDb::new(2, address(5), Some(address(6)), None);
    assert_eq!(reader.storage_from_memory(&mv, &address(7), &word(3)), Ok(StorageRead::Found(word(11))));
    let mut reader = VmDb::new(0, address(5), Some(address(6)), None);
    assert_eq!(reader.storage_from_memory(&mv, &address(7), &word(3)), Ok(StorageRead::FromStorage));
}

#[test]
fn recording_the_same_locations_again_writes_nothing_new() {
    let mut mv = MvMemory::new(2, vec![], vec![]);
    let slot = hash(MemoryLocation::Storage(address(7), word(3)));
    let db = VmDb::new(0, address(1), None, None);
    assert!(mv.record(&version(0, 0), db.read_set, vec![(slot, MemoryValue::Storage(word(1)))]));
    let db = VmDb::new(0, address(1), None, None);
    assert!(!mv.record(&version(0, 1), db.read_set, vec![(slot, MemoryValue::Storage(word(2)))]));
}

#[test]
fn an_estimate_blocks_higher_readers() {
    let mut mv = MvMemory::new(3, vec![], vec![]);
    let slot = hash(MemoryLocation::Storage(address(7), word(3)));
    let db = VmDb::new(0, address(1), None, None);
    mv.record(&version(0, 0), db.read_set, vec![(slot, MemoryValue::Storage(word(1)))]);
    mv.convert_writes_to_estimates(0);
    let mut reader = VmDb::new(2, address(5), None, None);
    assert_eq!(reader.storage_from_memory(&mv, &address(7), &word(3)), Err(ReadError::Blocking(0)));
}

#[test]
fn a_read_validates_until_a_lower_transaction_writes_there() {
    let mut mv = MvMemory::new(3, vec![], vec![]);
    let mut reader = VmDb::new(2, address(5), None, None);
    assert_eq!(reader.storage_from_memory(&mv, &address(7), &word(3)), Ok(StorageRead::FromStorage));
    assert!(mv.record(&version(2, 0), reader.read_set, vec![]) == false);
    assert!(mv.validate_read_locations(2));

    let slot = hash(MemoryLocation::Storage(address(7), word(3)));
    let db = VmDb::new(1, address(1), None, None);
    mv.record(&version(1, 0), db.read_set, vec![(slot, MemoryValue::Storage(word(9)))]);
    assert!(!mv.validate_read_locations(2));
}

#[test]
fn a_second_read_must_come_from_the_same_origin() {
    let mut mv = MvMemory::new(3, vec![], vec![]);
    let mut reader = VmDb::new(2, address(5), None, None);
    assert_eq!(reader.storage_from_memory(&mv, &address(7), &word(3)), Ok(StorageRead::FromStorage));
    let slot = hash(MemoryLocation::Storage(address(7), word(3)));
    let db = VmDb::new(0, address(1), None, None);
    mv.record(&version(0, 0), db.read_set, vec![(slot, MemoryValue::Storage(word(4)))]);
    assert_eq!(reader.storage_from_memory(&mv, &address(7), &word(3)), Err(ReadError::InconsistentRead));
}

#[test]
fn a_self_destructed_code_hash_falls_back_to_sequential() {
    let mut mv = MvMemory::new(2, vec![], vec![]);
    let location = hash(MemoryLocation::CodeHash(address(7)));
    let db = VmDb::new(0, address(1), None, None);
    mv.record(&version(0, 0), db.read_set, vec![(location, MemoryValue::SelfDestructed)]);
    let mut reader = VmDb::new(1, address(5), None, None);
    assert_eq!(reader.code_hash_from_memory(&mv, &address(7)), Err(ReadError::SelfDestructedAccount));
    let mut reader = VmDb::new(0, address(5), None, None);
    assert_eq!(reader.code_hash_from_memory(&mv, &address(7)), Ok(CodeHashRead::FromStorage));
}

#[test]
fn repeating_a_read_from_the_same_origin_is_consistent() {
    let mv = MvMemory::new(2, vec![], vec![]);
    let mut db = VmDb::new(1, address(1), None, None);
    assert_eq!(db.storage_from_memory(&mv, &address(3), &word(1)), Ok(StorageRead::FromStorage));
    assert_eq!(db.storage_from_memory(&mv, &address(3), &word(1)), Ok(StorageRead::FromStorage));
}

#[test]
fn lazy_addresses_become_dense_and_are_consumed() {
    let beneficiary = address(9);
    let mut mv = MvMemory::new(3, vec![], vec![beneficiary]);
    assert!(mv.is_lazy(&beneficiary));
    let location = hash(MemoryLocation::Basic(beneficiary));
    assert_eq!(mv.dense_slots(location), Some(vec![None, None, None]));
    mv.add_lazy_addresses(vec![address(4), beneficiary]);
    assert!(mv.is_lazy(&address(4)));
    mv.remove_lazy_address(&address(4));
    assert!(!mv.is_lazy(&address(4)));
    assert_eq!(mv.consume_lazy_addresses(), vec![beneficiary]);
    assert!(!mv.is_lazy(&beneficiary));
}

#[test]
fn a_basic_read_sums_lazy_updates_down_to_an_absolute_value() {
    let sender = address(1);
    let beneficiary = address(9);
    let mut mv = MvMemory::new(4, vec![], vec![beneficiary]);
    let location = hash(MemoryLocation::Basic(beneficiary));
    let db = VmDb::new(0, sender, None, None);
    mv.record(
        &version(0, 0),
        db.read_set,
        vec![(location, MemoryValue::Basic(AccountBasic { balance: word(100), nonce: 2 }))],
    );
    let db = VmDb::new(1, sender, None, None);
    mv.record(&version(1, 0), db.read_set, vec![(location, MemoryValue::LazyRecipient(word(30)))]);
    let db = VmDb::new(2, sender, None, None);
    mv.record(&version(2, 0), db.read_set, vec![(location, MemoryValue::LazySender(word(50)))]);

    let mut reader = VmDb::new(3, sender, None, None);
    match reader.basic_from_memory(&mv, &beneficiary) {
        Ok(pevm::vm::BasicRead::Walked { location: l, account, delta }) => {
            assert_eq!(l, location);
            assert_eq!(account, Some(AccountBasic { balance: word(100), nonce: 2 }));
            assert_eq!(delta.positive, false);
            assert_eq!(delta.amount, word(20));
            assert_eq!(delta.nonce_addition, 1);
            let resolved = reader.resolve_basic(l, account, delta);
            assert_eq!(resolved, Ok(Some(AccountBasic { balance: word(80), nonce: 3 })));
        },
        other => panic!("unexpected read {other:?}"),
    }
}

#[test]
fn a_missing_account_with_a_lazy_credit_reads_as_empty_plus_the_credit() {
    let db = VmDb::new(0, address(1), None, None);
    let delta = pevm::vm::LazyDelta { positive: true, amount: word(7), nonce_addition: 0 };
    let location = hash(MemoryLocation::Basic(address(4)));
    assert_eq!(db.resolve_basic(location, None, delta), Ok(Some(AccountBasic { balance: word(7), nonce: 0 })));
    let nothing = pevm::vm::LazyDelta { positive: true, amount: word(0), nonce_addition: 0 };
    assert_eq!(db.resolve_basic(location, None, nothing), Ok(None));
}

#[test]
fn a_sender_nonce_mismatch_waits_for_the_previous_transaction() {
    let sender = address(1);
    let location = hash(MemoryLocation::Basic(sender));
    let nothing = pevm::vm::LazyDelta { positive: true, amount: word(0), nonce_addition: 0 };
    let db = VmDb::new(3, sender, None, Some(5));
    let found = Some(AccountBasic { balance: word(1), nonce: 4 });
    assert_eq!(db.resolve_basic(location, found, nothing), Err(ReadError::Blocking(2)));
    let db = VmDb::new(0, sender, None, Some(5));
    assert_eq!(db.resolve_basic(location, found, nothing), Err(ReadError::InvalidNonce(0)));
}

#[test]
fn a_raw_transfer_touching_written_accounts_is_lazy() {
    let sender = address(1);
    let recipient = address(2);
    let mut mv = MvMemory::new(3, vec![], vec![]);
    let db = VmDb::new(0, sender, None, None);
    mv.record(
        &version(0, 0),
        db.read_set,
        vec![(hash(MemoryLocation::Basic(sender)), MemoryValue::Basic(AccountBasic { balance: word(9), nonce: 1 }))],
    );
    let mut db = VmDb::new(1, sender, Some(recipient), None);
    db.set_recipient_code_hash(&mut mv, address(9), None);
    assert!(db.is_lazy);
    assert_eq!(db.known_code_hash(hash(MemoryLocation::Basic(recipient))), Some(None));
    assert_eq!(db.known_code_hash(hash(MemoryLocation::Basic(address(7)))), None);

    // A contract recipient is executed normally and stops being lazy.
    let code = pevm::primitives::B256 { w0: 1, w1: 0, w2: 0, w3: 0 };
    mv.add_lazy_addresses(vec![recipient]);
    let mut db = VmDb::new(1, sender, Some(recipient), None);
    db.set_recipient_code_hash(&mut mv, address(9), Some(code));
    assert!(!db.is_lazy);
    assert!(!mv.is_lazy(&recipient));
}

fn walk(entries: &pevm::mv_memory::MvEntries, bound: usize) -> Vec<(usize, MemoryEntry)> {
    let mut out = Vec::new();
    let mut next = entries.last_below(bound);
    while let Some((idx, entry)) = next {
        out.push((idx, entry));
        next = entries.last_below(idx);
    }
    out
}

#[test]
fn walking_down_visits_each_lower_entry_once_in_both_layouts() {
    let storage = |v: u64| MemoryEntry::Data(0, MemoryValue::Storage(word(v)));
    let mut sparse = std::collections::BTreeMap::new();
    sparse.insert(1usize, storage(10));
    sparse.insert(4usize, MemoryEntry::Estimate);
    sparse.insert(6usize, storage(60));
    sparse.insert(9usize, storage(90));
    let sparse = pevm::mv_memory::MvEntries::Sparse(sparse);
    let dense = pevm::mv_memory::MvEntries::Dense(vec![
        None,
        Some(storage(10)),
        None,
        None,
        Some(MemoryEntry::Estimate),
        None,
        Some(storage(60)),
        None,
        None,
        Some(storage(90)),
    ]);
    let expected = vec![(6usize, storage(60)), (4, MemoryEntry::Estimate), (1, storage(10))];
    assert_eq!(walk(&sparse, 9), expected);
    assert_eq!(walk(&dense, 9), expected);
    assert!(walk(&sparse, 1).is_empty());
}
