use pevm::chain::SpecId;
use pevm::journal::{
    keccak_empty_hash, AccountInfoFields, Journal, JournalEntry, JournalLoadError, JournaledAccountState, Log,
    StorageSlotState, TransferError,
};
use pevm::primitives::{Address, B256, U256};

fn address(n: u64) -> Address {
    Address { w0: 0, w1: 0, w2: n }
}

fn word(n: u64) -> U256 {
    U256::from_u64(n)
}

fn info(balance: u64, nonce: u64) -> AccountInfoFields {
    AccountInfoFields { balance: word(balance), nonce, code_hash: keccak_empty_hash() }
}

fn account(journal: &Journal, a: Address) -> JournaledAccountState {
    journal.accounts[journal.find_account(a).unwrap()].1
}

fn slot(journal: &Journal, a: Address, key: U256) -> StorageSlotState {
    journal.slots[journal.find_slot(a, key).unwrap()].1
}

fn loaded(spec: SpecId) -> Journal {
    let mut journal = Journal::new(spec);
    journal.load_new_account(address(1), Some(info(100, 0)), true);
    journal.load_new_account(address(2), Some(info(5, 3)), true);
    journal.sload_new(address(1), word(7), word(70), false, false).unwrap();
    journal
}

#[test]
fn loading_warms_and_journals_cold_accounts() {
    let journal = loaded(SpecId::CANCUN);
    assert!(journal.is_loaded(address(1)));
    assert!(!journal.is_loaded(address(3)));
    assert!(journal.is_slot_loaded(address(1), word(7)));
    assert_eq!(account(&journal, address(2)).balance, word(5));
    assert_eq!(account(&journal, address(2)).nonce, 3);
    assert_eq!(
        journal.journal,
        vec![
            JournalEntry::AccountWarmed { address: address(1) },
            JournalEntry::AccountWarmed { address: address(2) },
            JournalEntry::StorageWarmed { key: word(7), address: address(1) },
        ]
    );
}

#[test]
fn a_missing_account_loads_empty() {
    let mut journal = Journal::new(SpecId::CANCUN);
    journal.load_new_account(address(9), None, false);
    let a = account(&journal, address(9));
    assert_eq!(a.balance, word(0));
    assert_eq!(a.code_hash, keccak_empty_hash());
    assert!(a.loaded_as_not_existing);
    assert!(journal.is_empty_account(address(9)));
    assert!(journal.journal.is_empty());
}

#[test]
fn reverting_a_checkpoint_restores_balances_nonces_and_storage() {
    let mut journal = loaded(SpecId::CANCUN);
    let accounts = journal.accounts.clone();
    let slots = journal.slots.clone();
    let checkpoint = journal.checkpoint();
    assert_eq!(journal.depth, 1);

    journal.set_balance(address(1), word(1));
    assert!(journal.bump_nonce(address(2)));
    journal.set_nonce(address(1), 9);
    assert_eq!(journal.transfer_loaded(address(2), address(1), word(4)), None);
    let stored = journal.sstore(address(1), word(7), word(71), false, false).unwrap();
    assert_eq!(stored.original_value, word(70));
    assert_eq!(stored.present_value, word(70));
    assert_eq!(stored.new_value, word(71));
    assert_eq!(slot(&journal, address(1), word(7)).present_value, word(71));
    assert_eq!(account(&journal, address(1)).balance, word(5));

    journal.checkpoint_revert(checkpoint);
    assert_eq!(journal.depth, 0);
    assert_eq!(journal.accounts, accounts);
    assert_eq!(journal.slots, slots);
    assert_eq!(journal.journal.len(), 3);
}

#[test]
fn committing_keeps_the_changes() {
    let mut journal = loaded(SpecId::CANCUN);
    let _checkpoint = journal.checkpoint();
    journal.set_balance(address(1), word(1));
    journal.checkpoint_commit();
    assert_eq!(journal.depth, 0);
    assert_eq!(account(&journal, address(1)).balance, word(1));
}

#[test]
fn transient_storage_is_restored_on_revert() {
    let mut journal = loaded(SpecId::CANCUN);
    journal.tstore(address(1), word(3), word(30));
    let checkpoint = journal.checkpoint();
    journal.tstore(address(1), word(3), word(31));
    journal.tstore(address(2), word(3), word(32));
    assert_eq!(journal.tload(address(1), word(3)), word(31));
    journal.checkpoint_revert(checkpoint);
    assert_eq!(journal.tload(address(1), word(3)), word(30));
    assert_eq!(journal.tload(address(2), word(3)), word(0));
}

#[test]
fn a_transfer_needs_funds() {
    let mut journal = loaded(SpecId::CANCUN);
    assert_eq!(journal.transfer_loaded(address(2), address(1), word(6)), Some(TransferError::OutOfFunds));
    assert_eq!(account(&journal, address(2)).balance, word(5));
    assert_eq!(journal.transfer_loaded(address(1), address(1), word(101)), Some(TransferError::OutOfFunds));
    assert_eq!(journal.transfer_loaded(address(1), address(1), word(100)), None);
}

#[test]
fn balance_changes_refuse_overflow_and_underflow() {
    let mut journal = loaded(SpecId::CANCUN);
    assert!(!journal.decr_balance(address(2), word(6)));
    assert!(journal.decr_balance(address(2), word(5)));
    assert_eq!(account(&journal, address(2)).balance, word(0));
    assert!(!journal.incr_balance(address(1), U256::max_value()));
    assert!(journal.incr_balance(address(1), word(1)));
    assert_eq!(account(&journal, address(1)).balance, word(101));
}

#[test]
fn creating_over_an_account_with_a_nonce_collides() {
    let mut journal = loaded(SpecId::CANCUN);
    assert_eq!(
        journal.create_account_checkpoint(address(1), address(2), word(1), SpecId::CANCUN),
        Err(TransferError::CreateCollision)
    );
}

#[test]
fn creating_an_account_funds_and_marks_it() {
    let mut journal = loaded(SpecId::CANCUN);
    journal.load_new_account(address(3), None, true);
    let checkpoint = journal.create_account_checkpoint(address(1), address(3), word(10), SpecId::CANCUN).unwrap();
    let created = account(&journal, address(3));
    assert!(created.created && created.created_locally && created.touched);
    assert_eq!(created.nonce, 1);
    assert_eq!(created.balance, word(10));
    assert_eq!(account(&journal, address(1)).balance, word(90));
    assert!(journal.is_created(address(3)));
    journal.checkpoint_revert(checkpoint);
    assert_eq!(account(&journal, address(1)).balance, word(100));
    assert_eq!(account(&journal, address(3)).balance, word(0));
}

#[test]
fn a_self_destruct_after_cancun_only_moves_the_balance() {
    let mut journal = loaded(SpecId::CANCUN);
    let (result, cold) = journal.selfdestruct(address(1), address(2), true);
    assert!(result.had_value);
    assert!(result.target_exists);
    assert!(!result.previously_destroyed);
    assert!(cold);
    assert_eq!(account(&journal, address(1)).balance, word(0));
    assert!(!account(&journal, address(1)).selfdestructed);
    assert_eq!(account(&journal, address(2)).balance, word(105));
}

#[test]
fn a_self_destruct_before_cancun_destroys_the_account() {
    let mut journal = loaded(SpecId::SHANGHAI);
    let checkpoint = journal.checkpoint();
    let (result, _) = journal.selfdestruct(address(1), address(2), false);
    assert!(result.had_value);
    assert!(account(&journal, address(1)).selfdestructed);
    assert_eq!(account(&journal, address(2)).balance, word(105));
    journal.checkpoint_revert(checkpoint);
    assert!(!account(&journal, address(1)).selfdestructed);
    assert_eq!(account(&journal, address(1)).balance, word(100));
    assert_eq!(account(&journal, address(2)).balance, word(5));
}

#[test]
fn a_cold_slot_can_be_skipped() {
    let mut journal = loaded(SpecId::CANCUN);
    assert_eq!(journal.sload_new(address(1), word(8), word(0), false, true), Err(JournalLoadError::ColdLoadSkipped));
    assert_eq!(journal.sload_loaded(address(1), word(7), false, true), Ok((word(70), false)));
}

#[test]
fn logs_are_taken_once() {
    let mut journal = Journal::new(SpecId::CANCUN);
    let log = Log { address: address(1), topics: vec![B256::default()], data: vec![1, 2] };
    journal.log(log.clone());
    assert_eq!(journal.take_logs(), vec![log]);
    assert!(journal.take_logs().is_empty());
}

#[test]
fn a_balance_moving_self_destruct_is_undone_by_a_revert() {
    let mut journal = loaded(SpecId::CANCUN);
    let accounts = journal.accounts.clone();
    let checkpoint = journal.checkpoint();
    journal.selfdestruct(address(1), address(2), false);
    assert_eq!(account(&journal, address(1)).balance, word(0));
    journal.checkpoint_revert(checkpoint);
    assert_eq!(journal.accounts, accounts);
}

#[test]
fn an_endowment_that_overflows_is_reverted() {
    // Not the RIPEMD-160 precompile at address 3, whose touch outlives reverts.
    let mut journal = loaded(SpecId::CANCUN);
    journal.load_new_account(address(4), Some(AccountInfoFields { balance: U256::max_value(), nonce: 0, code_hash: keccak_empty_hash() }), false);
    let accounts = journal.accounts.clone();
    assert_eq!(
        journal.create_account_checkpoint(address(1), address(4), word(1), SpecId::CANCUN),
        Err(TransferError::OverflowPayment)
    );
    assert_eq!(journal.accounts, accounts);
}

#[test]
fn the_touch_of_the_ripemd_precompile_survives_a_revert() {
    let mut journal = loaded(SpecId::CANCUN);
    journal.load_new_account(address(3), None, false);
    let checkpoint = journal.checkpoint();
    journal.touch_account(address(3));
    journal.checkpoint_revert(checkpoint);
    assert!(account(&journal, address(3)).touched);
    let mut journal = loaded(SpecId::TANGERINE);
    journal.load_new_account(address(3), None, false);
    let checkpoint = journal.checkpoint();
    journal.touch_account(address(3));
    journal.checkpoint_revert(checkpoint);
    assert!(!account(&journal, address(3)).touched);
}

#[test]
fn new_code_is_undone_back_to_empty_code() {
    let mut journal = loaded(SpecId::PRAGUE);
    let accounts = journal.accounts.clone();
    let checkpoint = journal.checkpoint();
    journal.set_code(address(2), B256 { w0: 1, w1: 2, w2: 3, w3: 4 });
    assert_eq!(account(&journal, address(2)).code_hash, B256 { w0: 1, w1: 2, w2: 3, w3: 4 });
    journal.checkpoint_revert(checkpoint);
    assert_eq!(journal.accounts, accounts);
}

#[test]
fn the_caller_accounting_is_journaled() {
    let mut journal = loaded(SpecId::CANCUN);
    journal.caller_accounting_journal_entry(address(1), word(100), true);
    journal.nonce_bump_journal_entry(address(2));
    let n = journal.journal.len();
    assert_eq!(journal.journal[n - 1], JournalEntry::NonceBump { address: address(2) });
    assert!(journal.journal.contains(&JournalEntry::BalanceChange { old_balance: word(100), address: address(1) }));
}

#[test]
fn extracting_the_state_empties_the_journal() {
    let mut journal = loaded(SpecId::CANCUN);
    journal.set_balance(address(1), word(7));
    let (accounts, slots) = journal.extract_state();
    assert_eq!(accounts.len(), 2);
    assert_eq!(slots.len(), 1);
    assert!(accounts.iter().any(|(a, s)| *a == address(1) && s.balance == word(7)));
    assert!(journal.accounts.is_empty());
    assert!(journal.journal.is_empty());
}

#[test]
fn clearing_drops_the_loaded_state_but_keeps_the_entries() {
    let mut journal = loaded(SpecId::CANCUN);
    let entries = journal.journal.clone();
    journal.clear();
    assert!(journal.accounts.is_empty());
    assert!(journal.slots.is_empty());
    assert_eq!(journal.journal, entries);
}

#[test]
fn a_storage_read_gives_back_the_last_write() {
    let mut journal = loaded(SpecId::CANCUN);
    journal.sstore(address(1), word(7), word(77), false, false).unwrap();
    assert_eq!(journal.sload_loaded(address(1), word(7), false, true), Ok((word(77), false)));
    journal.tstore(address(2), word(1), word(5));
    journal.tstore(address(2), word(1), word(0));
    assert_eq!(journal.tload(address(2), word(1)), word(0));
}

#[test]
fn rewarming_a_cold_account_is_undone_by_a_revert() {
    let mut journal = Journal::new(SpecId::CANCUN);
    let first = journal.checkpoint();
    journal.load_new_account(address(1), Some(info(100, 0)), true);
    journal.checkpoint_revert(first);
    assert!(account(&journal, address(1)).cold);
    let accounts = journal.accounts.clone();
    let checkpoint = journal.checkpoint();
    assert!(!journal.rewarm_account(address(1), false));
    assert!(!account(&journal, address(1)).cold);
    journal.checkpoint_revert(checkpoint);
    assert_eq!(journal.accounts, accounts);
}

#[test]
fn a_destroying_self_destruct_in_favour_of_itself_is_undone_by_a_revert() {
    let mut journal = loaded(SpecId::SHANGHAI);
    let accounts = journal.accounts.clone();
    let checkpoint = journal.checkpoint();
    journal.selfdestruct(address(1), address(1), false);
    assert_eq!(account(&journal, address(1)).balance, word(0));
    assert!(account(&journal, address(1)).selfdestructed);
    journal.checkpoint_revert(checkpoint);
    assert_eq!(journal.accounts, accounts);
}

#[test]
fn warm_addresses_are_not_cold_and_the_transaction_ones_are_forgotten() {
    let mut journal = Journal::new(SpecId::CANCUN);
    journal.warm_precompiles(vec![address(1)]);
    journal.warm_coinbase_account(address(9));
    journal.warm_access_list(vec![(address(5), vec![word(7)])]);
    assert_eq!(journal.check_is_cold(address(1), true), Ok(false));
    assert_eq!(journal.check_is_cold(address(9), true), Ok(false));
    assert_eq!(journal.check_is_cold(address(5), true), Ok(false));
    assert_eq!(journal.check_is_cold(address(6), false), Ok(true));
    assert_eq!(journal.check_is_cold(address(6), true), Err(JournalLoadError::ColdLoadSkipped));
    assert!(journal.warm_addresses.is_storage_warm(address(5), word(7)));
    assert!(!journal.warm_addresses.is_storage_warm(address(5), word(8)));
    journal.extract_state();
    assert_eq!(journal.warm_addresses.coinbase, None);
    assert!(journal.warm_addresses.access_list.is_empty());
    assert_eq!(journal.precompile_addresses(), &vec![address(1)]);
    assert_eq!(journal.check_is_cold(address(9), false), Ok(true));
    assert_eq!(journal.check_is_cold(address(1), false), Ok(false));
}
