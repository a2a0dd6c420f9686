use pevm::primitives::{B256, U256};
use pevm::storage::rpc_account;

fn b256_of(bytes: &[u8]) -> B256 {
    let word = |i: usize| u64::from_be_bytes(bytes[i..i + 8].try_into().unwrap());
    B256 { w0: word(0), w1: word(8), w2: word(16), w3: word(24) }
}

#[test]
fn an_empty_account_that_is_no_precompile_is_no_account() {
    assert_eq!(rpc_account(false, 0, U256::from_u64(0), &vec![]), None);
}

#[test]
fn an_empty_precompile_is_an_account_without_code() {
    let (account, code_hash) = rpc_account(true, 0, U256::from_u64(0), &vec![]).unwrap();
    assert_eq!(account.balance, U256::from_u64(0));
    assert_eq!(account.nonce, 0);
    assert_eq!(code_hash, None);
}

#[test]
fn an_account_with_a_balance_or_nonce_is_kept() {
    let (account, code_hash) = rpc_account(false, 3, U256::from_u64(7), &vec![]).unwrap();
    assert_eq!(account.balance, U256::from_u64(7));
    assert_eq!(account.nonce, 3);
    assert_eq!(code_hash, None);
}

#[test]
fn code_is_identified_by_its_keccak_hash() {
    let code = vec![0x60u8, 0x01, 0x60, 0x02, 0x01, 0x00];
    let (_, code_hash) = rpc_account(false, 0, U256::from_u64(0), &code).unwrap();
    let expected = alloy_primitives::keccak256(&code);
    assert_eq!(code_hash, Some(b256_of(expected.as_slice())));
}

#[test]
fn a_delegation_is_hashed_as_its_bytes() {
    let mut code = vec![0xefu8, 0x01, 0x00];
    code.extend_from_slice(&[0x11; 20]);
    let (_, code_hash) = rpc_account(false, 1, U256::from_u64(0), &code).unwrap();
    let expected = alloy_primitives::keccak256(&code);
    assert_eq!(code_hash, Some(b256_of(expected.as_slice())));
}
