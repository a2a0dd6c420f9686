//! Accounts as a remote node reports them.
use vstd::prelude::*;

use crate::primitives::{B256, U256};
use crate::receipts::{b256_from_be_bytes, b256_from_bytes};
use crate::types::AccountBasic;

verus! {

/// The 32-byte hash that `revm::bytecode::Bytecode::hash_slow` gives the code
/// built from raw bytes (the keccak-256 of those bytes).
pub uninterp spec fn bytecode_hash(code: Seq<u8>) -> Seq<u8>;

/// Whether `revm::bytecode::Bytecode::new_raw` accepts raw bytes: bytes that
/// start with the EIP-7702 magic `0xef01` must be a 23-byte delegation of
/// version 0; any other bytes are legacy code.
pub open spec fn raw_bytecode_accepted(code: Seq<u8>) -> bool {
    code.len() >= 2 && code[0] == 0xef && code[1] == 0x01 ==> code.len() == 23 && code[2] == 0
}

/// Wraps `revm::bytecode::Bytecode::new_raw` followed by `Bytecode::hash_slow`:
/// the hash of the code, as its 32 bytes. `new_raw` panics on malformed
/// EIP-7702 bytes, which `raw_bytecode_accepted` leaves out.
#[verifier::external_body]
fn hash_raw_bytecode(code: &Vec<u8>) -> (r: Vec<u8>)
    requires
        raw_bytecode_accepted(code@),
    ensures
        r@ == bytecode_hash(code@),
        r@.len() == 32,
{
    revm::bytecode::Bytecode::new_raw(revm::primitives::Bytes::copy_from_slice(code)).hash_slow().to_vec()
}

/// The account that a node's nonce, balance and code describe, with the hash
/// of its code when it has any. An empty account that is not a precompile is
/// no account at all: early hardforks charge extra for creating one.
pub fn rpc_account(is_precompile: bool, nonce: u64, balance: U256, code: &Vec<u8>) -> (r: Option<
    (AccountBasic, Option<B256>),
>)
    requires
        raw_bytecode_accepted(code@),
    ensures
        (r is None) <==> (!is_precompile && balance.value() == 0 && nonce == 0 && code@.len() == 0),
        r matches Some((a, h)) ==> a.balance == balance && a.nonce == nonce && ((h is None) <==> code@.len() == 0)
            && (h matches Some(x) ==> x == b256_from_bytes(bytecode_hash(code@))),
{
    if !is_precompile && balance.is_zero() && nonce == 0 && code.len() == 0 {
        return None;
    }
    let code_hash = if code.len() == 0 {
        None
    } else {
        let hash = hash_raw_bytecode(code);
        Some(b256_from_be_bytes(&hash))
    };
    Some((AccountBasic { balance, nonce }, code_hash))
}

} // verus!
