use alloy_consensus::{Receipt, ReceiptEnvelope};
use op_alloy_consensus::{OpDepositReceipt, OpReceiptEnvelope};
use pevm::chain::ethereum::PevmEthereum;
use pevm::chain::optimism::PevmOptimism;
use pevm::chain::rise::PevmRise;
use pevm::chain::{CalculateReceiptRootError, OpSpecId, SpecId, TxType};
use pevm::primitives::B256;
use pevm::receipts::{receipt_trie_root, ReceiptLog, TxReceipt};

fn ours(bytes: [u8; 32]) -> B256 {
    let word = |k: usize| u64::from_be_bytes(bytes[8 * k..8 * k + 8].try_into().unwrap());
    B256 { w0: word(0), w1: word(1), w2: word(2), w3: word(3) }
}

fn receipt(i: u64) -> TxReceipt {
    let logs = if i % 3 == 0 {
        vec![ReceiptLog { address: vec![i as u8; 20], topics: vec![vec![7; 32], vec![i as u8; 32]], data: vec![1, 2, 3] }]
    } else {
        vec![]
    };
    TxReceipt { success: i % 5 != 0, cumulative_gas_used: 21_000 * (i + 1), logs }
}

fn alloy_receipt(r: &TxReceipt) -> Receipt {
    Receipt {
        status: r.success.into(),
        cumulative_gas_used: r.cumulative_gas_used,
        logs: r
            .logs
            .iter()
            .map(|l| {
                alloy_primitives::Log::new_unchecked(
                    alloy_primitives::Address::from_slice(&l.address),
                    l.topics.iter().map(|t| alloy_primitives::B256::from_slice(t)).collect(),
                    l.data.clone().into(),
                )
            })
            .collect(),
    }
}

#[test]
fn an_empty_block_has_the_empty_trie_root() {
    let root = PevmEthereum::mainnet().calculate_receipt_root(SpecId::CANCUN, &vec![], &vec![]).unwrap();
    assert_eq!(root, ours(alloy_consensus::EMPTY_ROOT_HASH.0));
    assert_eq!(receipt_trie_root(&vec![]), ours(alloy_consensus::EMPTY_ROOT_HASH.0));
}

#[test]
fn receipt_roots_need_byzantium() {
    assert_eq!(
        PevmEthereum::mainnet().calculate_receipt_root(SpecId::SPURIOUS_DRAGON, &vec![], &vec![]),
        Err(CalculateReceiptRootError::Unsupported)
    );
}

#[test]
fn the_ethereum_receipt_root_is_the_ordered_trie_root() {
    // More than 128 receipts, so that the keys of 0 and of 128 onwards are ordered too.
    let types: Vec<TxType> = (0..200u64)
        .map(|i| [TxType::Legacy, TxType::Eip2930, TxType::Eip1559, TxType::Eip4844, TxType::Eip7702][(i % 5) as usize])
        .collect();
    let receipts: Vec<TxReceipt> = (0..200).map(receipt).collect();
    let envelopes: Vec<ReceiptEnvelope> = types
        .iter()
        .zip(&receipts)
        .map(|(t, r)| {
            let r = alloy_receipt(r).with_bloom();
            match t {
                TxType::Legacy => ReceiptEnvelope::Legacy(r),
                TxType::Eip2930 => ReceiptEnvelope::Eip2930(r),
                TxType::Eip1559 => ReceiptEnvelope::Eip1559(r),
                TxType::Eip4844 => ReceiptEnvelope::Eip4844(r),
                _ => ReceiptEnvelope::Eip7702(r),
            }
        })
        .collect();
    let expected = alloy_consensus::proofs::calculate_receipt_root(&envelopes);
    let root = PevmEthereum::mainnet().calculate_receipt_root(SpecId::CANCUN, &types, &receipts).unwrap();
    assert_eq!(root, ours(expected.0));
    // Fewer results than transactions: only the paired ones count.
    let root = PevmEthereum::mainnet().calculate_receipt_root(SpecId::CANCUN, &types, &receipts[..3].to_vec()).unwrap();
    assert_eq!(root, ours(alloy_consensus::proofs::calculate_receipt_root(&envelopes[..3]).0));
}

#[test]
fn a_single_receipt_changes_the_root() {
    let types = vec![TxType::Eip1559];
    let a = PevmEthereum::mainnet().calculate_receipt_root(SpecId::CANCUN, &types, &vec![receipt(1)]).unwrap();
    let b = PevmEthereum::mainnet().calculate_receipt_root(SpecId::CANCUN, &types, &vec![receipt(2)]).unwrap();
    assert_ne!(a, b);
    assert_ne!(a, ours(alloy_consensus::EMPTY_ROOT_HASH.0));
}

fn op_envelopes(types: &[TxType], receipts: &[TxReceipt], nonces: &[Option<u64>], canyon: bool) -> Vec<OpReceiptEnvelope> {
    types
        .iter()
        .zip(receipts)
        .zip(nonces)
        .map(|((t, r), n)| {
            let r = alloy_receipt(r);
            match t {
                TxType::Legacy => OpReceiptEnvelope::Legacy(r.with_bloom()),
                TxType::Eip2930 => OpReceiptEnvelope::Eip2930(r.with_bloom()),
                TxType::Eip1559 => OpReceiptEnvelope::Eip1559(r.with_bloom()),
                TxType::Eip7702 => OpReceiptEnvelope::Eip7702(r.with_bloom()),
                TxType::PostExec => OpReceiptEnvelope::PostExec(r.with_bloom()),
                _ => OpReceiptEnvelope::Deposit(
                    OpDepositReceipt {
                        inner: r,
                        deposit_nonce: canyon.then_some(n.unwrap() - 1),
                        deposit_receipt_version: canyon.then_some(1),
                    }
                    .with_bloom(),
                ),
            }
        })
        .collect()
}

#[test]
fn optimism_deposit_receipts_carry_their_nonce_from_canyon() {
    let types = vec![TxType::Deposit, TxType::Eip1559, TxType::Legacy, TxType::Deposit];
    let receipts: Vec<TxReceipt> = (0..4).map(receipt).collect();
    let nonces = vec![Some(5), None, Some(1), Some(9)];
    for (spec, canyon) in [(OpSpecId::REGOLITH, false), (OpSpecId::CANYON, true), (OpSpecId::FJORD, true)] {
        let expected = alloy_consensus::proofs::calculate_receipt_root(&op_envelopes(&types, &receipts, &nonces, canyon));
        let root = PevmOptimism::mainnet().calculate_receipt_root(spec, &types, &receipts, &nonces).unwrap();
        assert_eq!(root, ours(expected.0));
    }
    let regolith = PevmOptimism::mainnet().calculate_receipt_root(OpSpecId::REGOLITH, &types, &receipts, &nonces);
    let canyon = PevmOptimism::mainnet().calculate_receipt_root(OpSpecId::CANYON, &types, &receipts, &nonces);
    assert_ne!(regolith, canyon);
}

#[test]
fn a_deposit_without_its_sender_fails() {
    let types = vec![TxType::Eip1559, TxType::Deposit];
    let receipts: Vec<TxReceipt> = (0..2).map(receipt).collect();
    assert_eq!(
        PevmOptimism::mainnet().calculate_receipt_root(OpSpecId::FJORD, &types, &receipts, &vec![Some(3), None]),
        Err(CalculateReceiptRootError::OpDepositMissingSender)
    );
    assert_eq!(
        PevmRise.calculate_receipt_root(OpSpecId::JOVIAN, &types, &receipts, &vec![None, None]),
        Err(CalculateReceiptRootError::OpDepositMissingSender)
    );
}

#[test]
fn rise_receipts_include_post_execution_ones() {
    let types = vec![TxType::Deposit, TxType::PostExec, TxType::Eip7702];
    let receipts: Vec<TxReceipt> = (0..3).map(receipt).collect();
    let nonces = vec![Some(2), None, None];
    let expected = alloy_consensus::proofs::calculate_receipt_root(&op_envelopes(&types, &receipts, &nonces, true));
    let root = PevmRise.calculate_receipt_root(OpSpecId::JOVIAN, &types, &receipts, &nonces).unwrap();
    assert_eq!(root, ours(expected.0));
}
