//! The receipt root of a block: the root of the Merkle Patricia trie that maps the
//! RLP encoding of each transaction index to the EIP-2718 encoding of its receipt.
use vstd::prelude::*;

use alloy_consensus::{Receipt, ReceiptEnvelope};
use alloy_eips::eip2718::Encodable2718;
use alloy_primitives::{Address as AlloyAddress, Log as AlloyLog, B256 as AlloyB256};
use op_alloy_consensus::{OpDepositReceipt, OpReceiptEnvelope};

use crate::hashing::{be_value, lemma_be_value_bound, lemma_pow256_mono, pow256};
use crate::chain::{CalculateReceiptRootError, TxType};
use crate::primitives::B256;

verus! {

/// The big-endian bytes of `x` without leading zeros (none for zero).
pub open spec fn be_trimmed(x: nat) -> Seq<u8>
    decreases x,
{
    if x == 0 {
        Seq::empty()
    } else {
        be_trimmed(x / 256).push((x % 256) as u8)
    }
}

/// The RLP encoding of an unsigned integer: `0x80` for zero, the byte itself below
/// `0x80`, else `0x80` plus the length followed by the big-endian bytes.
pub open spec fn rlp_uint(x: nat) -> Seq<u8> {
    if x == 0 {
        seq![0x80u8]
    } else if x < 0x80 {
        seq![x as u8]
    } else {
        seq![(0x80 + be_trimmed(x).len()) as u8] + be_trimmed(x)
    }
}

/// The lexicographic order of byte strings, a proper prefix first.
pub open spec fn lex_lt(a: Seq<u8>, b: Seq<u8>) -> bool
    decreases a.len(),
{
    if b.len() == 0 {
        false
    } else if a.len() == 0 {
        true
    } else if a[0] != b[0] {
        a[0] < b[0]
    } else {
        lex_lt(a.drop_first(), b.drop_first())
    }
}

/// No byte string comes before itself.
proof fn lemma_lex_irreflexive(a: Seq<u8>)
    ensures
        !lex_lt(a, a),
    decreases a.len(),
{
    if a.len() > 0 {
        lemma_lex_irreflexive(a.drop_first());
    }
}

/// The first byte of an RLP-encoded integer: at most `0x80` for a single byte,
/// else `0x80` plus the length of what follows.
proof fn lemma_rlp_uint_head(x: nat)
    requires
        x < pow256(8),
    ensures
        rlp_uint(x).len() >= 1,
        rlp_uint(x).len() == 1 ==> rlp_uint(x)[0] <= 0x80,
        rlp_uint(x).len() > 1 ==> rlp_uint(x)[0] == 0x80 + rlp_uint(x).len() - 1,
{
    if x >= 0x80 {
        let t = be_trimmed(x);
        assert(t == be_trimmed(x / 256).push((x % 256) as u8));
        assert((seq![(0x80 + t.len()) as u8] + t)[0] == (0x80 + t.len()) as u8);
        lemma_be_trimmed_len_bound(x, 8);
    }
}

/// Of two RLP-encoded integers in ascending order, the first is not a prefix of
/// the second: the trie needs its keys prefix-free.
pub proof fn lemma_rlp_uint_not_prefix(x: nat, y: nat)
    requires
        x < pow256(8),
        y < pow256(8),
        lex_lt(rlp_uint(x), rlp_uint(y)),
    ensures
        !rlp_uint(x).is_prefix_of(rlp_uint(y)),
{
    let a = rlp_uint(x);
    let b = rlp_uint(y);
    lemma_rlp_uint_head(x);
    lemma_rlp_uint_head(y);
    if a.is_prefix_of(b) {
        if a.len() == b.len() {
            assert(a =~= b);
            lemma_lex_irreflexive(a);
        } else {
            assert(a[0] == b.subrange(0, a.len() as int)[0]);
        }
    }
}

/// The transaction index at position `p` of the ascending order of the keys of
/// `n` receipts: the indices 1 to 127 (single-byte keys) come first, then 0
/// (key `0x80`), then 128 onwards.
pub open spec fn key_order_index(p: nat, n: nat) -> nat {
    if p > 0x7f {
        p
    } else if p == 0x7f || p + 1 == n {
        0
    } else {
        p + 1
    }
}

/// The leaves of the receipt trie, in ascending key order: the key of receipt `i`
/// is the RLP encoding of `i`, its value the encoded receipt.
pub open spec fn receipt_leaves(encodings: Seq<Seq<u8>>) -> Seq<(Seq<u8>, Seq<u8>)> {
    Seq::new(
        encodings.len(),
        |p: int|
            {
                let i = key_order_index(p as nat, encodings.len());
                (rlp_uint(i), encodings[i as int])
            },
    )
}

/// Whether the keys of `leaves` are non-empty and strictly ascending.
pub open spec fn keys_ascending(leaves: Seq<(Seq<u8>, Seq<u8>)>) -> bool {
    &&& forall|p: int| 0 <= p < leaves.len() ==> (#[trigger] leaves[p]).0.len() > 0
    &&& forall|p: int| 0 <= p && p + 1 < leaves.len() ==> lex_lt(#[trigger] leaves[p].0, leaves[p + 1].0)
}

proof fn lemma_be_trimmed_len_mono(x: nat, y: nat)
    requires
        x <= y,
    ensures
        be_trimmed(x).len() <= be_trimmed(y).len(),
    decreases y,
{
    if x > 0 {
        lemma_be_trimmed_len_mono(x / 256, y / 256);
    }
}

proof fn lemma_be_trimmed_len_bound(x: nat, k: nat)
    requires
        x < pow256(k),
    ensures
        be_trimmed(x).len() <= k,
    decreases k,
{
    if x > 0 {
        assert(k > 0);
        assert(x / 256 < pow256((k - 1) as nat));
        lemma_be_trimmed_len_bound(x / 256, (k - 1) as nat);
    }
}

/// Appending one byte to strings of the same length keeps their order, and
/// orders equal strings by the appended bytes.
proof fn lemma_lex_push(a: Seq<u8>, b: Seq<u8>, x: u8, y: u8)
    requires
        a.len() == b.len(),
        lex_lt(a, b) || (a == b && x < y),
    ensures
        lex_lt(a.push(x), b.push(y)),
    decreases a.len(),
{
    if a.len() == 0 {
        assert(a.push(x)[0] == x);
        assert(b.push(y)[0] == y);
    } else {
        assert(a.push(x)[0] == a[0]);
        assert(b.push(y)[0] == b[0]);
        assert(a.push(x).drop_first() =~= a.drop_first().push(x));
        assert(b.push(y).drop_first() =~= b.drop_first().push(y));
        if a[0] == b[0] {
            if a == b {
            } else {
                assert(a.drop_first() != b.drop_first()) by {
                    if a.drop_first() == b.drop_first() {
                        assert forall|k: int| 0 <= k < a.len() implies a[k] == b[k] by {
                            if k > 0 {
                                assert(a[k] == a.drop_first()[k - 1]);
                                assert(b[k] == b.drop_first()[k - 1]);
                            }
                        }
                        assert(a =~= b);
                    }
                }
            }
            lemma_lex_push(a.drop_first(), b.drop_first(), x, y);
        }
    }
}

/// Smaller numbers with as many bytes have lexicographically smaller bytes.
proof fn lemma_be_trimmed_lt(x: nat, y: nat)
    requires
        x < y,
        be_trimmed(x).len() == be_trimmed(y).len(),
    ensures
        lex_lt(be_trimmed(x), be_trimmed(y)),
    decreases y,
{
    if x == 0 {
        assert(be_trimmed(y).len() > 0);
    } else {
        let (qx, qy) = (x / 256, y / 256);
        assert(qx <= qy);
        if qx < qy {
            lemma_be_trimmed_lt(qx, qy);
        } else {
            assert(x % 256 < y % 256);
        }
        lemma_lex_push(be_trimmed(qx), be_trimmed(qy), (x % 256) as u8, (y % 256) as u8);
    }
}

/// A common first byte does not change the order.
proof fn lemma_lex_cons(h: u8, a: Seq<u8>, b: Seq<u8>)
    requires
        lex_lt(a, b),
    ensures
        lex_lt(seq![h] + a, seq![h] + b),
{
    assert((seq![h] + a).drop_first() =~= a);
    assert((seq![h] + b).drop_first() =~= b);
}

/// The keys of indices of eight bytes at most ascend with the indices from 128 on.
proof fn lemma_rlp_uint_lt(i: nat, j: nat)
    requires
        0x80 <= i < j < pow256(8),
    ensures
        lex_lt(rlp_uint(i), rlp_uint(j)),
{
    lemma_be_trimmed_len_mono(i, j);
    lemma_be_trimmed_len_bound(j, 8);
    let (bi, bj) = (be_trimmed(i), be_trimmed(j));
    if bi.len() == bj.len() {
        lemma_be_trimmed_lt(i, j);
        lemma_lex_cons((0x80 + bi.len()) as u8, bi, bj);
    } else {
        assert(rlp_uint(i)[0] == (0x80 + bi.len()) as u8);
        assert(rlp_uint(j)[0] == (0x80 + bj.len()) as u8);
    }
}

/// The positions of the key order list each index below `n` once, and the keys
/// strictly ascend along them.
pub proof fn lemma_key_order(n: nat)
    requires
        n <= pow256(8),
    ensures
        forall|p: nat| p < n ==> #[trigger] key_order_index(p, n) < n,
        forall|p: nat, q: nat| p < n && q < n && p != q ==> #[trigger] key_order_index(p, n) != #[trigger] key_order_index(q, n),
        forall|p: nat| #![trigger key_order_index(p, n)] p + 1 < n ==> lex_lt(rlp_uint(key_order_index(p, n)), rlp_uint(key_order_index(p + 1, n))),
        forall|p: nat| p < n ==> (#[trigger] rlp_uint(key_order_index(p, n))).len() > 0,
{
    assert forall|p: nat| #![trigger key_order_index(p, n)] p + 1 < n implies lex_lt(
        rlp_uint(key_order_index(p, n)),
        rlp_uint(key_order_index(p + 1, n)),
    ) by {
        let (i, j) = (key_order_index(p, n), key_order_index(p + 1, n));
        if p >= 0x80 {
            lemma_rlp_uint_lt(p, p + 1);
        } else if p == 0x7f {
            assert(be_trimmed(0) == Seq::<u8>::empty());
            assert(be_trimmed(128) =~= seq![128u8]);
            assert(rlp_uint(j)[0] == 0x81);
        } else if j == 0 {
            assert(rlp_uint(i)[0] == i);
        } else {
            assert(rlp_uint(i)[0] == i);
            assert(rlp_uint(j)[0] == j);
        }
    }
    assert forall|p: nat| p < n implies (#[trigger] rlp_uint(key_order_index(p, n))).len() > 0 by {
        let i = key_order_index(p, n);
        if i >= 0x80 {
            assert(rlp_uint(i).len() == 1 + be_trimmed(i).len());
        }
    }
}

/// The leaves of the receipt trie have non-empty, strictly ascending keys, the
/// order the trie builder demands, for any number of receipts that a `u64`
/// index can count.
pub proof fn lemma_receipt_leaves_ascending(encodings: Seq<Seq<u8>>)
    requires
        encodings.len() <= pow256(8),
    ensures
        keys_ascending(receipt_leaves(encodings)),
{
    let n = encodings.len();
    let leaves = receipt_leaves(encodings);
    lemma_key_order(n);
    assert forall|p: int| 0 <= p < leaves.len() implies (#[trigger] leaves[p]).0.len() > 0 by {
        assert(rlp_uint(key_order_index(p as nat, n)).len() > 0);
    }
    assert forall|p: int| 0 <= p && p + 1 < leaves.len() implies lex_lt(#[trigger] leaves[p].0, leaves[p + 1].0) by {
        let q = p as nat;
        assert(key_order_index(q, n) < n);
        assert((q + 1) as int == p + 1);
        assert(lex_lt(rlp_uint(key_order_index(q, n)), rlp_uint(key_order_index(q + 1, n))));
    }
}

/// The number that 32 big-endian bytes stand for, as a hash.
pub open spec fn b256_from_bytes(bytes: Seq<u8>) -> B256 {
    B256 {
        w0: be_value(bytes.subrange(0, 8)) as u64,
        w1: be_value(bytes.subrange(8, 16)) as u64,
        w2: be_value(bytes.subrange(16, 24)) as u64,
        w3: be_value(bytes.subrange(24, 32)) as u64,
    }
}

/// Declares `alloy_trie::HashBuilder`, which builds the root of a trie from its
/// leaves added in ascending key order.
#[verifier::external_type_specification]
#[verifier::external_body]
#[verifier::reject_recursive_types(K)]
pub struct ExHashBuilder<K>(alloy_trie::HashBuilder<K>);

/// Declares `alloy_trie::proof::AddedRemovedKeys`, the default parameter of
/// `HashBuilder`.
#[verifier::external_type_specification]
#[verifier::external_body]
pub struct ExAddedRemovedKeys(alloy_trie::proof::AddedRemovedKeys);

/// The leaves added to a hash builder so far, in order, as bytes.
pub uninterp spec fn hash_builder_leaves(builder: alloy_trie::HashBuilder) -> Seq<(Seq<u8>, Seq<u8>)>;

/// The root that `alloy_trie::HashBuilder::root` computes from the leaves added:
/// the 32 bytes of the keccak hash of the trie's root node.
pub uninterp spec fn trie_root(leaves: Seq<(Seq<u8>, Seq<u8>)>) -> Seq<u8>;

/// Wraps `alloy_trie::HashBuilder::default`: a builder with no leaf.
#[verifier::external_body]
fn hash_builder_new() -> (r: alloy_trie::HashBuilder)
    ensures
        hash_builder_leaves(r) == Seq::<(Seq<u8>, Seq<u8>)>::empty(),
{
    alloy_trie::HashBuilder::default()
}

/// Wraps `alloy_trie::HashBuilder::add_leaf` with the nibbles of `key`
/// (`Nibbles::unpack`, which takes at most 32 bytes). `add_leaf` asserts that the
/// key is greater than the last one added (the empty key at first): the nibble
/// order is the lexicographic order of the bytes. Its update of the trie also
/// asserts that the last key is not a prefix of the new one.
#[verifier::external_body]
fn hash_builder_add_leaf(builder: &mut alloy_trie::HashBuilder, key: &Vec<u8>, value: &Vec<u8>)
    requires
        0 < key@.len() <= 32,
        hash_builder_leaves(*old(builder)).len() > 0 ==> lex_lt(hash_builder_leaves(*old(builder)).last().0, key@)
            && !hash_builder_leaves(*old(builder)).last().0.is_prefix_of(key@),
    ensures
        hash_builder_leaves(*final(builder)) == hash_builder_leaves(*old(builder)).push((key@, value@)),
{
    builder.add_leaf(alloy_trie::Nibbles::unpack(key), value)
}

/// Wraps `alloy_trie::HashBuilder::root`, as its 32 bytes.
#[verifier::external_body]
fn hash_builder_root(builder: &mut alloy_trie::HashBuilder) -> (r: Vec<u8>)
    ensures
        r@ == trie_root(hash_builder_leaves(*old(builder))),
        r@.len() == 32,
{
    builder.root().to_vec()
}

/// Wraps `alloy_rlp::encode_fixed_size` of a `usize`.
#[verifier::external_body]
fn rlp_index_key(index: usize) -> (r: Vec<u8>)
    ensures
        r@ == rlp_uint(index as nat),
{
    alloy_rlp::encode_fixed_size(&index).to_vec()
}

/// The index of the receipt at position `p` of the key order.
fn key_order(p: usize, n: usize) -> (r: usize)
    requires
        p < n,
    ensures
        r == key_order_index(p as nat, n as nat),
{
    if p > 0x7f {
        p
    } else if p == 0x7f || p + 1 == n {
        0
    } else {
        p + 1
    }
}

/// The word that eight big-endian bytes from `start` stand for.
fn word_at(bytes: &Vec<u8>, start: usize) -> (r: u64)
    requires
        start + 8 <= bytes@.len(),
    ensures
        r == be_value(bytes@.subrange(start as int, start + 8)),
{
    let len = bytes.len();
    assert(start + 8 <= len);
    let end = start + 8;
    let mut acc: u64 = 0;
    let mut i: usize = start;
    while i < end
        invariant
            end == start + 8,
            start <= i <= end,
            end <= bytes@.len(),
            acc == be_value(bytes@.subrange(start as int, i as int)),
        decreases end - i,
    {
        let ghost prefix = bytes@.subrange(start as int, i as int);
        assert(bytes@.subrange(start as int, i + 1).drop_last() =~= prefix);
        proof {
            lemma_be_value_bound(prefix);
            lemma_pow256_mono(prefix.len(), 7);
            assert(pow256(7) == 0x100_0000_0000_0000) by {
                reveal_with_fuel(pow256, 8);
            }
        }
        acc = acc * 256 + bytes[i] as u64;
        i = i + 1;
    }
    acc
}

/// The hash that 32 big-endian bytes stand for.
pub(crate) fn b256_from_be_bytes(bytes: &Vec<u8>) -> (r: B256)
    requires
        bytes@.len() == 32,
    ensures
        r == b256_from_bytes(bytes@),
{
    B256 { w0: word_at(bytes, 0), w1: word_at(bytes, 8), w2: word_at(bytes, 16), w3: word_at(bytes, 24) }
}

/// The views of encoded receipts.
pub open spec fn encoding_views(encodings: Seq<Vec<u8>>) -> Seq<Seq<u8>> {
    encodings.map_values(|e: Vec<u8>| e@)
}

/// The root of the trie of encoded receipts, each keyed by the RLP encoding of its
/// index; the leaves are added in ascending key order.
pub fn receipt_trie_root(encodings: &Vec<Vec<u8>>) -> (r: B256)
    ensures
        r == b256_from_bytes(trie_root(receipt_leaves(encoding_views(encodings@)))),
{
    let n = encodings.len();
    let ghost leaves = receipt_leaves(encoding_views(encodings@));
    proof {
        assert(pow256(8) == 0x1_0000_0000_0000_0000) by {
            reveal_with_fuel(pow256, 9);
        }
    }
    let mut builder = hash_builder_new();
    let mut p: usize = 0;
    while p < n
        invariant
            p <= n,
            n == encodings@.len(),
            n <= pow256(8),
            leaves == receipt_leaves(encoding_views(encodings@)),
            hash_builder_leaves(builder) =~= leaves.take(p as int),
        decreases n - p,
    {
        let i = key_order(p, n);
        let key = rlp_index_key(i);
        proof {
            lemma_key_order(n as nat);
            assert(key_order_index(p as nat, n as nat) < n);
            lemma_be_trimmed_len_bound(i as nat, 8);
            if p > 0 {
                let q = (p - 1) as nat;
                assert(key_order_index(q, n as nat) < n);
                assert(q + 1 == p);
                assert(hash_builder_leaves(builder).last() == leaves[p - 1]);
                lemma_rlp_uint_not_prefix(key_order_index(q, n as nat), key_order_index(p as nat, n as nat));
            }
            assert(rlp_uint(key_order_index(p as nat, n as nat)).len() > 0);
        }
        hash_builder_add_leaf(&mut builder, &key, &encodings[i]);
        proof {
            assert(leaves[p as int] == (key@, encodings@[i as int]@));
            assert(leaves.take(p + 1) =~= leaves.take(p as int).push(leaves[p as int]));
        }
        p = p + 1;
    }
    proof {
        assert(leaves.take(n as int) =~= leaves);
    }
    let root = hash_builder_root(&mut builder);
    b256_from_be_bytes(&root)
}

/// A log of a receipt, as bytes: a 20-byte address, 32-byte topics and the data.
#[derive(Clone, Debug, PartialEq, Eq)]
pub struct ReceiptLog {
    pub address: Vec<u8>,
    pub topics: Vec<Vec<u8>>,
    pub data: Vec<u8>,
}

/// The bytes of a log.
pub struct ReceiptLogView {
    pub address: Seq<u8>,
    pub topics: Seq<Seq<u8>>,
    pub data: Seq<u8>,
}

impl View for ReceiptLog {
    type V = ReceiptLogView;

    open spec fn view(&self) -> ReceiptLogView {
        ReceiptLogView {
            address: self.address@,
            topics: self.topics@.map_values(|t: Vec<u8>| t@),
            data: self.data@,
        }
    }
}

/// The receipt of a transaction: whether it succeeded, the gas used by the
/// block up to it, and its logs.
#[derive(Clone, Debug, PartialEq, Eq)]
pub struct TxReceipt {
    pub success: bool,
    pub cumulative_gas_used: u64,
    pub logs: Vec<ReceiptLog>,
}

/// The bytes of logs.
pub open spec fn logs_view(logs: Seq<ReceiptLog>) -> Seq<ReceiptLogView> {
    logs.map_values(|l: ReceiptLog| l@)
}

/// Every log of the receipt has a 20-byte address and 32-byte topics.
pub open spec fn receipt_well_formed(receipt: TxReceipt) -> bool {
    forall|k: int|
        #![trigger receipt.logs@[k]]
        0 <= k < receipt.logs@.len() ==> {
            let log = receipt.logs@[k];
            &&& log.address@.len() == 20
            &&& forall|t: int| 0 <= t < log.topics@.len() ==> (#[trigger] log.topics@[t])@.len() == 32
        }
}

/// The receipt envelopes of Ethereum.
#[derive(Clone, Copy, PartialEq, Eq, Structural, Debug)]
pub enum EthereumReceiptType {
    Legacy,
    Eip2930,
    Eip1559,
    Eip4844,
    Eip7702,
}

/// The receipt envelopes of Optimism and RISE. A deposit receipt carries the
/// deposit nonce and receipt version from Canyon.
#[derive(Clone, Copy, PartialEq, Eq, Structural, Debug)]
pub enum OptimismReceiptType {
    Legacy,
    Eip2930,
    Eip1559,
    Eip7702,
    PostExec,
    Deposit { deposit_nonce: Option<u64>, deposit_receipt_version: Option<u64> },
}

/// The EIP-2718 encoding that `alloy_consensus::ReceiptEnvelope` gives a receipt
/// (with the bloom of its logs) in the envelope of its type.
pub uninterp spec fn ethereum_receipt_encoding(
    receipt_type: EthereumReceiptType,
    success: bool,
    cumulative_gas_used: u64,
    logs: Seq<ReceiptLogView>,
) -> Seq<u8>;

/// The EIP-2718 encoding that `op_alloy_consensus::OpReceiptEnvelope` gives a
/// receipt (with the bloom of its logs) in the envelope of its type.
pub uninterp spec fn optimism_receipt_encoding(
    receipt_type: OptimismReceiptType,
    success: bool,
    cumulative_gas_used: u64,
    logs: Seq<ReceiptLogView>,
) -> Seq<u8>;

/// Wraps `Encodable2718::encoded_2718` of an `alloy_consensus::ReceiptEnvelope`
/// holding the receipt with its bloom (`Receipt::with_bloom`). The trait is
/// `alloy_eips::eip2718::Encodable2718`, which the provider and network crates
/// of alloy re-export. The logs are
/// converted with `Address::from_slice` and `B256::from_slice`, which take 20
/// and 32 bytes.
#[verifier::external_body]
fn encode_ethereum_receipt(receipt_type: EthereumReceiptType, receipt: &TxReceipt) -> (r: Vec<u8>)
    requires
        receipt_well_formed(*receipt),
    ensures
        r@ == ethereum_receipt_encoding(receipt_type, receipt.success, receipt.cumulative_gas_used, logs_view(receipt.logs@)),
{
    let logs = receipt.logs.iter().map(|l| AlloyLog::new_unchecked(AlloyAddress::from_slice(&l.address), l.topics.iter().map(|t| AlloyB256::from_slice(t)).collect(), l.data.clone().into())).collect();
    let r = Receipt { status: receipt.success.into(), cumulative_gas_used: receipt.cumulative_gas_used, logs }.with_bloom();
    match receipt_type {
        EthereumReceiptType::Legacy => ReceiptEnvelope::Legacy(r),
        EthereumReceiptType::Eip2930 => ReceiptEnvelope::Eip2930(r),
        EthereumReceiptType::Eip1559 => ReceiptEnvelope::Eip1559(r),
        EthereumReceiptType::Eip4844 => ReceiptEnvelope::Eip4844(r),
        EthereumReceiptType::Eip7702 => ReceiptEnvelope::Eip7702(r),
    }.encoded_2718()
}

/// Wraps `Encodable2718::encoded_2718` of an `op_alloy_consensus::OpReceiptEnvelope`
/// holding the receipt with its bloom (a deposit receipt as an `OpDepositReceipt`
/// with its nonce and version). The logs are converted as for Ethereum.
#[verifier::external_body]
fn encode_optimism_receipt(receipt_type: OptimismReceiptType, receipt: &TxReceipt) -> (r: Vec<u8>)
    requires
        receipt_well_formed(*receipt),
    ensures
        r@ == optimism_receipt_encoding(receipt_type, receipt.success, receipt.cumulative_gas_used, logs_view(receipt.logs@)),
{
    let logs = receipt.logs.iter().map(|l| AlloyLog::new_unchecked(AlloyAddress::from_slice(&l.address), l.topics.iter().map(|t| AlloyB256::from_slice(t)).collect(), l.data.clone().into())).collect();
    let r = Receipt { status: receipt.success.into(), cumulative_gas_used: receipt.cumulative_gas_used, logs };
    let envelope: fn(_) -> OpReceiptEnvelope = match receipt_type {
        OptimismReceiptType::Legacy => OpReceiptEnvelope::Legacy,
        OptimismReceiptType::Eip2930 => OpReceiptEnvelope::Eip2930,
        OptimismReceiptType::Eip1559 => OpReceiptEnvelope::Eip1559,
        OptimismReceiptType::Eip7702 => OpReceiptEnvelope::Eip7702,
        OptimismReceiptType::PostExec => OpReceiptEnvelope::PostExec,
        OptimismReceiptType::Deposit { deposit_nonce, deposit_receipt_version } => return OpReceiptEnvelope::Deposit(OpDepositReceipt { inner: r, deposit_nonce, deposit_receipt_version }.with_bloom()).encoded_2718(),
    };
    envelope(r.with_bloom()).encoded_2718()
}

/// The envelope of the receipt of an Ethereum transaction of type `t`.
pub open spec fn ethereum_receipt_type_of(t: TxType) -> EthereumReceiptType {
    match t {
        TxType::Eip2930 => EthereumReceiptType::Eip2930,
        TxType::Eip1559 => EthereumReceiptType::Eip1559,
        TxType::Eip4844 => EthereumReceiptType::Eip4844,
        TxType::Eip7702 => EthereumReceiptType::Eip7702,
        _ => EthereumReceiptType::Legacy,
    }
}

/// The number of transactions that have a result.
pub open spec fn paired_len(a: nat, b: nat) -> nat {
    if a < b {
        a
    } else {
        b
    }
}

/// The encoded receipts of an Ethereum block, one per transaction with a result.
pub open spec fn ethereum_encodings(tx_types: Seq<TxType>, receipts: Seq<TxReceipt>) -> Seq<Seq<u8>> {
    Seq::new(
        paired_len(tx_types.len(), receipts.len()),
        |i: int|
            ethereum_receipt_encoding(
                ethereum_receipt_type_of(tx_types[i]),
                receipts[i].success,
                receipts[i].cumulative_gas_used,
                logs_view(receipts[i].logs@),
            ),
    )
}

/// The receipt root of an Ethereum block from the types of its transactions and
/// their receipts, paired in order.
pub fn ethereum_receipt_root(tx_types: &Vec<TxType>, receipts: &Vec<TxReceipt>) -> (r: B256)
    requires
        forall|i: int| 0 <= i < receipts@.len() ==> receipt_well_formed(#[trigger] receipts@[i]),
    ensures
        r == b256_from_bytes(trie_root(receipt_leaves(ethereum_encodings(tx_types@, receipts@)))),
{
    let n = if tx_types.len() < receipts.len() {
        tx_types.len()
    } else {
        receipts.len()
    };
    let mut encodings: Vec<Vec<u8>> = Vec::new();
    let mut i: usize = 0;
    while i < n
        invariant
            i <= n,
            n == paired_len(tx_types@.len(), receipts@.len()),
            forall|k: int| 0 <= k < receipts@.len() ==> receipt_well_formed(#[trigger] receipts@[k]),
            encoding_views(encodings@) =~= ethereum_encodings(tx_types@, receipts@).take(i as int),
        decreases n - i,
    {
        let receipt_type = match tx_types[i] {
            TxType::Eip2930 => EthereumReceiptType::Eip2930,
            TxType::Eip1559 => EthereumReceiptType::Eip1559,
            TxType::Eip4844 => EthereumReceiptType::Eip4844,
            TxType::Eip7702 => EthereumReceiptType::Eip7702,
            _ => EthereumReceiptType::Legacy,
        };
        let encoded = encode_ethereum_receipt(receipt_type, &receipts[i]);
        encodings.push(encoded);
        proof {
            assert(ethereum_encodings(tx_types@, receipts@).take(i + 1) =~= ethereum_encodings(tx_types@, receipts@).take(
                i as int,
            ).push(encoded@));
        }
        i = i + 1;
    }
    proof {
        assert(ethereum_encodings(tx_types@, receipts@).take(n as int) =~= ethereum_encodings(tx_types@, receipts@));
    }
    receipt_trie_root(&encodings)
}

/// The envelope of the receipt of an Optimism transaction of type `t`; a deposit
/// carries its sender's nonce before it and version 1 from Canyon.
pub open spec fn optimism_receipt_type_of(t: TxType, canyon: bool, sender_nonce: u64) -> OptimismReceiptType {
    match t {
        TxType::Eip2930 => OptimismReceiptType::Eip2930,
        TxType::Eip1559 => OptimismReceiptType::Eip1559,
        TxType::Eip7702 => OptimismReceiptType::Eip7702,
        TxType::PostExec => OptimismReceiptType::PostExec,
        TxType::Deposit => OptimismReceiptType::Deposit {
            deposit_nonce: if canyon {
                Some((sender_nonce - 1) as u64)
            } else {
                None
            },
            deposit_receipt_version: if canyon {
                Some(1)
            } else {
                None
            },
        },
        _ => OptimismReceiptType::Legacy,
    }
}

/// Whether a deposit among the first `n` transactions has no sender account in
/// its state changes.
pub open spec fn deposit_sender_missing(tx_types: Seq<TxType>, sender_nonces: Seq<Option<u64>>, n: nat) -> bool {
    exists|i: int| 0 <= i < n && (#[trigger] tx_types[i]) is Deposit && sender_nonces[i] is None
}

/// The encoded receipts of an Optimism block, one per transaction with a result.
pub open spec fn optimism_encodings(
    tx_types: Seq<TxType>,
    receipts: Seq<TxReceipt>,
    sender_nonces: Seq<Option<u64>>,
    canyon: bool,
) -> Seq<Seq<u8>> {
    Seq::new(
        paired_len(tx_types.len(), receipts.len()),
        |i: int|
            optimism_receipt_encoding(
                optimism_receipt_type_of(
                    tx_types[i],
                    canyon,
                    match sender_nonces[i] {
                        Some(nonce) => nonce,
                        None => 0,
                    },
                ),
                receipts[i].success,
                receipts[i].cumulative_gas_used,
                logs_view(receipts[i].logs@),
            ),
    )
}

/// The receipt root of an Optimism-style block from the types of its
/// transactions, their receipts, and for each the nonce of its sender after it
/// (`None` when the sender is not among its changed accounts). Fails when a
/// deposit has no such nonce.
pub fn optimism_receipt_root(
    canyon: bool,
    tx_types: &Vec<TxType>,
    receipts: &Vec<TxReceipt>,
    sender_nonces: &Vec<Option<u64>>,
) -> (r: Result<B256, CalculateReceiptRootError>)
    requires
        sender_nonces@.len() == receipts@.len(),
        forall|i: int| 0 <= i < receipts@.len() ==> receipt_well_formed(#[trigger] receipts@[i]),
        forall|i: int|
            0 <= i < paired_len(tx_types@.len(), receipts@.len()) && (#[trigger] tx_types@[i]) is Deposit
                && sender_nonces@[i] is Some ==> sender_nonces@[i]->0 > 0,
    ensures
        r == if deposit_sender_missing(tx_types@, sender_nonces@, paired_len(tx_types@.len(), receipts@.len())) {
            Err::<B256, CalculateReceiptRootError>(CalculateReceiptRootError::OpDepositMissingSender)
        } else {
            Ok(b256_from_bytes(trie_root(receipt_leaves(optimism_encodings(tx_types@, receipts@, sender_nonces@, canyon)))))
        },
{
    let n = if tx_types.len() < receipts.len() {
        tx_types.len()
    } else {
        receipts.len()
    };
    let ghost all = optimism_encodings(tx_types@, receipts@, sender_nonces@, canyon);
    let mut encodings: Vec<Vec<u8>> = Vec::new();
    let mut i: usize = 0;
    while i < n
        invariant
            i <= n,
            n == paired_len(tx_types@.len(), receipts@.len()),
            sender_nonces@.len() == receipts@.len(),
            all == optimism_encodings(tx_types@, receipts@, sender_nonces@, canyon),
            forall|k: int| 0 <= k < receipts@.len() ==> receipt_well_formed(#[trigger] receipts@[k]),
            forall|k: int|
                0 <= k < n && (#[trigger] tx_types@[k]) is Deposit && sender_nonces@[k] is Some ==> sender_nonces@[k]->0 > 0,
            !deposit_sender_missing(tx_types@, sender_nonces@, i as nat),
            encoding_views(encodings@) =~= all.take(i as int),
        decreases n - i,
    {
        let receipt_type = match tx_types[i] {
            TxType::Eip2930 => OptimismReceiptType::Eip2930,
            TxType::Eip1559 => OptimismReceiptType::Eip1559,
            TxType::Eip7702 => OptimismReceiptType::Eip7702,
            TxType::PostExec => OptimismReceiptType::PostExec,
            TxType::Deposit => match sender_nonces[i] {
                None => {
                    proof {
                        assert(tx_types@[i as int] is Deposit);
                    }
                    return Err(CalculateReceiptRootError::OpDepositMissingSender);
                },
                Some(nonce) => {
                    let previous = nonce - 1;
                    OptimismReceiptType::Deposit {
                        deposit_nonce: if canyon {
                            Some(previous)
                        } else {
                            None
                        },
                        deposit_receipt_version: if canyon {
                            Some(1)
                        } else {
                            None
                        },
                    }
                },
            },
            _ => OptimismReceiptType::Legacy,
        };
        let encoded = encode_optimism_receipt(receipt_type, &receipts[i]);
        encodings.push(encoded);
        proof {
            assert(all.take(i + 1) =~= all.take(i as int).push(encoded@));
            assert(!deposit_sender_missing(tx_types@, sender_nonces@, (i + 1) as nat)) by {
                if deposit_sender_missing(tx_types@, sender_nonces@, (i + 1) as nat) {
                    let k = choose|k: int| 0 <= k < i + 1 && (#[trigger] tx_types@[k]) is Deposit && sender_nonces@[k] is None;
                    if k < i {
                        assert(deposit_sender_missing(tx_types@, sender_nonces@, i as nat));
                    }
                }
            }
        }
        i = i + 1;
    }
    proof {
        assert(all.take(n as int) =~= all);
    }
    Ok(receipt_trie_root(&encodings))
}

} // verus!
