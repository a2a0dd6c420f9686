//! Memory locations and the cheap hashes that identify them.
use vstd::prelude::*;

use crate::primitives::{Address, U256};

verus! {

/// A location of chain state that a transaction reads or writes.
#[derive(Clone, Copy, PartialEq, Eq, Structural, Debug, Hash)]
pub enum MemoryLocation {
    /// The balance and nonce of an account.
    Basic(Address),
    /// The code hash of an account.
    CodeHash(Address),
    /// A storage slot of an account.
    Storage(Address, U256),
}

/// We identify memory locations by a 64-bit hash of them in the multi-version
/// data, the read sets and the write sets.
pub type MemoryLocationHash = u64;

/// The hash that `rustc_hash::FxBuildHasher` gives a memory location on a target
/// whose pointers have `pointer_bits` bits (its multiplier and rotation depend
/// on the pointer width).
pub uninterp spec fn location_hash(location: MemoryLocation, pointer_bits: u32) -> u64;

/// Wraps `rustc_hash::FxBuildHasher::hash_one`. `FxHasher` starts from a fixed state,
/// so the same location gets the same hash in every process on targets of the
/// same pointer width; nothing more is claimed.
#[verifier::external_body]
pub(crate) fn hash_deterministic(location: MemoryLocation) -> (r: MemoryLocationHash)
    ensures
        r == location_hash(location, usize::BITS),
{
    std::hash::BuildHasher::hash_one(&rustc_hash::FxBuildHasher, location)
}

/// The hash that `rustc_hash::FxBuildHasher` gives an address itself, on a
/// target whose pointers have `pointer_bits` bits.
pub uninterp spec fn address_hash(address: Address, pointer_bits: u32) -> u64;

/// Wraps `rustc_hash::FxBuildHasher::hash_one` on an address. As above, the
/// hasher starts from a fixed state; nothing more is claimed.
#[verifier::external_body]
pub(crate) fn hash_address(address: Address) -> (r: u64)
    ensures
        r == address_hash(address, usize::BITS),
{
    std::hash::BuildHasher::hash_one(&rustc_hash::FxBuildHasher, address)
}

/// 256^n
pub open spec fn pow256(n: nat) -> nat
    decreases n,
{
    if n == 0 {
        1
    } else {
        256 * pow256((n - 1) as nat)
    }
}

/// The number that bytes stand for read in big-endian order.
pub open spec fn be_value(bytes: Seq<u8>) -> nat
    decreases bytes.len(),
{
    if bytes.len() == 0 {
        0
    } else {
        be_value(bytes.drop_last()) * 256 + bytes.last() as nat
    }
}

pub(crate) proof fn lemma_be_value_bound(bytes: Seq<u8>)
    ensures
        be_value(bytes) < pow256(bytes.len()),
    decreases bytes.len(),
{
    if bytes.len() > 0 {
        lemma_be_value_bound(bytes.drop_last());
        let p = pow256((bytes.len() - 1) as nat);
        let v = be_value(bytes.drop_last());
        assert(v * 256 + bytes.last() < 256 * p) by (nonlinear_arith)
            requires
                v < p,
                bytes.last() < 256,
        ;
    }
}

/// We use the last 8 bytes of an existing hash like an address or a code hash
/// instead of rehashing it.
#[derive(Debug, Default)]
pub struct SuffixHasher(pub u64);

impl SuffixHasher {
    /// Keeps the last 8 bytes, read as a big-endian number.
    pub fn write(&mut self, bytes: &[u8])
        requires
            bytes@.len() >= 8,
        ensures
            final(self).0 == be_value(bytes@.subrange(bytes@.len() - 8, bytes@.len() as int)),
    {
        let n = bytes.len();
        let mut acc: u64 = 0;
        let mut i: usize = n - 8;
        while i < n
            invariant
                n == bytes@.len(),
                n >= 8,
                n - 8 <= i <= n,
                acc == be_value(bytes@.subrange(n - 8, i as int)),
            decreases n - i,
        {
            let ghost prefix = bytes@.subrange(n - 8, i as int);
            let ghost next = bytes@.subrange(n - 8, i + 1);
            assert(next.drop_last() =~= prefix);
            proof {
                lemma_be_value_bound(prefix);
                assert(pow256(prefix.len()) <= pow256(7)) by {
                    lemma_pow256_mono(prefix.len(), 7);
                }
                assert(pow256(7) == 0x100_0000_0000_0000) by {
                    reveal_with_fuel(pow256, 8);
                }
            }
            acc = acc * 256 + bytes[i] as u64;
            i = i + 1;
        }
        self.0 = acc;
    }

    pub fn finish(&self) -> (r: u64)
        ensures
            r == self.0,
    {
        self.0
    }
}

pub(crate) proof fn lemma_pow256_mono(a: nat, b: nat)
    requires
        a <= b,
    ensures
        pow256(a) <= pow256(b),
    decreases b,
{
    if a < b {
        lemma_pow256_mono(a, (b - 1) as nat);
    }
}

/// This is primarily used for memory location hashes, but can also be used for
/// transaction indexes, etc.
#[derive(Debug, Default)]
pub struct IdentityHasher(pub u64);

impl IdentityHasher {
    pub fn write_u64(&mut self, id: u64)
        ensures
            final(self).0 == id,
    {
        self.0 = id;
    }

    pub fn write_usize(&mut self, id: usize)
        ensures
            final(self).0 == id as u64,
    {
        self.0 = id as u64;
    }

    pub fn finish(&self) -> (r: u64)
        ensures
            r == self.0,
    {
        self.0
    }
}

} // verus!
