//! Fixed-width words of the EVM: 256-bit unsigned integers, 32-byte hashes
//! and 20-byte addresses, held as plain machine words.
use vstd::prelude::*;

verus! {

/// 2^64
pub open spec fn limb_base() -> nat {
    0x1_0000_0000_0000_0000
}

/// 2^256 - 1, the largest 256-bit word.
pub open spec fn u256_max() -> nat {
    (limb_base() * limb_base() * limb_base() * limb_base() - 1) as nat
}

/// A 256-bit unsigned integer as four little-endian 64-bit limbs.
#[derive(Clone, Copy, PartialEq, Eq, Structural, Debug, Hash, Default)]
pub struct U256 {
    pub l0: u64,
    pub l1: u64,
    pub l2: u64,
    pub l3: u64,
}

/// A 32-byte hash as four big-endian 64-bit words (`w0` holds bytes 0..8).
#[derive(Clone, Copy, PartialEq, Eq, Structural, Debug, Hash, Default)]
pub struct B256 {
    pub w0: u64,
    pub w1: u64,
    pub w2: u64,
    pub w3: u64,
}

/// A 20-byte address as big-endian words: bytes 0..4, 4..12 and 12..20.
#[derive(Clone, Copy, PartialEq, Eq, Structural, Debug, Hash, Default)]
pub struct Address {
    pub w0: u32,
    pub w1: u64,
    pub w2: u64,
}

impl U256 {
    /// The number this word stands for.
    pub open spec fn value(self) -> nat {
        self.l0 as nat + self.l1 as nat * limb_base() + self.l2 as nat * limb_base() * limb_base()
            + self.l3 as nat * limb_base() * limb_base() * limb_base()
    }

    pub fn zero() -> (r: U256)
        ensures
            r.value() == 0,
    {
        U256 { l0: 0, l1: 0, l2: 0, l3: 0 }
    }

    pub fn max_value() -> (r: U256)
        ensures
            r.value() == u256_max(),
    {
        let r = U256 { l0: u64::MAX, l1: u64::MAX, l2: u64::MAX, l3: u64::MAX };
        assert(r.value() == u256_max());
        r
    }

    pub fn from_u64(x: u64) -> (r: U256)
        ensures
            r.value() == x,
    {
        U256 { l0: x, l1: 0, l2: 0, l3: 0 }
    }

    pub fn from_u128(x: u128) -> (r: U256)
        ensures
            r.value() == x,
    {
        let lo = (x % 0x1_0000_0000_0000_0000) as u64;
        let hi = (x / 0x1_0000_0000_0000_0000) as u64;
        U256 { l0: lo, l1: hi, l2: 0, l3: 0 }
    }

    pub fn is_zero(&self) -> (r: bool)
        ensures
            r == (self.value() == 0),
    {
        proof {
            lemma_value_nonneg_parts(*self);
        }
        self.l0 == 0 && self.l1 == 0 && self.l2 == 0 && self.l3 == 0
    }
}

/// Each limb contributes a nonnegative amount, so the word is zero only when every limb is.
pub proof fn lemma_value_nonneg_parts(x: U256)
    ensures
        x.value() >= x.l0,
        x.value() >= x.l1 as nat * limb_base(),
        x.value() >= x.l2 as nat * limb_base() * limb_base(),
        x.value() >= x.l3 as nat * limb_base() * limb_base() * limb_base(),
        (x.value() == 0) <==> (x.l0 == 0 && x.l1 == 0 && x.l2 == 0 && x.l3 == 0),
        x.value() <= u256_max(),
{
    let b = limb_base();
    assert(x.l1 as nat * b >= 0) by (nonlinear_arith);
    assert(x.l2 as nat * b * b >= 0) by (nonlinear_arith);
    assert(x.l3 as nat * b * b * b >= 0) by (nonlinear_arith);
    assert(x.l1 == 0 <==> x.l1 as nat * b == 0) by (nonlinear_arith)
        requires b == limb_base();
    assert(x.l2 == 0 <==> x.l2 as nat * b * b == 0) by (nonlinear_arith)
        requires b == limb_base();
    assert(x.l3 == 0 <==> x.l3 as nat * b * b * b == 0) by (nonlinear_arith)
        requires b == limb_base();
    assert(x.l0 as nat + x.l1 as nat * b + x.l2 as nat * b * b + x.l3 as nat * b * b * b
        <= u256_max()) by (nonlinear_arith)
        requires
            b == limb_base(),
            x.l0 < b,
            x.l1 < b,
            x.l2 < b,
            x.l3 < b,
    {
        assert(x.l1 as nat * b <= (b - 1) * b);
        assert(x.l2 as nat * b * b <= (b - 1) * b * b);
        assert(x.l3 as nat * b * b * b <= (b - 1) * b * b * b);
    }
}

/// Two words that stand for the same number are the same word.
pub proof fn lemma_value_injective(x: U256, y: U256)
    requires
        x.value() == y.value(),
    ensures
        x == y,
{
    let b = limb_base();
    let hx = x.l1 as nat + x.l2 as nat * b + x.l3 as nat * b * b;
    let hy = y.l1 as nat + y.l2 as nat * b + y.l3 as nat * b * b;
    assert(x.value() == x.l0 + hx * b) by (nonlinear_arith)
        requires
            hx == x.l1 as nat + x.l2 as nat * b + x.l3 as nat * b * b,
            b == limb_base(),
    ;
    assert(y.value() == y.l0 + hy * b) by (nonlinear_arith)
        requires
            hy == y.l1 as nat + y.l2 as nat * b + y.l3 as nat * b * b,
            b == limb_base(),
    ;
    lemma_split_digit(x.l0 as int, hx as int, y.l0 as int, hy as int, b as int);
    let mx = x.l2 as nat + x.l3 as nat * b;
    let my = y.l2 as nat + y.l3 as nat * b;
    assert(hx == x.l1 + mx * b) by (nonlinear_arith)
        requires
            hx == x.l1 as nat + x.l2 as nat * b + x.l3 as nat * b * b,
            mx == x.l2 as nat + x.l3 as nat * b,
    ;
    assert(hy == y.l1 + my * b) by (nonlinear_arith)
        requires
            hy == y.l1 as nat + y.l2 as nat * b + y.l3 as nat * b * b,
            my == y.l2 as nat + y.l3 as nat * b,
    ;
    lemma_split_digit(x.l1 as int, mx as int, y.l1 as int, my as int, b as int);
    lemma_split_digit(x.l2 as int, x.l3 as int, y.l2 as int, y.l3 as int, b as int);
}

/// The word that stands for `n` (for `n` up to the largest word).
pub open spec fn word(n: nat) -> U256 {
    choose|w: U256| w.value() == n
}

/// A word is the word of the number it stands for.
pub proof fn lemma_word(x: U256)
    ensures
        word(x.value()) == x,
{
    let w = word(x.value());
    assert(w.value() == x.value());
    lemma_value_injective(w, x);
}

proof fn lemma_split_digit(a0: int, a1: int, c0: int, c1: int, b: int)
    requires
        0 <= a0 < b,
        0 <= c0 < b,
        a1 >= 0,
        c1 >= 0,
        a0 + a1 * b == c0 + c1 * b,
    ensures
        a0 == c0,
        a1 == c1,
{
    if a1 < c1 {
        assert(a1 * b + b <= c1 * b) by (nonlinear_arith)
            requires
                a1 < c1,
                b > 0,
        ;
    } else if a1 > c1 {
        assert(c1 * b + b <= a1 * b) by (nonlinear_arith)
            requires
                c1 < a1,
                b > 0,
        ;
    }
}

/// The smaller of `a` and `b`.
pub open spec fn min_nat(a: nat, b: nat) -> nat {
    if a <= b {
        a
    } else {
        b
    }
}

/// `a + b`, held at the largest word when it does not fit.
pub open spec fn saturating_add_spec(a: nat, b: nat) -> nat {
    min_nat(a + b, u256_max())
}

/// `a - b`, held at zero when it would be negative.
pub open spec fn saturating_sub_spec(a: nat, b: nat) -> nat {
    if a >= b {
        (a - b) as nat
    } else {
        0
    }
}

/// `a * b`, held at the largest word when it does not fit.
pub open spec fn saturating_mul_spec(a: nat, b: nat) -> nat {
    min_nat(a * b, u256_max())
}

/// `|a - b|`
pub open spec fn abs_diff_spec(a: nat, b: nat) -> nat {
    if a >= b {
        (a - b) as nat
    } else {
        (b - a) as nat
    }
}

/// Wraps `alloy_primitives::U256::saturating_add` (ruint): the sum, or the largest
/// word when the sum does not fit in 256 bits.
#[verifier::external_body]
pub(crate) fn u256_saturating_add(a: U256, b: U256) -> (r: U256)
    ensures
        r.value() == saturating_add_spec(a.value(), b.value()),
{
    let x = alloy_primitives::U256::from_limbs([a.l0, a.l1, a.l2, a.l3]);
    let y = alloy_primitives::U256::from_limbs([b.l0, b.l1, b.l2, b.l3]);
    let [l0, l1, l2, l3] = x.saturating_add(y).into_limbs();
    U256 { l0, l1, l2, l3 }
}

/// Wraps `alloy_primitives::U256::saturating_sub` (ruint): the difference, or zero
/// when `b` exceeds `a`.
#[verifier::external_body]
pub(crate) fn u256_saturating_sub(a: U256, b: U256) -> (r: U256)
    ensures
        r.value() == saturating_sub_spec(a.value(), b.value()),
{
    let x = alloy_primitives::U256::from_limbs([a.l0, a.l1, a.l2, a.l3]);
    let y = alloy_primitives::U256::from_limbs([b.l0, b.l1, b.l2, b.l3]);
    let [l0, l1, l2, l3] = x.saturating_sub(y).into_limbs();
    U256 { l0, l1, l2, l3 }
}

/// Wraps `alloy_primitives::U256::saturating_mul` (ruint): the product, or the
/// largest word when the product does not fit in 256 bits.
#[verifier::external_body]
pub(crate) fn u256_saturating_mul(a: U256, b: U256) -> (r: U256)
    ensures
        r.value() == saturating_mul_spec(a.value(), b.value()),
{
    let x = alloy_primitives::U256::from_limbs([a.l0, a.l1, a.l2, a.l3]);
    let y = alloy_primitives::U256::from_limbs([b.l0, b.l1, b.l2, b.l3]);
    let [l0, l1, l2, l3] = x.saturating_mul(y).into_limbs();
    U256 { l0, l1, l2, l3 }
}

/// Wraps `alloy_primitives::U256::abs_diff` (ruint): the distance between the two numbers.
#[verifier::external_body]
pub(crate) fn u256_abs_diff(a: U256, b: U256) -> (r: U256)
    ensures
        r.value() == abs_diff_spec(a.value(), b.value()),
{
    let x = alloy_primitives::U256::from_limbs([a.l0, a.l1, a.l2, a.l3]);
    let y = alloy_primitives::U256::from_limbs([b.l0, b.l1, b.l2, b.l3]);
    let [l0, l1, l2, l3] = x.abs_diff(y).into_limbs();
    U256 { l0, l1, l2, l3 }
}

/// Wraps `alloy_primitives::U256::checked_add` (ruint): the sum when it fits in 256 bits.
#[verifier::external_body]
pub(crate) fn u256_checked_add(a: U256, b: U256) -> (r: Option<U256>)
    ensures
        match r {
            Some(s) => a.value() + b.value() <= u256_max() && s.value() == a.value() + b.value(),
            None => a.value() + b.value() > u256_max(),
        },
{
    let x = alloy_primitives::U256::from_limbs([a.l0, a.l1, a.l2, a.l3]);
    let y = alloy_primitives::U256::from_limbs([b.l0, b.l1, b.l2, b.l3]);
    match x.checked_add(y) {
        Some(s) => {
            let [l0, l1, l2, l3] = s.into_limbs();
            Some(U256 { l0, l1, l2, l3 })
        },
        None => None,
    }
}

/// Wraps `alloy_primitives::U256::checked_sub` (ruint): the difference when `b <= a`.
#[verifier::external_body]
pub(crate) fn u256_checked_sub(a: U256, b: U256) -> (r: Option<U256>)
    ensures
        match r {
            Some(s) => b.value() <= a.value() && s.value() == a.value() - b.value(),
            None => b.value() > a.value(),
        },
{
    let x = alloy_primitives::U256::from_limbs([a.l0, a.l1, a.l2, a.l3]);
    let y = alloy_primitives::U256::from_limbs([b.l0, b.l1, b.l2, b.l3]);
    match x.checked_sub(y) {
        Some(s) => {
            let [l0, l1, l2, l3] = s.into_limbs();
            Some(U256 { l0, l1, l2, l3 })
        },
        None => None,
    }
}

/// Wraps the `<` of `alloy_primitives::U256` (ruint), which orders words by the
/// numbers they stand for.
#[verifier::external_body]
pub(crate) fn u256_lt(a: U256, b: U256) -> (r: bool)
    ensures
        r == (a.value() < b.value()),
{
    let x = alloy_primitives::U256::from_limbs([a.l0, a.l1, a.l2, a.l3]);
    let y = alloy_primitives::U256::from_limbs([b.l0, b.l1, b.l2, b.l3]);
    x < y
}

/// 2^256
pub open spec fn word_modulus() -> int {
    u256_max() as int + 1
}

/// `a + b` wrapped to 256 bits.
pub open spec fn wrapping_add_spec(a: nat, b: nat) -> nat {
    (((a + b) as int) % word_modulus()) as nat
}

/// `a - b` wrapped to 256 bits.
pub open spec fn wrapping_sub_spec(a: nat, b: nat) -> nat {
    (((a - b) as int) % word_modulus()) as nat
}

/// Wraps `alloy_primitives::U256::wrapping_add` (ruint), which is also what its
/// `+` does: the sum modulo 2^256.
#[verifier::external_body]
pub(crate) fn u256_wrapping_add(a: U256, b: U256) -> (r: U256)
    ensures
        r.value() == wrapping_add_spec(a.value(), b.value()),
{
    let x = alloy_primitives::U256::from_limbs([a.l0, a.l1, a.l2, a.l3]);
    let y = alloy_primitives::U256::from_limbs([b.l0, b.l1, b.l2, b.l3]);
    let [l0, l1, l2, l3] = x.wrapping_add(y).into_limbs();
    U256 { l0, l1, l2, l3 }
}

/// Wraps `alloy_primitives::U256::wrapping_sub` (ruint), which is also what its
/// `-` does: the difference modulo 2^256.
#[verifier::external_body]
pub(crate) fn u256_wrapping_sub(a: U256, b: U256) -> (r: U256)
    ensures
        r.value() == wrapping_sub_spec(a.value(), b.value()),
{
    let x = alloy_primitives::U256::from_limbs([a.l0, a.l1, a.l2, a.l3]);
    let y = alloy_primitives::U256::from_limbs([b.l0, b.l1, b.l2, b.l3]);
    let [l0, l1, l2, l3] = x.wrapping_sub(y).into_limbs();
    U256 { l0, l1, l2, l3 }
}

} // verus!
