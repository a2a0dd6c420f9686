//! The RISE precompiles that cap the size of their input (the Jovian limits on
//! the bn254 pairing and the BLS12-381 multi-scalar multiplications and pairing).
use vstd::prelude::*;

use revm::precompile::PrecompileHalt;

verus! {

/// Declares `revm::precompile::PrecompileHalt`, why a precompile halted.
#[verifier::external_type_specification]
#[verifier::external_body]
pub struct ExPrecompileHalt(PrecompileHalt);

/// The precompiles whose input RISE caps.
#[derive(Clone, Copy, PartialEq, Eq, Structural, Debug)]
pub enum JovianPrecompile {
    Bn254Pairing,
    Bls12G1Msm,
    Bls12G2Msm,
    Bls12Pairing,
}

/// Why a capped precompile refused its input before running.
#[derive(Clone, Copy, PartialEq, Eq, Structural, Debug)]
pub enum JovianInputError {
    /// The bn254 pairing input is too long (revm's `Bn254PairLength`).
    Bn254PairLength,
    /// The G1 multi-scalar multiplication input exceeds the limit.
    G1MsmTooLong,
    /// The G2 multi-scalar multiplication input exceeds the limit.
    G2MsmTooLong,
    /// The BLS12-381 pairing input exceeds the limit.
    PairingTooLong,
}

impl JovianInputError {
    /// The message of the halt that reports the error, for the caps that halt
    /// with a message; the bn254 pairing has a halt of its own.
    pub fn message(&self) -> (r: Option<&'static str>)
        ensures
            r is None <==> *self == JovianInputError::Bn254PairLength,
    {
        match self {
            JovianInputError::Bn254PairLength => None,
            JovianInputError::G1MsmTooLong => Some("G1MSM input exceeds Jovian limit"),
            JovianInputError::G2MsmTooLong => Some("G2MSM input exceeds Jovian limit"),
            JovianInputError::PairingTooLong => Some("Pairing input exceeds Jovian limit"),
        }
    }
}

/// The longest input, in bytes, that a capped precompile accepts.
pub open spec fn jovian_input_limit(p: JovianPrecompile) -> nat {
    match p {
        JovianPrecompile::Bn254Pairing => 81_984,
        JovianPrecompile::Bls12G1Msm => 288_960,
        JovianPrecompile::Bls12G2Msm => 278_784,
        JovianPrecompile::Bls12Pairing => 156_672,
    }
}

/// The error a capped precompile gives for too long an input.
pub open spec fn jovian_input_error(p: JovianPrecompile) -> JovianInputError {
    match p {
        JovianPrecompile::Bn254Pairing => JovianInputError::Bn254PairLength,
        JovianPrecompile::Bls12G1Msm => JovianInputError::G1MsmTooLong,
        JovianPrecompile::Bls12G2Msm => JovianInputError::G2MsmTooLong,
        JovianPrecompile::Bls12Pairing => JovianInputError::PairingTooLong,
    }
}

/// The longest input a capped precompile accepts.
pub fn jovian_max_input(p: JovianPrecompile) -> (r: usize)
    ensures
        r == jovian_input_limit(p),
{
    match p {
        JovianPrecompile::Bn254Pairing => 81_984,
        JovianPrecompile::Bls12G1Msm => 288_960,
        JovianPrecompile::Bls12G2Msm => 278_784,
        JovianPrecompile::Bls12Pairing => 156_672,
    }
}

/// Checks the length of an input against the cap of its precompile.
pub fn jovian_input_check(p: JovianPrecompile, input_len: usize) -> (r: Result<(), JovianInputError>)
    ensures
        r == if input_len > jovian_input_limit(p) {
            Err(jovian_input_error(p))
        } else {
            Ok::<(), JovianInputError>(())
        },
{
    if input_len > jovian_max_input(p) {
        Err(match p {
            JovianPrecompile::Bn254Pairing => JovianInputError::Bn254PairLength,
            JovianPrecompile::Bls12G1Msm => JovianInputError::G1MsmTooLong,
            JovianPrecompile::Bls12G2Msm => JovianInputError::G2MsmTooLong,
            JovianPrecompile::Bls12Pairing => JovianInputError::PairingTooLong,
        })
    } else {
        Ok(())
    }
}

/// What a precompile returned, in the library's terms: the gas it used and
/// its output bytes.
#[derive(Clone, Debug, PartialEq, Eq)]
pub struct PrecompileOutput {
    pub gas_used: u64,
    pub bytes: Vec<u8>,
}

/// What `revm::precompile::bn254::run_pair` returns at the Istanbul costs for an
/// input and a gas limit: the gas used and output bytes, or why it halted.
pub uninterp spec fn bn254_pair_result(input: Seq<u8>, gas_limit: u64) -> Result<(u64, Seq<u8>), PrecompileHalt>;

/// What `revm::precompile::bls12_381::g1_msm::g1_msm` returns.
pub uninterp spec fn bls12_g1_msm_result(input: Seq<u8>, gas_limit: u64) -> Result<(u64, Seq<u8>), PrecompileHalt>;

/// What `revm::precompile::bls12_381::g2_msm::g2_msm` returns.
pub uninterp spec fn bls12_g2_msm_result(input: Seq<u8>, gas_limit: u64) -> Result<(u64, Seq<u8>), PrecompileHalt>;

/// What `revm::precompile::bls12_381::pairing::pairing` returns.
pub uninterp spec fn bls12_pairing_result(input: Seq<u8>, gas_limit: u64) -> Result<(u64, Seq<u8>), PrecompileHalt>;

/// Whether a precompile's result, as the library holds it, is `expected`.
pub open spec fn result_is(r: Result<PrecompileOutput, PrecompileHalt>, expected: Result<(u64, Seq<u8>), PrecompileHalt>) -> bool {
    match r {
        Ok(o) => expected == Ok::<(u64, Seq<u8>), PrecompileHalt>((o.gas_used, o.bytes@)),
        Err(h) => expected == Err::<(u64, Seq<u8>), PrecompileHalt>(h),
    }
}

/// What the precompile capped as `p` returns for an input and a gas limit.
pub open spec fn precompile_result(p: JovianPrecompile, input: Seq<u8>, gas_limit: u64) -> Result<(u64, Seq<u8>), PrecompileHalt> {
    match p {
        JovianPrecompile::Bn254Pairing => bn254_pair_result(input, gas_limit),
        JovianPrecompile::Bls12G1Msm => bls12_g1_msm_result(input, gas_limit),
        JovianPrecompile::Bls12G2Msm => bls12_g2_msm_result(input, gas_limit),
        JovianPrecompile::Bls12Pairing => bls12_pairing_result(input, gas_limit),
    }
}

/// Wraps `revm::precompile::bn254::run_pair` at the Istanbul costs (34,000 gas
/// per point, 45,000 base); its output is converted to the library's type.
/// Its gas count `len / 192 * 34000 + 45000` is computed in `u64`, so it is only
/// called on inputs within the Jovian cap.
#[verifier::external_body]
fn bn254_pairing(input: &[u8], gas_limit: u64) -> (r: Result<PrecompileOutput, PrecompileHalt>)
    requires
        input@.len() <= 81_984,
    ensures
        result_is(r, bn254_pair_result(input@, gas_limit)),
{
    let per_point = revm::precompile::bn254::pair::ISTANBUL_PAIR_PER_POINT;
    let base = revm::precompile::bn254::pair::ISTANBUL_PAIR_BASE;
    match revm::precompile::bn254::run_pair(input, per_point, base, gas_limit) {
        Ok(o) => Ok(PrecompileOutput { gas_used: o.gas_used, bytes: o.bytes.to_vec() }),
        Err(h) => Err(h),
    }
}

/// Wraps `revm::precompile::bls12_381::g1_msm::g1_msm`; its output is converted
/// to the library's type.
#[verifier::external_body]
fn bls12_g1_msm(input: &[u8], gas_limit: u64) -> (r: Result<PrecompileOutput, PrecompileHalt>)
    ensures
        result_is(r, bls12_g1_msm_result(input@, gas_limit)),
{
    match revm::precompile::bls12_381::g1_msm::g1_msm(input, gas_limit) {
        Ok(o) => Ok(PrecompileOutput { gas_used: o.gas_used, bytes: o.bytes.to_vec() }),
        Err(h) => Err(h),
    }
}

/// Wraps `revm::precompile::bls12_381::g2_msm::g2_msm`; its output is converted
/// to the library's type.
#[verifier::external_body]
fn bls12_g2_msm(input: &[u8], gas_limit: u64) -> (r: Result<PrecompileOutput, PrecompileHalt>)
    ensures
        result_is(r, bls12_g2_msm_result(input@, gas_limit)),
{
    match revm::precompile::bls12_381::g2_msm::g2_msm(input, gas_limit) {
        Ok(o) => Ok(PrecompileOutput { gas_used: o.gas_used, bytes: o.bytes.to_vec() }),
        Err(h) => Err(h),
    }
}

/// Wraps `revm::precompile::bls12_381::pairing::pairing`; its output is
/// converted to the library's type.
#[verifier::external_body]
fn bls12_pairing(input: &[u8], gas_limit: u64) -> (r: Result<PrecompileOutput, PrecompileHalt>)
    ensures
        result_is(r, bls12_pairing_result(input@, gas_limit)),
{
    match revm::precompile::bls12_381::pairing::pairing(input, gas_limit) {
        Ok(o) => Ok(PrecompileOutput { gas_used: o.gas_used, bytes: o.bytes.to_vec() }),
        Err(h) => Err(h),
    }
}

/// How a capped precompile halted: on its input's length, or in the precompile.
#[derive(Debug)]
pub enum JovianHalt {
    InputTooLong(JovianInputError),
    Precompile(PrecompileHalt),
}

/// Runs a capped precompile: an input longer than the cap is refused before the
/// precompile runs; any other input goes, as it is and with the gas limit, to
/// the precompile, whose result is returned.
pub fn run_jovian_precompile(p: JovianPrecompile, input: &[u8], gas_limit: u64) -> (r: Result<
    PrecompileOutput,
    JovianHalt,
>)
    ensures
        input@.len() > jovian_input_limit(p) ==> r == Err::<PrecompileOutput, JovianHalt>(
            JovianHalt::InputTooLong(jovian_input_error(p)),
        ),
        input@.len() <= jovian_input_limit(p) ==> match precompile_result(p, input@, gas_limit) {
            Ok((gas_used, bytes)) => r matches Ok(o) && o.gas_used == gas_used && o.bytes@ == bytes,
            Err(h) => r == Err::<PrecompileOutput, JovianHalt>(JovianHalt::Precompile(h)),
        },
{
    if let Err(e) = jovian_input_check(p, input.len()) {
        return Err(JovianHalt::InputTooLong(e));
    }
    let result = match p {
        JovianPrecompile::Bn254Pairing => bn254_pairing(input, gas_limit),
        JovianPrecompile::Bls12G1Msm => bls12_g1_msm(input, gas_limit),
        JovianPrecompile::Bls12G2Msm => bls12_g2_msm(input, gas_limit),
        JovianPrecompile::Bls12Pairing => bls12_pairing(input, gas_limit),
    };
    match result {
        Ok(output) => Ok(output),
        Err(halt) => Err(JovianHalt::Precompile(halt)),
    }
}

} // verus!
