use pevm::precompiles::{jovian_input_check, run_jovian_precompile, JovianHalt, JovianInputError, JovianPrecompile};

#[test]
fn inputs_over_the_jovian_caps_are_refused() {
    assert_eq!(jovian_input_check(JovianPrecompile::Bn254Pairing, 81_984), Ok(()));
    assert_eq!(jovian_input_check(JovianPrecompile::Bn254Pairing, 81_985), Err(JovianInputError::Bn254PairLength));
    assert_eq!(jovian_input_check(JovianPrecompile::Bls12G1Msm, 288_961), Err(JovianInputError::G1MsmTooLong));
    assert_eq!(jovian_input_check(JovianPrecompile::Bls12G2Msm, 278_785), Err(JovianInputError::G2MsmTooLong));
    assert_eq!(jovian_input_check(JovianPrecompile::Bls12Pairing, 156_673), Err(JovianInputError::PairingTooLong));
    assert_eq!(jovian_input_check(JovianPrecompile::Bls12Pairing, 156_672), Ok(()));
}

#[test]
fn the_halt_messages_are_those_of_the_caps() {
    assert_eq!(JovianInputError::Bn254PairLength.message(), None);
    assert_eq!(JovianInputError::G1MsmTooLong.message(), Some("G1MSM input exceeds Jovian limit"));
    assert_eq!(JovianInputError::G2MsmTooLong.message(), Some("G2MSM input exceeds Jovian limit"));
    assert_eq!(JovianInputError::PairingTooLong.message(), Some("Pairing input exceeds Jovian limit"));
}

#[test]
fn a_long_input_never_reaches_the_precompile() {
    let input = vec![0u8; 288_961];
    match run_jovian_precompile(JovianPrecompile::Bls12G1Msm, &input, u64::MAX) {
        Err(JovianHalt::InputTooLong(e)) => assert_eq!(e, JovianInputError::G1MsmTooLong),
        other => panic!("unexpected {other:?}"),
    }
}

#[test]
fn an_empty_pairing_holds_at_the_base_cost() {
    let output = run_jovian_precompile(JovianPrecompile::Bn254Pairing, &[], 100_000).unwrap();
    assert_eq!(output.gas_used, 45_000);
    let mut expected = [0u8; 32];
    expected[31] = 1;
    assert_eq!(output.bytes, expected.to_vec());
}

#[test]
fn a_short_input_goes_to_the_precompile() {
    match run_jovian_precompile(JovianPrecompile::Bls12G1Msm, &[], 1_000_000) {
        Err(JovianHalt::Precompile(_)) => {}
        other => panic!("unexpected {other:?}"),
    }
}

#[test]
fn each_kind_runs_its_own_precompile() {
    let input = vec![0u8; 10];
    let g1 = revm::precompile::bls12_381::g1_msm::g1_msm(&input, 1_000_000).unwrap_err();
    let g2 = revm::precompile::bls12_381::g2_msm::g2_msm(&input, 1_000_000).unwrap_err();
    let pairing = revm::precompile::bls12_381::pairing::pairing(&input, 1_000_000).unwrap_err();
    assert_ne!(g1, g2);
    match run_jovian_precompile(JovianPrecompile::Bls12G1Msm, &input, 1_000_000) {
        Err(JovianHalt::Precompile(h)) => assert_eq!(h, g1),
        other => panic!("unexpected {other:?}"),
    }
    match run_jovian_precompile(JovianPrecompile::Bls12G2Msm, &input, 1_000_000) {
        Err(JovianHalt::Precompile(h)) => assert_eq!(h, g2),
        other => panic!("unexpected {other:?}"),
    }
    match run_jovian_precompile(JovianPrecompile::Bls12Pairing, &input, 1_000_000) {
        Err(JovianHalt::Precompile(h)) => assert_eq!(h, pairing),
        other => panic!("unexpected {other:?}"),
    }
}

#[test]
fn the_gas_limit_reaches_the_precompile() {
    match run_jovian_precompile(JovianPrecompile::Bn254Pairing, &[], 44_999) {
        Err(JovianHalt::Precompile(h)) => assert_eq!(h, revm::precompile::PrecompileHalt::OutOfGas),
        other => panic!("unexpected {other:?}"),
    }
}
