use pevm::chain::ethereum::{
    PevmEthereum, SEPOLIA_CANCUN_TIMESTAMP, SEPOLIA_CHAIN_ID, SEPOLIA_OSAKA_TIMESTAMP,
    SEPOLIA_PARIS_BLOCK, SEPOLIA_PRAGUE_TIMESTAMP, SEPOLIA_SHANGHAI_TIMESTAMP,
};
use pevm::chain::{Header, SpecId};

fn header(number: u64, timestamp: u64) -> Header {
    Header {
        number,
        timestamp,
        ..Default::default()
    }
}

#[test]
fn sepolia_has_the_expected_chain_id() {
    assert_eq!(PevmEthereum::sepolia().id(), SEPOLIA_CHAIN_ID);
}

#[test]
fn sepolia_uses_london_before_the_merge() {
    let chain = PevmEthereum::sepolia();
    assert_eq!(chain.get_block_spec(&header(0, 0)), Ok(SpecId::LONDON));
    assert_eq!(
        chain.get_block_spec(&header(SEPOLIA_PARIS_BLOCK - 1, 1_633_267_480)),
        Ok(SpecId::LONDON)
    );
}

#[test]
fn sepolia_activates_each_supported_hardfork_at_its_boundary() {
    let chain = PevmEthereum::sepolia();
    let cases = [
        (SEPOLIA_PARIS_BLOCK, 0, SpecId::MERGE),
        (SEPOLIA_PARIS_BLOCK, SEPOLIA_SHANGHAI_TIMESTAMP - 1, SpecId::MERGE),
        (SEPOLIA_PARIS_BLOCK, SEPOLIA_SHANGHAI_TIMESTAMP, SpecId::SHANGHAI),
        (SEPOLIA_PARIS_BLOCK, SEPOLIA_CANCUN_TIMESTAMP - 1, SpecId::SHANGHAI),
        (SEPOLIA_PARIS_BLOCK, SEPOLIA_CANCUN_TIMESTAMP, SpecId::CANCUN),
        (SEPOLIA_PARIS_BLOCK, SEPOLIA_PRAGUE_TIMESTAMP - 1, SpecId::CANCUN),
        (SEPOLIA_PARIS_BLOCK, SEPOLIA_PRAGUE_TIMESTAMP, SpecId::PRAGUE),
        (SEPOLIA_PARIS_BLOCK, SEPOLIA_OSAKA_TIMESTAMP - 1, SpecId::PRAGUE),
        (SEPOLIA_PARIS_BLOCK, SEPOLIA_OSAKA_TIMESTAMP, SpecId::OSAKA),
    ];

    for (number, timestamp, expected) in cases {
        assert_eq!(
            chain.get_block_spec(&header(number, timestamp)),
            Ok(expected),
            "unexpected spec at block {number}, timestamp {timestamp}"
        );
    }
}

#[test]
fn mainnet_has_chain_id_one() {
    assert_eq!(PevmEthereum::mainnet().id(), 1);
}
