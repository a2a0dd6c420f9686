use pevm::hashing::{IdentityHasher, SuffixHasher};

#[test]
fn a_suffix_hasher_keeps_the_last_eight_bytes() {
    let mut hasher = SuffixHasher::default();
    let bytes: Vec<u8> = (1..=20).collect();
    hasher.write(&bytes);
    assert_eq!(hasher.finish(), 0x0d0e_0f10_1112_1314);
}

#[test]
fn a_suffix_hasher_reads_exactly_eight_bytes_big_endian() {
    let mut hasher = SuffixHasher::default();
    hasher.write(&[0, 0, 0, 0, 0, 0, 1, 2]);
    assert_eq!(hasher.finish(), 0x0102);
    hasher.write(&[0xff; 32]);
    assert_eq!(hasher.finish(), u64::MAX);
}

#[test]
fn an_identity_hasher_returns_what_it_was_given() {
    let mut hasher = IdentityHasher::default();
    assert_eq!(hasher.finish(), 0);
    hasher.write_u64(0xdead_beef);
    assert_eq!(hasher.finish(), 0xdead_beef);
    hasher.write_usize(7);
    assert_eq!(hasher.finish(), 7);
}
