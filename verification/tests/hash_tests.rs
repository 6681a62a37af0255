use powblock::hash::Hashable;
use powblock::item::Record;

#[test]
fn default_hash_is_zero_digest() {
    let h = powblock::hash::Hash::default();
    assert_eq!(h.bytes(), [0u8; 32]);
    assert_eq!(h.difficulty(), 0u128);
}

#[test]
fn difficulty_of_single_low_byte() {
    let mut raw = [0u8; 32];
    raw[16] = 0xAB;
    let h = powblock::hash::Hash::new(raw);
    assert_eq!(h.difficulty(), 0xABu128);
}

#[test]
fn difficulty_of_single_high_byte() {
    let mut raw = [0u8; 32];
    raw[31] = 1;
    let h = powblock::hash::Hash::new(raw);
    assert_eq!(h.difficulty(), 1u128 << 120);
}

#[test]
fn difficulty_is_little_endian_over_last_sixteen_bytes() {
    let mut raw = [0u8; 32];
    raw[16] = 2;
    raw[17] = 1;
    let h = powblock::hash::Hash::new(raw);
    assert_eq!(h.difficulty(), 0x0102u128);
}

#[test]
fn difficulty_of_all_ones_upper_half_is_max() {
    let mut raw = [0u8; 32];
    for i in 16..32 {
        raw[i] = 0xFF;
    }
    let h = powblock::hash::Hash::new(raw);
    assert_eq!(h.difficulty(), u128::MAX);
}

#[test]
fn difficulty_ignores_first_sixteen_bytes() {
    let mut raw1 = [0u8; 32];
    let mut raw2 = [0u8; 32];
    for i in 0..16 {
        raw1[i] = 0x11;
        raw2[i] = 0xEE;
    }
    raw1[20] = 9;
    raw2[20] = 9;
    let h1 = powblock::hash::Hash::new(raw1);
    let h2 = powblock::hash::Hash::new(raw2);
    assert_eq!(h1.difficulty(), h2.difficulty());
    assert_eq!(h1.difficulty(), 9u128 << 32);
}

#[test]
fn record_serializes_to_big_endian_bytes() {
    let r = Record::new(0x0102030405060708);
    assert_eq!(r.bytes(), vec![1u8, 2, 3, 4, 5, 6, 7, 8]);
}

#[test]
fn record_digest_matches_underlying_sha256() {
    let r = Record::new(77);
    let expected = crypto_hash::digest(crypto_hash::Algorithm::SHA256, &r.bytes());
    assert_eq!(r.hash().bytes().to_vec(), expected);
}

#[test]
fn record_digests_are_deterministic() {
    let r1 = Record::new(1234567);
    let r2 = Record::new(1234567);
    assert_eq!(r1.hash().bytes(), r2.hash().bytes());
    assert_eq!(r1.bytes(), r2.bytes());
}
