use powblock::block::Block;
use powblock::hash::Hashable;
use powblock::item::Record;

fn records(values: &[u64]) -> Vec<Record> {
    let mut v = Vec::new();
    for &x in values {
        v.push(Record::new(x));
    }
    v
}

fn be_u128(x: u128) -> [u8; 16] {
    let mut out = [0u8; 16];
    for i in 0..16 {
        out[15 - i] = ((x >> (8 * i)) & 0xff) as u8;
    }
    out
}

#[test]
fn empty_block_serializes_to_exact_layout() {
    let prev = powblock::hash::Hash::new([0xAA; 32]);
    let b: Block<Record> = Block::new(0x01020304, -1, prev, Vec::new(), 5);
    let bytes = b.bytes();
    assert_eq!(bytes.len(), 68);
    assert_eq!(&bytes[0..4], &[1u8, 2, 3, 4]);
    assert_eq!(&bytes[4..12], &[0xFFu8; 8]);
    assert_eq!(&bytes[12..44], &[0xAAu8; 32]);
    assert_eq!(&bytes[44..52], &[0u8; 8]);
    assert_eq!(&bytes[52..68], &be_u128(5));
}

#[test]
fn content_items_are_serialized_between_nonce_and_difficulty() {
    let b = Block::new(0, 0, powblock::hash::Hash::default(), records(&[0x0102030405060708]), 0);
    let bytes = b.bytes();
    assert_eq!(bytes.len(), 76);
    assert_eq!(&bytes[52..60], &[1u8, 2, 3, 4, 5, 6, 7, 8]);
    assert_eq!(&bytes[60..76], &be_u128(0));
}

#[test]
fn serialization_is_deterministic() {
    let make = || Block::new(7, 123456789, powblock::hash::Hash::new([3; 32]), records(&[4, 9, 2]), 77);
    let b1 = make();
    let b2 = make();
    assert_eq!(b1.bytes(), b2.bytes());
    assert_eq!(b1.hash().bytes(), b2.hash().bytes());
    assert_eq!(b1.bytes(), b1.bytes());
}

#[test]
fn content_order_does_not_matter() {
    let b1 = Block::new(1, 2, powblock::hash::Hash::default(), records(&[5, 1, 3]), 4);
    let b2 = Block::new(1, 2, powblock::hash::Hash::default(), records(&[3, 5, 1]), 4);
    assert_eq!(b1.bytes(), b2.bytes());
    assert_eq!(b1.hash().bytes(), b2.hash().bytes());
}

#[test]
fn content_is_kept_in_ascending_order() {
    let b = Block::new(1, 2, powblock::hash::Hash::default(), records(&[5, 1, 3]), 4);
    let values: Vec<u64> = b.content().iter().map(|r| r.value).collect();
    assert_eq!(values, vec![1, 3, 5]);
}

#[test]
fn duplicate_items_are_stored_once() {
    let b1 = Block::new(1, 2, powblock::hash::Hash::default(), records(&[5, 1, 3, 3, 5]), 4);
    let b2 = Block::new(1, 2, powblock::hash::Hash::default(), records(&[1, 3, 5]), 4);
    assert_eq!(b1.content().len(), 3);
    assert_eq!(b1.bytes(), b2.bytes());
    assert_eq!(b1.bytes().len(), 68 + 3 * 8);
}

#[test]
fn changing_any_scalar_field_changes_the_bytes() {
    let base = || Block::new(1, 2, powblock::hash::Hash::new([7; 32]), records(&[10]), 4);
    let b = base();
    let changed_index = Block::new(9, 2, powblock::hash::Hash::new([7; 32]), records(&[10]), 4);
    let changed_timestamp = Block::new(1, -2, powblock::hash::Hash::new([7; 32]), records(&[10]), 4);
    let changed_prev = Block::new(1, 2, powblock::hash::Hash::new([8; 32]), records(&[10]), 4);
    let changed_difficulty = Block::new(1, 2, powblock::hash::Hash::new([7; 32]), records(&[10]), 9);
    let changed_content = Block::new(1, 2, powblock::hash::Hash::new([7; 32]), records(&[11]), 4);
    assert_ne!(b.bytes(), changed_index.bytes());
    assert_ne!(b.bytes(), changed_timestamp.bytes());
    assert_ne!(b.bytes(), changed_prev.bytes());
    assert_ne!(b.bytes(), changed_difficulty.bytes());
    assert_ne!(b.bytes(), changed_content.bytes());
}

#[test]
fn construction_sets_the_documented_initial_state() {
    let prev = powblock::hash::Hash::new([0x42; 32]);
    let b = Block::new(11, -777, prev, records(&[6]), 1000);
    assert_eq!(b.index(), 11);
    assert_eq!(b.timestamp(), -777);
    assert_eq!(b.nonce(), 0);
    assert_eq!(b.difficulty(), 1000);
    assert_eq!(b.prev_block_hash().bytes(), [0x42; 32]);
    assert_eq!(b.stored_hash().bytes(), [0u8; 32]);
}

#[test]
fn mining_with_a_huge_threshold_succeeds_quickly() {
    let mut b: Block<Record> = Block::new(0, 0, powblock::hash::Hash::default(), Vec::new(), u128::MAX);
    let found = b.mine_bounded(1000);
    assert!(found);
    assert!(b.difficulty() > b.stored_hash().difficulty());
}

#[test]
fn mined_hash_is_the_digest_of_the_final_serialization() {
    let mut b = Block::new(2, 1111, powblock::hash::Hash::new([9; 32]), records(&[1, 2]), u128::MAX);
    let found = b.mine();
    assert!(found);
    let recomputed = crypto_hash::digest(crypto_hash::Algorithm::SHA256, &b.bytes());
    assert_eq!(b.stored_hash().bytes().to_vec(), recomputed);
    assert!(b.difficulty() > b.stored_hash().difficulty());
}

#[test]
fn mining_leaves_every_other_field_alone() {
    let mut b = Block::new(3, 42, powblock::hash::Hash::new([1; 32]), records(&[8, 4]), u128::MAX);
    let found = b.mine_bounded(1000);
    assert!(found);
    assert_eq!(b.index(), 3);
    assert_eq!(b.timestamp(), 42);
    assert_eq!(b.prev_block_hash().bytes(), [1u8; 32]);
    assert_eq!(b.difficulty(), u128::MAX);
    let values: Vec<u64> = b.content().iter().map(|r| r.value).collect();
    assert_eq!(values, vec![4, 8]);
}

#[test]
fn zero_difficulty_can_never_be_mined() {
    let mut b: Block<Record> = Block::new(0, 0, powblock::hash::Hash::default(), Vec::new(), 0);
    let found = b.mine_bounded(500);
    assert!(!found);
    assert_eq!(b.stored_hash().bytes(), [0u8; 32]);
    assert_eq!(b.nonce(), 499);
}

#[test]
fn threshold_comparison_is_strictly_greater() {
    let b: Block<Record> = Block::new(0, 0, powblock::hash::Hash::default(), Vec::new(), 100);
    let mut raw = [0u8; 32];
    raw[16] = 99;
    assert!(b.dificulty_is_higher_than(&powblock::hash::Hash::new(raw)));
    raw[16] = 100;
    assert!(!b.dificulty_is_higher_than(&powblock::hash::Hash::new(raw)));
    raw[16] = 101;
    assert!(!b.dificulty_is_higher_than(&powblock::hash::Hash::new(raw)));
}
