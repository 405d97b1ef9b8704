use lane_search::binary32::Binary32;
use lane_search::dp_table::{count_leading_zero_bits, same_value, DPTable, DistinguishedPoint};

fn prob(x: f32) -> Binary32 {
    Binary32::from_bits(x.to_bits())
}

fn point(tag: u8, probability: f32) -> DistinguishedPoint {
    let mut value = [0u8; 32];
    value[0] = tag;
    value[31] = tag;
    DistinguishedPoint { value, seed: 0, steps: 0, probability: prob(probability) }
}

fn probability_of(table: &DPTable, tag: u8) -> Option<f32> {
    table.get(&point(tag, 0.0).value).map(|p| f32::from_bits(p.probability.to_bits()))
}

#[test]
fn new_table_is_empty() {
    let table = DPTable::new(4);
    assert_eq!(table.len(), 0);
    assert_eq!(table.max_entries(), 4);
    assert!(!table.contains(&[0u8; 32]));
}

#[test]
fn full_table_evicts_only_the_least_probable() {
    let mut table = DPTable::new(4);
    assert!(!table.insert_and_check(point(1, 0.1)));
    assert!(!table.insert_and_check(point(2, 0.2)));
    assert!(!table.insert_and_check(point(3, 0.3)));
    assert!(!table.insert_and_check(point(4, 0.9)));
    assert_eq!(table.len(), 4);

    assert!(!table.insert_and_check(point(5, 0.5)));
    assert_eq!(table.len(), 4);
    assert_eq!(probability_of(&table, 1), None);
    assert_eq!(probability_of(&table, 2), Some(0.2));
    assert_eq!(probability_of(&table, 3), Some(0.3));
    assert_eq!(probability_of(&table, 4), Some(0.9));
    assert_eq!(probability_of(&table, 5), Some(0.5));
}

#[test]
fn table_never_exceeds_capacity() {
    let mut table = DPTable::new(3);
    for i in 0..50u8 {
        let p = ((i as u32 * 37) % 101) as f32 / 100.0;
        table.insert_and_check(point(i, p));
        assert!(table.len() <= 3);
    }
    assert_eq!(table.len(), 3);
}

#[test]
fn reinserting_a_value_is_a_duplicate_and_changes_nothing() {
    let mut table = DPTable::new(4);
    assert!(!table.insert_and_check(point(1, 0.4)));
    assert!(!table.insert_and_check(point(2, 0.6)));
    assert!(table.insert_and_check(point(1, 0.4)));
    assert_eq!(table.len(), 2);
    assert_eq!(probability_of(&table, 1), Some(0.4));
    assert!(table.insert_and_check(point(1, 0.99)));
    assert_eq!(table.len(), 2);
    assert_eq!(probability_of(&table, 1), Some(0.4));
    assert_eq!(probability_of(&table, 2), Some(0.6));
}

#[test]
fn duplicate_in_a_full_table_evicts_nothing() {
    let mut table = DPTable::new(2);
    table.insert_and_check(point(1, 0.1));
    table.insert_and_check(point(2, 0.2));
    assert!(table.insert_and_check(point(2, 0.9)));
    assert_eq!(table.len(), 2);
    assert_eq!(probability_of(&table, 1), Some(0.1));
    assert_eq!(probability_of(&table, 2), Some(0.2));
}

#[test]
fn among_equally_improbable_entries_the_first_stored_leaves() {
    let mut table = DPTable::new(3);
    table.insert_and_check(point(1, 0.5));
    table.insert_and_check(point(2, 0.2));
    table.insert_and_check(point(3, 0.2));
    table.insert_and_check(point(4, 0.7));
    assert_eq!(probability_of(&table, 2), None);
    assert_eq!(probability_of(&table, 3), Some(0.2));
    assert_eq!(probability_of(&table, 1), Some(0.5));
    assert_eq!(probability_of(&table, 4), Some(0.7));
}

#[test]
fn a_less_probable_newcomer_still_replaces_the_minimum() {
    let mut table = DPTable::new(2);
    table.insert_and_check(point(1, 0.5));
    table.insert_and_check(point(2, 0.6));
    assert!(!table.insert_and_check(point(3, 0.1)));
    assert_eq!(table.len(), 2);
    assert_eq!(probability_of(&table, 1), None);
    assert_eq!(probability_of(&table, 3), Some(0.1));
}

#[test]
fn capacity_zero_keeps_the_latest_entry() {
    let mut table = DPTable::new(0);
    assert!(!table.insert_and_check(point(1, 0.3)));
    assert_eq!(table.len(), 1);
    assert!(!table.insert_and_check(point(2, 0.1)));
    assert_eq!(table.len(), 1);
    assert_eq!(probability_of(&table, 1), None);
    assert_eq!(probability_of(&table, 2), Some(0.1));
    let table = DPTable::default();
    assert_eq!(table.len(), 0);
    assert_eq!(table.max_entries(), 0);
}

#[test]
fn update_from_digest_takes_eight_words_least_significant_byte_first() {
    let mut table = DPTable::new(8);
    let words: [u32; 10] = [0x0403_0201, 0x0807_0605, 3, 4, 5, 6, 7, 0xff00_00aa, 99, 100];
    assert!(!table.update_from_digest(&words, prob(0.25)));
    let mut value = [0u8; 32];
    for (i, w) in words.iter().take(8).enumerate() {
        value[i * 4..i * 4 + 4].copy_from_slice(&w.to_le_bytes());
    }
    assert_eq!(&value[..8], &[1, 2, 3, 4, 5, 6, 7, 8]);
    assert_eq!(&value[28..], &[0xaa, 0, 0, 0xff]);
    assert!(table.contains(&value));
    let stored = table.get(&value).unwrap();
    assert_eq!(stored.seed, 0);
    assert_eq!(stored.steps, 0);
    assert_eq!(stored.probability.to_bits(), 0.25f32.to_bits());
    assert!(table.update_from_digest(&words[..8], prob(0.75)));
    assert_eq!(table.len(), 1);
}

#[test]
fn identical_digests_from_any_lane_coalesce() {
    let mut table = DPTable::new(8);
    let words = [7u32; 8];
    assert!(!table.update_from_digest(&words, prob(0.3)));
    assert!(table.update_from_digest(&words, prob(0.3)));
    assert!(table.update_from_digest(&words, prob(0.8)));
    assert_eq!(table.len(), 1);
}

#[test]
fn is_distinguished_counts_leading_zero_bits() {
    let mut p = point(0, 0.5);
    p.value = [0u8; 32];
    assert!(p.is_distinguished(24));
    assert!(p.is_distinguished(100));
    p.value[2] = 0x0f;
    assert!(p.is_distinguished(20));
    assert!(!p.is_distinguished(21));
    assert!(!p.is_distinguished(24));
    assert!(!p.is_distinguished(1000));
    p.value[2] = 0x10;
    assert!(!p.is_distinguished(20));
    assert!(p.is_distinguished(19));
    p.value = [0xff; 32];
    assert!(p.is_distinguished(0));
    assert!(!p.is_distinguished(1));
    p.value = [0u8; 32];
    p.value[3] = 0xff;
    assert!(p.is_distinguished(24));
    p.value[0] = 0x80;
    assert!(!p.is_distinguished(1));
    p.value[0] = 0x40;
    assert!(p.is_distinguished(1));
    assert!(!p.is_distinguished(2));
}

#[test]
fn is_distinguished_reads_the_whole_value() {
    let mut p = point(0, 0.5);
    p.value = [0u8; 32];
    p.value[3] = 0xff;
    assert!(p.is_distinguished(24));
    assert!(!p.is_distinguished(25));
    p.value[3] = 0x7f;
    assert!(p.is_distinguished(25));
    assert!(!p.is_distinguished(26));
    p.value[3] = 0;
    p.value[31] = 1;
    assert_eq!(count_leading_zero_bits(&p.value), 255);
    assert!(p.is_distinguished(255));
    assert!(!p.is_distinguished(256));
    p.value[31] = 0;
    assert_eq!(count_leading_zero_bits(&p.value), 256);
    assert!(p.is_distinguished(256));
    assert!(!p.is_distinguished(257));
    assert!(!p.is_distinguished(usize::MAX));
    for byte in 0..32 {
        for bit in 0..8 {
            let mut value = [0u8; 32];
            value[byte] = 0x80 >> bit;
            value[31] |= 1;
            assert_eq!(count_leading_zero_bits(&value), 8 * byte + bit);
        }
    }
    assert_eq!(count_leading_zero_bits(&[0xff; 32]), 0);
}

#[test]
fn same_value_compares_all_bytes() {
    let a = [3u8; 32];
    let mut b = [3u8; 32];
    assert!(same_value(&a, &b));
    b[31] = 4;
    assert!(!same_value(&a, &b));
    b[31] = 3;
    b[0] = 0;
    assert!(!same_value(&a, &b));
}
