use bitstore::store::BitArray;

fn bits_from(pattern: &str) -> Vec<bool> {
    pattern.chars().map(|c| c == '1').collect()
}

#[test]
fn initial_snapshot_is_all_false() {
    let store = BitArray::new(16);
    let snap = store.get_snapshot();
    assert_eq!(snap.len(), 16);
    assert!(snap.iter().all(|&b| !b));
}

#[test]
fn snapshot_length_matches_configured_size() {
    for n in [0usize, 1, 7, 64, 1000] {
        let store = BitArray::new(n);
        assert_eq!(store.len(), n);
        assert_eq!(store.get_snapshot().len(), n);
    }
}

#[test]
fn flip_toggles_exactly_one_bit() {
    let mut store = BitArray::new(8);
    assert_eq!(store.flip(3), Ok(()));
    assert_eq!(store.get_snapshot(), bits_from("00010000"));
}

#[test]
fn flip_twice_restores_original_value() {
    let mut store = BitArray::new(8);
    assert_eq!(store.flip(5), Ok(()));
    assert_eq!(store.flip(5), Ok(()));
    assert_eq!(store.get_snapshot(), bits_from("00000000"));
}

#[test]
fn flip_out_of_bounds_fails_and_leaves_store_unchanged() {
    let mut store = BitArray::new(8);
    assert_eq!(store.flip(2), Ok(()));
    let before = store.get_snapshot();
    assert_eq!(store.flip(8), Err("Index out of bounds"));
    assert_eq!(store.flip(usize::MAX), Err("Index out of bounds"));
    assert_eq!(store.get_snapshot(), before);
}

#[test]
fn flip_multiple_distinct_indices_toggles_each_once() {
    let mut store = BitArray::new(8);
    assert_eq!(store.flip_multiple(&[0, 3, 7]), Ok(()));
    assert_eq!(store.get_snapshot(), bits_from("10010001"));
}

#[test]
fn flip_multiple_repeated_index_toggles_twice() {
    let mut store = BitArray::new(8);
    assert_eq!(store.flip_multiple(&[2, 2, 4]), Ok(()));
    assert_eq!(store.get_snapshot(), bits_from("00001000"));
}

#[test]
fn flip_multiple_with_one_bad_index_changes_nothing() {
    let mut store = BitArray::new(8);
    assert_eq!(store.flip(1), Ok(()));
    let before = store.get_snapshot();
    assert_eq!(store.flip_multiple(&[0, 3, 8]), Err("Index out of bounds"));
    assert_eq!(store.get_snapshot(), before);
}

#[test]
fn flip_multiple_empty_batch_is_a_no_op() {
    let mut store = BitArray::new(4);
    let before = store.get_snapshot();
    assert_eq!(store.flip_multiple(&[]), Ok(()));
    assert_eq!(store.get_snapshot(), before);
}

#[test]
fn scenario_eight_bits() {
    let mut store = BitArray::new(8);
    assert_eq!(store.get_snapshot(), bits_from("00000000"));
    assert_eq!(store.flip(3), Ok(()));
    assert_eq!(store.get_snapshot(), bits_from("00010000"));
    assert_eq!(store.flip_multiple(&[0, 3, 7]), Ok(()));
    assert_eq!(store.get_snapshot(), bits_from("10000001"));
    assert_eq!(store.flip(8), Err("Index out of bounds"));
    assert_eq!(store.get_snapshot(), bits_from("10000001"));
}

#[test]
fn serial_flips_match_one_batch_in_any_order() {
    let batch = [5usize, 1, 9, 0];
    let mut batched = BitArray::new(12);
    assert_eq!(batched.flip_multiple(&batch), Ok(()));

    let mut forward = BitArray::new(12);
    for &i in batch.iter() {
        assert_eq!(forward.flip(i), Ok(()));
    }
    assert_eq!(forward.get_snapshot(), batched.get_snapshot());

    let mut backward = BitArray::new(12);
    for &i in batch.iter().rev() {
        assert_eq!(backward.flip(i), Ok(()));
    }
    assert_eq!(backward.get_snapshot(), batched.get_snapshot());
}

#[test]
fn large_store_flips_at_the_edges() {
    let mut store = BitArray::new(1_000_000);
    assert_eq!(store.flip(0), Ok(()));
    assert_eq!(store.flip(999_999), Ok(()));
    assert_eq!(store.flip(1_000_000), Err("Index out of bounds"));
    let snap = store.get_snapshot();
    assert_eq!(snap.len(), 1_000_000);
    assert!(snap[0]);
    assert!(snap[999_999]);
    assert!(!snap[1]);
    assert!(!snap[999_998]);
}
