//! Control-level enumeration.

use qudit_gates::ControlledGate;
use qudit_gates::QuditRadices;

#[test]
fn test_two_qubit_product_ordering() {
    let prod = ControlledGate::cartesian_product(vec![vec![0, 1], vec![0, 1]]);
    assert_eq!(prod, vec![vec![0, 0], vec![1, 0], vec![0, 1], vec![1, 1]]);
}

#[test]
fn test_single_set_product() {
    let prod = ControlledGate::cartesian_product(vec![vec![0, 2]]);
    assert_eq!(prod, vec![vec![0], vec![2]]);
}

#[test]
fn test_mixed_size_product() {
    let prod = ControlledGate::cartesian_product(vec![vec![0, 1], vec![1]]);
    assert_eq!(prod, vec![vec![0, 1], vec![1, 1]]);
    let prod = ControlledGate::cartesian_product(vec![vec![1], vec![0, 2]]);
    assert_eq!(prod, vec![vec![1, 0], vec![1, 2]]);
}

#[test]
fn test_three_qudit_product_count() {
    let prod = ControlledGate::cartesian_product(vec![vec![0, 1], vec![0, 1, 2], vec![1]]);
    assert_eq!(prod.len(), 6);
    for tuple in &prod {
        assert_eq!(tuple.len(), 3);
        assert_eq!(tuple[2], 1);
    }
}

#[test]
fn test_full_sets_enumerate_in_index_order() {
    // With every level of every qudit selected, the enumerator and the
    // mixed-radix mapper agree: the tuple at position k compresses to k.
    let radices = QuditRadices::new(vec![2, 3, 2]);
    let prod = ControlledGate::cartesian_product(vec![
        vec![0, 1],
        vec![0, 1, 2],
        vec![0, 1],
    ]);
    assert_eq!(prod.len(), 12);
    for (k, tuple) in prod.iter().enumerate() {
        assert_eq!(radices.compress(tuple), k);
    }
}

#[test]
fn test_empty_input_gives_no_tuples() {
    let prod = ControlledGate::cartesian_product(Vec::new());
    assert_eq!(prod, Vec::<Vec<usize>>::new());
}
