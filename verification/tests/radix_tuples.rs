//! Mixed-radix tuple conversions.

use qudit_gates::QuditRadices;

#[test]
fn test_compress_first_digit_least_significant() {
    let radices = QuditRadices::new(vec![2, 3]);
    // index = d0 + 2 * d1
    assert_eq!(radices.compress(&vec![0, 0]), 0);
    assert_eq!(radices.compress(&vec![1, 0]), 1);
    assert_eq!(radices.compress(&vec![0, 1]), 2);
    assert_eq!(radices.compress(&vec![1, 2]), 5);
}

#[test]
fn test_compress_single_qudit() {
    let radices = QuditRadices::new(vec![5]);
    for level in 0..5 {
        assert_eq!(radices.compress(&vec![level]), level);
    }
}

#[test]
fn test_expand_inverts_compress() {
    let radices = QuditRadices::new(vec![2, 3, 4]);
    assert_eq!(radices.dimension(), 24);
    for index in 0..24 {
        let digits = radices.expand(index);
        assert_eq!(digits.len(), 3);
        assert_eq!(radices.compress(&digits), index);
    }
}

#[test]
fn test_expand_digits() {
    let radices = QuditRadices::new(vec![2, 3]);
    // 5 = 1 + 2 * 2
    assert_eq!(radices.expand(5), vec![1, 2]);
    assert_eq!(radices.expand(2), vec![0, 1]);
}

#[test]
fn test_dimension_is_radix_product() {
    assert_eq!(QuditRadices::new(vec![2]).dimension(), 2);
    assert_eq!(QuditRadices::new(vec![2, 2]).dimension(), 4);
    assert_eq!(QuditRadices::new(vec![3, 4, 5]).dimension(), 60);
    assert_eq!(QuditRadices::new(Vec::new()).dimension(), 1);
}

#[test]
fn test_try_dimension_overflow() {
    let radices = QuditRadices::new(vec![usize::MAX, usize::MAX]);
    assert_eq!(radices.try_dimension(), None);
    let fine = QuditRadices::new(vec![2, 3]);
    assert_eq!(fine.try_dimension(), Some(6));
}

#[test]
fn test_concat_orders_qudits() {
    let first = QuditRadices::new(vec![2, 3]);
    let second = QuditRadices::new(vec![4]);
    let joined = first.concat(&second);
    assert_eq!(joined.len(), 3);
    assert_eq!(joined.get(0), 2);
    assert_eq!(joined.get(1), 3);
    assert_eq!(joined.get(2), 4);
}
