use vortex_core::bool_array::BoolArray;
use vortex_core::compute::take_with_validity;
use vortex_core::validity::Validity;
use vortex_core::compute::{
    is_strict_sorted, search_sorted, slice, subtract_scalar, take, take_primitive, SearchSortedSide,
};
use vortex_core::error::VortexError;

#[test]
fn test_take() {
    let a = vec![1i32, 2, 3, 4, 5];
    let result = take_primitive(&a, &[0, 0, 4, 2]);
    assert_eq!(result, vec![1i32, 1, 5, 3]);
}

#[test]
fn take_refuses_out_of_range() {
    let a = vec![1i32, 2, 3];
    assert_eq!(take(&a, &[2, 0]).unwrap(), vec![3, 1]);
    assert!(matches!(take(&a, &[3]), Err(VortexError::OutOfBounds(3, 3))));
    assert!(matches!(take(&a, &[0, 7, 4]), Err(VortexError::OutOfBounds(7, 3))));
}

#[test]
fn slice_of_values() {
    let a = vec![10u8, 20, 30, 40];
    assert_eq!(slice(&a, 1, 3).unwrap(), vec![20, 30]);
    assert!(slice(&a, 0, 4).unwrap().len() == 4);
    assert!(matches!(slice(&a, 3, 5), Err(VortexError::OutOfBounds(_, _))));
}

#[test]
fn search_sorted_sides() {
    let a = [1u64, 3, 3, 3, 7];
    assert_eq!(search_sorted(&a, 3, SearchSortedSide::Left), 1);
    assert_eq!(search_sorted(&a, 3, SearchSortedSide::Right), 4);
    assert_eq!(search_sorted(&a, 0, SearchSortedSide::Left), 0);
    assert_eq!(search_sorted(&a, 9, SearchSortedSide::Right), 5);
    assert_eq!(search_sorted(&[], 9, SearchSortedSide::Left), 0);
}

#[test]
fn strict_sortedness() {
    assert!(is_strict_sorted(&[]));
    assert!(is_strict_sorted(&[1, 2, 9]));
    assert!(!is_strict_sorted(&[1, 2, 2]));
    assert!(!is_strict_sorted(&[3, 1]));
}

#[test]
fn subtract_scalar_checks_underflow() {
    assert_eq!(subtract_scalar(&[10, 12, 19], 10).unwrap(), vec![0, 2, 9]);
    assert!(matches!(subtract_scalar(&[10, 9], 10), Err(VortexError::ArithmeticOverflow)));
}

#[test]
fn take_with_validity_keeps_presence() {
    let values = vec![1i32, 2, 3, 4, 5];
    let mask = Validity::Array(BoolArray::from_vec(
        vec![true, false, true, true, false],
        Validity::NonNullable,
    ));
    let (taken, validity) = take_with_validity(&values, &mask, &[0, 0, 4, 1]).unwrap();
    assert_eq!(taken, vec![1, 1, 5, 2]);
    assert!(validity == Validity::Array(BoolArray::from_vec(
        vec![true, true, false, false],
        Validity::NonNullable,
    )));
    let (_, all) = take_with_validity(&values, &Validity::AllValid, &[2]).unwrap();
    assert!(all == Validity::AllValid);
    assert!(matches!(
        take_with_validity(&values, &Validity::AllValid, &[1, 9]),
        Err(VortexError::OutOfBounds(9, 5))
    ));
}
