use arrow_buffer::BooleanBuffer;
use vortex_core::bool_array::{apply_comparison_op, as_contiguous, cast, BoolArray, Operator};
use vortex_core::validity::ArrayValidity;
use vortex_core::dtype::{DType, Nullability};
use vortex_core::error::VortexError;
use vortex_core::validity::Validity;

fn to_int_indices(indices_bits: BoolArray) -> Vec<u64> {
    indices_bits
        .boolean_buffer()
        .iter()
        .enumerate()
        .flat_map(|(idx, v)| if v { Some(idx as u64) } else { None })
        .collect()
}

fn sample() -> BoolArray {
    BoolArray::from_vec(
        vec![true, true, false, true, false],
        Validity::Array(BoolArray::from_vec(
            vec![false, true, true, true, true],
            Validity::NonNullable,
        )),
    )
}

fn other() -> BoolArray {
    BoolArray::from_vec(
        vec![false, false, false, true, true],
        Validity::Array(BoolArray::from_vec(
            vec![false, true, true, true, true],
            Validity::NonNullable,
        )),
    )
}

#[test]
fn bool_array() {
    let arr = BoolArray::from_vec(vec![true, false, true], Validity::NonNullable);
    let scalar = arr.scalar_at(0).unwrap().unwrap();
    assert!(scalar);
}

#[test]
fn test_basic_comparisons() {
    let arr = sample();

    let matches = arr.compare(&arr, Operator::EqualTo).unwrap();
    assert_eq!(to_int_indices(matches), [1u64, 2, 3, 4]);

    let matches = arr.compare(&arr, Operator::NotEqualTo).unwrap();
    let empty: [u64; 0] = [];
    assert_eq!(to_int_indices(matches), empty);

    let other = other();

    let matches = arr.compare(&other, Operator::LessThanOrEqualTo).unwrap();
    assert_eq!(to_int_indices(matches), [2u64, 3, 4]);

    let matches = arr.compare(&other, Operator::LessThan).unwrap();
    assert_eq!(to_int_indices(matches), [4u64]);

    let matches = other.compare(&arr, Operator::GreaterThanOrEqualTo).unwrap();
    assert_eq!(to_int_indices(matches), [2u64, 3, 4]);

    let matches = other.compare(&arr, Operator::GreaterThan).unwrap();
    assert_eq!(to_int_indices(matches), [4u64]);
}

#[test]
fn compare_masks_absent_entries_of_either_side() {
    let a = BoolArray::from_vec(vec![true, true, true], Validity::NonNullable);
    let b = BoolArray::from_vec(
        vec![true, true, true],
        Validity::Array(BoolArray::from_vec(vec![true, false, true], Validity::NonNullable)),
    );
    let r = a.compare(&b, Operator::EqualTo).unwrap();
    assert_eq!(to_int_indices(r), [0u64, 2]);
    let r = b.compare(&a, Operator::EqualTo).unwrap();
    assert_eq!(to_int_indices(r), [0u64, 2]);
}

#[test]
fn compare_result_is_non_nullable() {
    let r = sample().compare(&other(), Operator::EqualTo).unwrap();
    assert!(matches!(r.dtype(), DType::Bool(Nullability::NonNullable)));
    assert_eq!(r.len(), 5);
}

#[test]
fn comparison_op_bitwise_identities() {
    let l = BooleanBuffer::from(vec![false, false, true, true]);
    let r = BooleanBuffer::from(vec![false, true, false, true]);
    let bits = |op| apply_comparison_op(&l, &r, op).iter().collect::<Vec<bool>>();
    assert_eq!(bits(Operator::EqualTo), vec![true, false, false, true]);
    assert_eq!(bits(Operator::NotEqualTo), vec![false, true, true, false]);
    assert_eq!(bits(Operator::GreaterThan), vec![false, false, true, false]);
    assert_eq!(bits(Operator::GreaterThanOrEqualTo), vec![true, false, true, true]);
    assert_eq!(bits(Operator::LessThan), vec![false, true, false, false]);
    assert_eq!(bits(Operator::LessThanOrEqualTo), vec![true, true, false, true]);
}

#[test]
fn scalar_at_honours_validity_and_bounds() {
    let a = sample();
    assert_eq!(a.scalar_at(0).unwrap(), None);
    assert_eq!(a.scalar_at(1).unwrap(), Some(true));
    assert_eq!(a.scalar_at(2).unwrap(), Some(false));
    assert!(matches!(a.scalar_at(5), Err(VortexError::OutOfBounds(5, 5))));
}

#[test]
fn flatten_keeps_entries() {
    let a = sample();
    let f = sample().flatten();
    for i in 0..5 {
        assert_eq!(a.scalar_at(i).unwrap(), f.scalar_at(i).unwrap());
    }
}

#[test]
fn take_gathers_entries_and_validity() {
    let a = sample();
    let t = a.take(&[0, 0, 4, 2]).unwrap();
    assert_eq!(t.len(), 4);
    let got: Vec<Option<bool>> = (0..4).map(|i| t.scalar_at(i).unwrap()).collect();
    assert_eq!(got, vec![None, None, Some(false), Some(false)]);
    assert!(matches!(a.take(&[1, 5, 9]), Err(VortexError::OutOfBounds(5, 5))));
}

#[test]
fn slice_keeps_entries_in_range() {
    let a = sample();
    let s = a.slice(1, 4).unwrap();
    assert_eq!(s.len(), 3);
    let got: Vec<Option<bool>> = (0..3).map(|i| s.scalar_at(i).unwrap()).collect();
    assert_eq!(got, vec![Some(true), Some(false), Some(true)]);
    assert_eq!(a.slice(2, 2).unwrap().len(), 0);
    assert!(matches!(a.slice(3, 2), Err(VortexError::OutOfBounds(_, _))));
    assert!(matches!(a.slice(0, 6), Err(VortexError::OutOfBounds(_, _))));
}

#[test]
fn from_options_marks_none_absent() {
    let a = BoolArray::from_options(vec![Some(true), None, Some(false)]);
    assert_eq!(a.scalar_at(0).unwrap(), Some(true));
    assert_eq!(a.scalar_at(1).unwrap(), None);
    assert_eq!(a.scalar_at(2).unwrap(), Some(false));
    let all = BoolArray::from_options(vec![Some(true), Some(false)]);
    assert!(all.validity() == Validity::AllValid);
    let none = BoolArray::from_options(vec![None, None]);
    assert!(none.validity() == Validity::AllInvalid);
    assert!(matches!(a.validity(), Validity::Array(_)));
}

#[test]
fn try_new_refuses_mismatched_validity() {
    let v = Validity::Array(BoolArray::from_vec(vec![true, false], Validity::NonNullable));
    let r = BoolArray::try_new(BooleanBuffer::from(vec![true, true, true]), v);
    assert!(matches!(r, Err(VortexError::InvalidEncoding(_))));
}

#[test]
fn cast_to_own_type_is_identity() {
    let a = sample();
    let c = cast(&a, &a.dtype()).unwrap();
    assert!(c.validity() == a.validity());
    for i in 0..5 {
        assert_eq!(a.scalar_at(i).unwrap(), c.scalar_at(i).unwrap());
    }
}

#[test]
fn cast_to_non_nullable_refuses_nulls() {
    let r = sample().cast(&DType::Bool(Nullability::NonNullable));
    assert!(matches!(r, Err(VortexError::NullsInNonNullable)));
    let full = BoolArray::from_vec(vec![true, false], Validity::AllValid);
    let c = full.cast(&DType::Bool(Nullability::NonNullable)).unwrap();
    assert!(c.validity() == Validity::NonNullable);
    let n = BoolArray::from_vec(vec![true], Validity::NonNullable)
        .cast(&DType::Bool(Nullability::Nullable))
        .unwrap();
    assert!(matches!(n.dtype(), DType::Bool(Nullability::Nullable)));
    let other = sample().cast(&DType::Utf8(Nullability::Nullable));
    match other {
        Err(VortexError::NotImplemented(op, enc)) => {
            assert_eq!(op, "cast");
            assert_eq!(enc, "vortex.bool");
        }
        _ => panic!("expected NotImplemented"),
    }
}

#[test]
fn as_contiguous_joins_in_order() {
    let a = BoolArray::from_vec(vec![true, false], Validity::AllValid);
    let b = BoolArray::from_vec(vec![false], Validity::AllInvalid);
    let c = BoolArray::from_vec(vec![true, true, false], Validity::AllValid);
    let j = as_contiguous(&vec![a, b, c]).unwrap();
    assert_eq!(j.len(), 6);
    let got: Vec<Option<bool>> = (0..6).map(|i| j.scalar_at(i).unwrap()).collect();
    assert_eq!(
        got,
        vec![Some(true), Some(false), None, Some(true), Some(true), Some(false)]
    );
}

#[test]
fn as_contiguous_refuses_mixed_types() {
    let a = BoolArray::from_vec(vec![true], Validity::NonNullable);
    let b = BoolArray::from_vec(vec![true], Validity::AllValid);
    assert!(matches!(
        as_contiguous(&vec![a, b]),
        Err(VortexError::DTypeMismatch(_, _))
    ));
}

#[test]
fn array_validity_of_bool_array() {
    let a = sample();
    assert!(!a.is_valid(0));
    assert!(a.is_valid(1));
    let l = a.logical_validity();
    assert_eq!(l.len(), 5);
    assert!(!l.all_valid());
    let full = BoolArray::from_vec(vec![true, false], Validity::AllValid);
    assert!(full.logical_validity().all_valid());
}

#[test]
fn try_new_accepts_any_mask_of_the_right_length() {
    let nullable_mask = Validity::Array(BoolArray::from_vec(vec![true, false], Validity::AllValid));
    let a = BoolArray::try_new(BooleanBuffer::from(vec![true, true]), nullable_mask).unwrap();
    assert_eq!(a.scalar_at(0).unwrap(), Some(true));
    assert_eq!(a.scalar_at(1).unwrap(), None);
}
