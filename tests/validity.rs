use arrow_buffer::BooleanBuffer;
use vortex_core::bool_array::BoolArray;
use vortex_core::dtype::Nullability;
use vortex_core::error::VortexError;
use vortex_core::validity::{LogicalValidity, Validity, ValidityMetadata};

fn mask(bits: Vec<bool>) -> Validity {
    Validity::Array(BoolArray::from_vec(bits, Validity::NonNullable))
}

#[test]
fn validity_compaction_from_bools() {
    assert!(Validity::from_bools(vec![true; 8]) == Validity::AllValid);
    assert!(Validity::from_bools(vec![false; 8]) == Validity::AllInvalid);
    let mixed = Validity::from_bools(vec![true, false, true, false, true, false, true, false]);
    assert!(matches!(mixed, Validity::Array(_)));
    assert!(mixed == mask(vec![true, false, true, false, true, false, true, false]));
}

#[test]
fn validity_compaction_from_buffers() {
    assert!(Validity::from_boolean_buffer(BooleanBuffer::from(vec![true, true])) == Validity::AllValid);
    assert!(Validity::from_boolean_buffer(BooleanBuffer::from(vec![false, false])) == Validity::AllInvalid);
    assert!(Validity::from_bools(vec![]) == Validity::AllValid);
}

#[test]
fn validity_round_trip_through_null_buffer() {
    let cases = vec![
        (Validity::NonNullable, 3, Validity::AllValid),
        (Validity::AllValid, 3, Validity::AllValid),
        (Validity::AllInvalid, 3, Validity::AllInvalid),
        (mask(vec![true, false, true]), 3, mask(vec![true, false, true])),
        (mask(vec![true, true, true]), 3, Validity::AllValid),
        (mask(vec![false, false]), 2, Validity::AllInvalid),
    ];
    for (x, n, expected) in cases {
        let nulls = x.to_logical(n).to_present_null_buffer().unwrap();
        assert!(Validity::from_null_buffer(nulls) == expected);
    }
}

#[test]
fn to_logical_compacts_uniform_masks() {
    assert!(mask(vec![true, true]).to_logical(2).all_valid());
    assert!(mask(vec![false, false]).to_logical(2).all_invalid());
    let l = mask(vec![true, false]).to_logical(2);
    assert!(!l.all_valid() && !l.all_invalid());
    assert_eq!(l.len(), 2);
    assert!(!l.is_empty());
    assert_eq!(Validity::NonNullable.to_logical(4).len(), 4);
    assert!(Validity::AllInvalid.to_logical(0).is_empty());
}

#[test]
fn to_null_buffer_omits_all_valid() {
    assert!(LogicalValidity::AllValid(3).to_null_buffer().unwrap().is_none());
    let n = LogicalValidity::AllInvalid(3).to_null_buffer().unwrap().unwrap();
    assert_eq!(n.null_count(), 3);
    let n = mask(vec![true, false]).to_logical(2).to_null_buffer().unwrap().unwrap();
    assert!(n.is_valid(0) && n.is_null(1));
}

#[test]
fn is_valid_by_form() {
    assert!(Validity::NonNullable.is_valid(7));
    assert!(Validity::AllValid.is_valid(7));
    assert!(!Validity::AllInvalid.is_valid(7));
    let m = mask(vec![false, true]);
    assert!(!m.is_valid(0));
    assert!(m.is_valid(1));
}

#[test]
fn nullability_and_metadata() {
    assert_eq!(Validity::NonNullable.nullability(), Nullability::NonNullable);
    assert_eq!(Validity::AllInvalid.nullability(), Nullability::Nullable);
    assert_eq!(Validity::AllValid.to_metadata(3).unwrap(), ValidityMetadata::AllValid);
    assert_eq!(mask(vec![true, false]).to_metadata(2).unwrap(), ValidityMetadata::Array);
    assert!(matches!(
        mask(vec![true, false]).to_metadata(3),
        Err(VortexError::InvalidEncoding(_))
    ));
    let v = ValidityMetadata::AllInvalid.to_validity(None);
    assert!(v == Validity::AllInvalid);
    let v = ValidityMetadata::Array.to_validity(Some(BoolArray::from_vec(vec![true], Validity::NonNullable)));
    assert!(v.array().is_some());
    assert!(v.into_array_data().is_some());
}

#[test]
fn slice_and_take_of_validity() {
    let m = mask(vec![true, false, true, false]);
    assert!(m.slice(1, 3).unwrap() == mask(vec![false, true]));
    assert!(m.take(&[3, 0]).unwrap() == mask(vec![false, true]));
    assert!(Validity::AllValid.slice(0, 100).unwrap() == Validity::AllValid);
    assert!(matches!(m.take(&[4]), Err(VortexError::OutOfBounds(_, _))));
}

#[test]
fn from_logical_concatenates() {
    let all = Validity::from_logical(vec![LogicalValidity::AllValid(2), LogicalValidity::AllValid(1)]);
    assert!(all == Validity::AllValid);
    let none = Validity::from_logical(vec![LogicalValidity::AllInvalid(2)]);
    assert!(none == Validity::AllInvalid);
    let mixed = Validity::from_logical(vec![
        LogicalValidity::AllValid(2),
        LogicalValidity::AllInvalid(1),
        mask(vec![false, true]).to_logical(2),
    ]);
    assert!(mixed == mask(vec![true, true, false, false, true]));
}

#[test]
fn logical_into_validity_and_array() {
    assert!(LogicalValidity::AllValid(2).into_validity() == Validity::AllValid);
    let a = LogicalValidity::AllInvalid(2).into_array();
    assert_eq!(a.len(), 2);
    assert_eq!(a.scalar_at(0).unwrap(), Some(false));
}

#[test]
fn validity_from_options() {
    assert!(Validity::from_options(&vec![Some(1), Some(2)]) == Validity::AllValid);
    assert!(Validity::from_options::<u8>(&vec![None, None]) == Validity::AllInvalid);
    assert!(Validity::from_options(&vec![Some('a'), None]) == mask(vec![true, false]));
}
