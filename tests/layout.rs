use vortex_core::datetime_parts::DateTimePartsArray;
use vortex_core::dtype::{DType, Nullability, PType};
use vortex_core::error::VortexError;
use vortex_core::layout::{ArrayLayout, ByteRange, ChunkLayout};

#[test]
fn chunk_layout_records_running_offsets() {
    let mut l = ChunkLayout::new(40);
    l.push_chunk(1000, 120);
    l.push_chunk(500, 170);
    assert_eq!(l.row_offsets, vec![0, 1000, 1500]);
    assert_eq!(l.byte_offsets, vec![40, 120, 170]);
    let a = ArrayLayout { dtype: ByteRange { begin: 10, end: 40 }, chunks: l };
    assert_eq!(a.dtype, ByteRange { begin: 10, end: 40 });
}

fn parts() -> DateTimePartsArray {
    DateTimePartsArray::try_new(
        DType::Primitive(PType::I64, Nullability::NonNullable),
        vec![1, 2, 3],
        vec![10, 20, 30],
        vec![100, 200, 300],
    )
    .unwrap()
}

#[test]
fn date_time_parts_take_and_slice() {
    let p = parts();
    let t = p.take(&[2, 0]).unwrap();
    assert_eq!(t.days(), &vec![3, 1]);
    assert_eq!(t.seconds(), &vec![30, 10]);
    assert_eq!(t.subsecond(), &vec![300, 100]);
    let s = p.slice(1, 3).unwrap();
    assert_eq!(s.days(), &vec![2, 3]);
    assert!(matches!(p.take(&[3]), Err(VortexError::OutOfBounds(_, _))));
    assert!(matches!(p.slice(2, 4), Err(VortexError::OutOfBounds(_, _))));
    assert!(matches!(
        DateTimePartsArray::try_new(DType::Null, vec![1], vec![], vec![]),
        Err(VortexError::InvalidEncoding(_))
    ));
}

#[test]
fn chunk_layout_from_chunks() {
    let l = ChunkLayout::from_chunks(8, &[1000, 1000, 1000], &[50, 90, 130]).unwrap();
    assert_eq!(l.row_offsets, vec![0, 1000, 2000, 3000]);
    assert_eq!(l.byte_offsets, vec![8, 50, 90, 130]);
    assert!(matches!(
        ChunkLayout::from_chunks(0, &[u64::MAX, 1], &[1, 2]),
        Err(VortexError::ArithmeticOverflow)
    ));
    let e = ChunkLayout::from_chunks(0, &[], &[]).unwrap();
    assert_eq!(e.row_offsets, vec![0]);
}

#[test]
fn date_time_parts_keep_dtype() {
    let p = parts();
    assert!(p.take(&[1]).unwrap().dtype() == p.dtype());
    assert!(p.slice(0, 1).unwrap().dtype() == p.dtype());
}
