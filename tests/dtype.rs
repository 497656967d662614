use std::mem;

use vortex_core::dtype::{DType, ExtDType, Nullability, PType, StructDType};

fn point() -> DType {
    DType::Struct(
        StructDType::new(
            vec!["x".to_string(), "y".to_string()],
            vec![
                DType::Primitive(PType::I32, Nullability::NonNullable),
                DType::Utf8(Nullability::Nullable),
            ],
        ),
        Nullability::NonNullable,
    )
}

#[test]
fn size_of() {
    assert_eq!(mem::size_of::<DType>(), 40);
}

#[test]
fn nullability_of_each_form() {
    assert!(DType::Null.is_nullable());
    assert!(!DType::Bool(Nullability::NonNullable).is_nullable());
    assert_eq!(DType::Utf8(Nullability::Nullable).nullability(), Nullability::Nullable);
    assert!(!point().is_nullable());
    let all_nullable = DType::Struct(
        StructDType::new(vec!["a".to_string()], vec![DType::Null]),
        Nullability::NonNullable,
    );
    assert!(all_nullable.is_nullable());
    let marked = DType::Struct(StructDType::new(vec![], vec![]), Nullability::Nullable);
    assert!(marked.is_nullable());
}

#[test]
fn with_nullability_changes_outer_only() {
    let p = point().as_nullable();
    assert!(p.is_nullable());
    assert!(p == DType::Struct(
        StructDType::new(
            vec!["x".to_string(), "y".to_string()],
            vec![
                DType::Primitive(PType::I32, Nullability::NonNullable),
                DType::Utf8(Nullability::Nullable),
            ],
        ),
        Nullability::Nullable,
    ));
    assert!(DType::Null.as_nonnullable() == DType::Null);
    let l = DType::List(Box::new(DType::Bool(Nullability::Nullable)), Nullability::Nullable);
    assert!(l.as_nonnullable() == DType::List(Box::new(DType::Bool(Nullability::Nullable)), Nullability::NonNullable));
}

#[test]
fn eq_ignore_nullability_compares_the_rest() {
    let a = DType::Primitive(PType::U64, Nullability::Nullable);
    let b = DType::Primitive(PType::U64, Nullability::NonNullable);
    assert!(a.eq_ignore_nullability(&b));
    assert!(a != b);
    let c = DType::Primitive(PType::U8, Nullability::Nullable);
    assert!(!a.eq_ignore_nullability(&c));
    assert!(point().eq_ignore_nullability(&point().as_nullable()));
    let e1 = DType::Extension(ExtDType { id: "uuid".to_string(), metadata: None }, Nullability::Nullable);
    let e2 = DType::Extension(
        ExtDType { id: "uuid".to_string(), metadata: Some(Box::new(vec![1])) },
        Nullability::Nullable,
    );
    assert!(!e1.eq_ignore_nullability(&e2));
    assert!(e2.clone() == e2);
}

#[test]
fn find_name_returns_first_match() {
    let st = StructDType::new(
        vec!["a".to_string(), "b".to_string(), "a".to_string()],
        vec![DType::Null, DType::Null, DType::Null],
    );
    assert_eq!(st.find_name("a"), Some(0));
    assert_eq!(st.find_name("b"), Some(1));
    assert_eq!(st.find_name("c"), None);
    assert_eq!(st.names().len(), 3);
    assert_eq!(st.dtypes().len(), 3);
}

#[test]
fn index_and_byte_types() {
    assert!(DType::idx() == DType::Primitive(PType::U64, Nullability::NonNullable));
    assert!(DType::bytes() == DType::Primitive(PType::U8, Nullability::NonNullable));
    assert!(!DType::idx().is_nullable());
}
