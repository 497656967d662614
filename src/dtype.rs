//! Logical types: a nullability-aware tag for each kind of value an array holds.
use vstd::prelude::*;

verus! {

broadcast use vstd::std_specs::vec::group_vec_axioms;

/// Whether a type admits missing values.
#[derive(Clone, Copy, Debug, PartialEq, Eq, Structural)]
pub enum Nullability {
    NonNullable,
    Nullable,
}

/// The physical width and kind of a primitive value.
#[derive(Clone, Copy, Debug, PartialEq, Eq, Structural)]
pub enum PType {
    U8,
    U16,
    U32,
    U64,
    I8,
    I16,
    I32,
    I64,
    F16,
    F32,
    F64,
}

/// The identity and optional metadata of an extension type.
#[derive(Debug)]
pub struct ExtDType {
    pub id: String,
    pub metadata: Option<Box<Vec<u8>>>,
}

/// Field names and field types of a struct type.
#[derive(Debug)]
pub struct StructDType {
    pub names: Vec<String>,
    pub dtypes: Box<Vec<DType>>,
}

/// A logical type.
#[derive(Debug)]
pub enum DType {
    Null,
    Bool(Nullability),
    Primitive(PType, Nullability),
    Utf8(Nullability),
    Binary(Nullability),
    Struct(StructDType, Nullability),
    List(Box<DType>, Nullability),
    Extension(ExtDType, Nullability),
}

/// Equality of two sequences of field names.
pub open spec fn same_names(a: Seq<String>, b: Seq<String>) -> bool {
    a.len() == b.len() && forall|i: int| 0 <= i < a.len() ==> (#[trigger] a[i])@ == b[i]@
}

/// Equality of two extension types, by value.
pub open spec fn same_ext(a: ExtDType, b: ExtDType) -> bool {
    &&& a.id@ == b.id@
    &&& match (a.metadata, b.metadata) {
        (None, None) => true,
        (Some(x), Some(y)) => x@ == y@,
        _ => false,
    }
}

/// Value equality of logical types: the same variant, the same nullability, and
/// equal parts all the way down.
pub open spec fn same_dtype(a: DType, b: DType) -> bool
    decreases a,
{
    match (a, b) {
        (DType::Null, DType::Null) => true,
        (DType::Bool(n), DType::Bool(m)) => n == m,
        (DType::Primitive(p, n), DType::Primitive(q, m)) => p == q && n == m,
        (DType::Utf8(n), DType::Utf8(m)) => n == m,
        (DType::Binary(n), DType::Binary(m)) => n == m,
        (DType::Struct(s, n), DType::Struct(t, m)) => {
            &&& n == m
            &&& same_names(s.names@, t.names@)
            &&& s.dtypes@.len() == t.dtypes@.len()
            &&& forall|i: int|
                0 <= i < s.dtypes@.len() ==> same_dtype(
                    #[trigger] s.dtypes@[i],
                    t.dtypes@[i],
                )
        },
        (DType::List(c, n), DType::List(d, m)) => n == m && same_dtype(*c, *d),
        (DType::Extension(e, n), DType::Extension(f, m)) => n == m && same_ext(e, f),
        _ => false,
    }
}

/// Whether a type admits missing values: `Null` always does; a struct does when it
/// is marked nullable or when all its fields do.
pub open spec fn nullable_spec(d: DType) -> bool
    decreases d,
{
    match d {
        DType::Null => true,
        DType::Bool(n) => n == Nullability::Nullable,
        DType::Primitive(_, n) => n == Nullability::Nullable,
        DType::Utf8(n) => n == Nullability::Nullable,
        DType::Binary(n) => n == Nullability::Nullable,
        DType::Struct(st, n) => n == Nullability::Nullable || forall|i: int|
            0 <= i < st.dtypes@.len() ==> nullable_spec(#[trigger] st.dtypes@[i]),
        DType::List(_, n) => n == Nullability::Nullable,
        DType::Extension(_, n) => n == Nullability::Nullable,
    }
}

/// The same type with its outer nullability replaced; `Null` stays `Null`.
pub open spec fn with_nullability_spec(d: DType, n: Nullability) -> DType {
    match d {
        DType::Null => DType::Null,
        DType::Bool(_) => DType::Bool(n),
        DType::Primitive(p, _) => DType::Primitive(p, n),
        DType::Utf8(_) => DType::Utf8(n),
        DType::Binary(_) => DType::Binary(n),
        DType::Struct(st, _) => DType::Struct(st, n),
        DType::List(c, _) => DType::List(c, n),
        DType::Extension(e, _) => DType::Extension(e, n),
    }
}

/// A field of a struct type is smaller than the struct type.
proof fn lemma_field_decreases(d: DType, i: int)
    requires
        d is Struct,
        0 <= i < d->Struct_0.dtypes@.len(),
    ensures
        decreases_to!(d => d->Struct_0.dtypes@[i]),
{
    let st = d->Struct_0;
    assert(decreases_to!(d => st));
}

impl DType {
    /// The type of index arrays: non-nullable `u64`.
    pub fn idx() -> (r: DType)
        ensures
            r == DType::Primitive(PType::U64, Nullability::NonNullable),
    {
        DType::Primitive(PType::U64, Nullability::NonNullable)
    }

    /// The type of byte arrays: non-nullable `u8`.
    pub fn bytes() -> (r: DType)
        ensures
            r == DType::Primitive(PType::U8, Nullability::NonNullable),
    {
        DType::Primitive(PType::U8, Nullability::NonNullable)
    }

    /// `Nullable` exactly when the type admits missing values.
    pub fn nullability(&self) -> (r: Nullability)
        ensures
            r == (if nullable_spec(*self) {
                Nullability::Nullable
            } else {
                Nullability::NonNullable
            }),
    {
        if self.is_nullable() {
            Nullability::Nullable
        } else {
            Nullability::NonNullable
        }
    }

    pub fn is_nullable(&self) -> (r: bool)
        ensures
            r == nullable_spec(*self),
        decreases self,
    {
        match self {
            DType::Null => true,
            DType::Bool(n) => *n == Nullability::Nullable,
            DType::Primitive(_, n) => *n == Nullability::Nullable,
            DType::Utf8(n) => *n == Nullability::Nullable,
            DType::Binary(n) => *n == Nullability::Nullable,
            DType::Struct(st, n) => {
                if *n == Nullability::Nullable {
                    return true;
                }
                let fields: &Vec<DType> = &st.dtypes;
                let mut i: usize = 0;
                while i < fields.len()
                    invariant
                        *self == DType::Struct(*st, *n),
                        *n != Nullability::Nullable,
                        fields@ == st.dtypes@,
                        i <= fields@.len(),
                        forall|j: int| 0 <= j < i ==> nullable_spec(#[trigger] fields@[j]),
                    decreases fields@.len() - i,
                {
                    proof {
                        lemma_field_decreases(*self, i as int);
                    }
                    if !fields[i].is_nullable() {
                        assert(!nullable_spec(st.dtypes@[i as int]));
                        return false;
                    }
                    i = i + 1;
                }
                true
            },
            DType::List(_, n) => *n == Nullability::Nullable,
            DType::Extension(_, n) => *n == Nullability::Nullable,
        }
    }
}

/// Value equality of logical types is reflexive.
pub proof fn lemma_same_dtype_refl(d: DType)
    ensures
        same_dtype(d, d),
    decreases d,
{
    match d {
        DType::Struct(st, _) => {
            assert forall|i: int| 0 <= i < st.dtypes@.len() implies same_dtype(
                #[trigger] st.dtypes@[i],
                st.dtypes@[i],
            ) by {
                lemma_field_decreases(d, i);
                lemma_same_dtype_refl(st.dtypes@[i]);
            }
        },
        DType::List(c, _) => {
            lemma_same_dtype_refl(*c);
        },
        _ => {},
    }
}

/// Value equality of logical types is symmetric.
pub proof fn lemma_same_dtype_sym(a: DType, b: DType)
    requires
        same_dtype(a, b),
    ensures
        same_dtype(b, a),
    decreases a,
{
    match (a, b) {
        (DType::Struct(s, _), DType::Struct(t, _)) => {
            assert forall|i: int| 0 <= i < t.dtypes@.len() implies same_dtype(
                #[trigger] t.dtypes@[i],
                s.dtypes@[i],
            ) by {
                lemma_field_decreases(a, i);
                lemma_same_dtype_sym(s.dtypes@[i], t.dtypes@[i]);
            }
        },
        (DType::List(c, _), DType::List(d, _)) => {
            lemma_same_dtype_sym(*c, *d);
        },
        _ => {},
    }
}

/// Value equality of logical types is transitive.
pub proof fn lemma_same_dtype_trans(a: DType, b: DType, c: DType)
    requires
        same_dtype(a, b),
        same_dtype(b, c),
    ensures
        same_dtype(a, c),
    decreases a,
{
    match (a, b, c) {
        (DType::Struct(s, _), DType::Struct(t, _), DType::Struct(u, _)) => {
            assert forall|i: int| 0 <= i < s.dtypes@.len() implies same_dtype(
                #[trigger] s.dtypes@[i],
                u.dtypes@[i],
            ) by {
                lemma_field_decreases(a, i);
                assert(same_dtype(s.dtypes@[i], t.dtypes@[i]));
                assert(same_dtype(t.dtypes@[i], u.dtypes@[i]));
                lemma_same_dtype_trans(s.dtypes@[i], t.dtypes@[i], u.dtypes@[i]);
            }
        },
        (DType::List(x, _), DType::List(y, _), DType::List(z, _)) => {
            lemma_same_dtype_trans(*x, *y, *z);
        },
        _ => {},
    }
}

/// Replacing the outer nullability respects value equality.
pub proof fn lemma_with_nullability_same(a: DType, b: DType, n: Nullability)
    requires
        same_dtype(a, b),
    ensures
        same_dtype(with_nullability_spec(a, n), with_nullability_spec(b, n)),
{
}

/// Copies a sequence of field names.
fn clone_names(names: &Vec<String>) -> (r: Vec<String>)
    ensures
        same_names(names@, r@),
{
    let mut out: Vec<String> = Vec::new();
    let mut i: usize = 0;
    while i < names.len()
        invariant
            i <= names@.len(),
            out@.len() == i,
            forall|j: int| 0 <= j < i ==> (#[trigger] out@[j])@ == names@[j]@,
        decreases names@.len() - i,
    {
        out.push(names[i].clone());
        i = i + 1;
    }
    out
}

/// Compares two sequences of field names.
fn names_eq(a: &Vec<String>, b: &Vec<String>) -> (r: bool)
    ensures
        r == same_names(a@, b@),
{
    if a.len() != b.len() {
        return false;
    }
    let mut i: usize = 0;
    while i < a.len()
        invariant
            a@.len() == b@.len(),
            i <= a@.len(),
            forall|j: int| 0 <= j < i ==> (#[trigger] a@[j])@ == b@[j]@,
        decreases a@.len() - i,
    {
        if a[i] != b[i] {
            return false;
        }
        i = i + 1;
    }
    true
}

/// Compares two optional metadata blobs byte for byte.
fn bytes_eq(a: &Vec<u8>, b: &Vec<u8>) -> (r: bool)
    ensures
        r == (a@ == b@),
{
    if a.len() != b.len() {
        return false;
    }
    let mut i: usize = 0;
    while i < a.len()
        invariant
            a@.len() == b@.len(),
            i <= a@.len(),
            forall|j: int| 0 <= j < i ==> a@[j] == b@[j],
        decreases a@.len() - i,
    {
        if a[i] != b[i] {
            return false;
        }
        i = i + 1;
    }
    assert(a@ =~= b@);
    true
}

/// Copies a byte vector.
fn clone_bytes(a: &Vec<u8>) -> (r: Vec<u8>)
    ensures
        r@ == a@,
{
    let mut out: Vec<u8> = Vec::new();
    let mut i: usize = 0;
    while i < a.len()
        invariant
            i <= a@.len(),
            out@ == a@.subrange(0, i as int),
        decreases a@.len() - i,
    {
        out.push(a[i]);
        i = i + 1;
    }
    assert(out@ =~= a@);
    out
}

impl ExtDType {
    /// A copy of this extension type.
    pub fn copy(&self) -> (r: ExtDType)
        ensures
            same_ext(*self, r),
    {
        let metadata = match &self.metadata {
            None => None,
            Some(m) => Some(Box::new(clone_bytes(m))),
        };
        ExtDType { id: self.id.clone(), metadata }
    }
}

impl DType {
    /// The same type, with nullability `NonNullable` at the outer level.
    pub fn as_nonnullable(&self) -> (r: DType)
        ensures
            same_dtype(with_nullability_spec(*self, Nullability::NonNullable), r),
    {
        self.with_nullability(Nullability::NonNullable)
    }

    /// The same type, with nullability `Nullable` at the outer level.
    pub fn as_nullable(&self) -> (r: DType)
        ensures
            same_dtype(with_nullability_spec(*self, Nullability::Nullable), r),
    {
        self.with_nullability(Nullability::Nullable)
    }

    /// The same type with its outer nullability replaced by `nullability`.
    pub fn with_nullability(&self, nullability: Nullability) -> (r: DType)
        ensures
            same_dtype(with_nullability_spec(*self, nullability), r),
    {
        let c = self.clone();
        proof {
            lemma_with_nullability_same(*self, c, nullability);
        }
        match c {
            DType::Null => DType::Null,
            DType::Bool(_) => DType::Bool(nullability),
            DType::Primitive(p, _) => DType::Primitive(p, nullability),
            DType::Utf8(_) => DType::Utf8(nullability),
            DType::Binary(_) => DType::Binary(nullability),
            DType::Struct(st, _) => DType::Struct(st, nullability),
            DType::List(e, _) => DType::List(e, nullability),
            DType::Extension(e, _) => DType::Extension(e, nullability),
        }
    }

    /// Whether the two types are equal once their outer nullability is set aside.
    pub fn eq_ignore_nullability(&self, other: &DType) -> (r: bool)
        ensures
            r == same_dtype(
                with_nullability_spec(*self, Nullability::Nullable),
                with_nullability_spec(*other, Nullability::Nullable),
            ),
    {
        let a = self.as_nullable();
        let b = other.as_nullable();
        let r = a == b;
        proof {
            let sa = with_nullability_spec(*self, Nullability::Nullable);
            let sb = with_nullability_spec(*other, Nullability::Nullable);
            lemma_same_dtype_sym(sa, a);
            lemma_same_dtype_sym(sb, b);
            if r {
                lemma_same_dtype_trans(sa, a, b);
                lemma_same_dtype_trans(sa, b, sb);
            }
            if same_dtype(sa, sb) {
                lemma_same_dtype_trans(a, sa, sb);
                lemma_same_dtype_trans(a, sb, b);
            }
        }
        r
    }
}

impl StructDType {
    pub fn new(names: Vec<String>, dtypes: Vec<DType>) -> (r: StructDType)
        ensures
            r.names == names,
            r.dtypes@ == dtypes@,
    {
        StructDType { names, dtypes: Box::new(dtypes) }
    }

    pub fn names(&self) -> (r: &Vec<String>)
        ensures
            r == &self.names,
    {
        &self.names
    }

    /// The first position at which a field has name `name`, or `None`.
    pub fn find_name(&self, name: &str) -> (r: Option<usize>)
        ensures
            match r {
                Some(i) => i < self.names@.len() && self.names@[i as int]@ == name@ && forall|
                    j: int,
                | 0 <= j < i ==> (#[trigger] self.names@[j])@ != name@,
                None => forall|j: int|
                    0 <= j < self.names@.len() ==> (#[trigger] self.names@[j])@ != name@,
            },
    {
        let target: String = name.to_owned();
        let mut i: usize = 0;
        while i < self.names.len()
            invariant
                target@ == name@,
                i <= self.names@.len(),
                forall|j: int| 0 <= j < i ==> (#[trigger] self.names@[j])@ != name@,
            decreases self.names@.len() - i,
        {
            if self.names[i] == target {
                return Some(i);
            }
            i = i + 1;
        }
        None
    }

    pub fn dtypes(&self) -> (r: &Vec<DType>)
        ensures
            r@ == self.dtypes@,
    {
        &self.dtypes
    }
}

impl Clone for DType {
    fn clone(&self) -> (r: Self)
        ensures
            same_dtype(*self, r),
        decreases self,
    {
        match self {
            DType::Null => DType::Null,
            DType::Bool(n) => DType::Bool(*n),
            DType::Primitive(p, n) => DType::Primitive(*p, *n),
            DType::Utf8(n) => DType::Utf8(*n),
            DType::Binary(n) => DType::Binary(*n),
            DType::Struct(st, n) => {
                let mut dtypes: Vec<DType> = Vec::new();
                let mut i: usize = 0;
                while i < st.dtypes.len()
                    invariant
                        *self == DType::Struct(*st, *n),
                        i <= st.dtypes@.len(),
                        dtypes@.len() == i,
                        forall|j: int|
                            0 <= j < i ==> same_dtype(st.dtypes@[j], #[trigger] dtypes@[j]),
                    decreases st.dtypes@.len() - i,
                {
                    proof {
                        lemma_field_decreases(*self, i as int);
                    }
                    let c = st.dtypes[i].clone();
                    dtypes.push(c);
                    i = i + 1;
                }
                DType::Struct(StructDType { names: clone_names(&st.names), dtypes: Box::new(dtypes) }, *n)
            },
            DType::List(c, n) => {
                let inner: DType = (**c).clone();
                DType::List(Box::new(inner), *n)
            },
            DType::Extension(e, n) => DType::Extension(e.copy(), *n),
        }
    }
}

impl PartialEq for DType {
    fn eq(&self, other: &DType) -> (r: bool)
        decreases self,
    {
        match (self, other) {
            (DType::Null, DType::Null) => true,
            (DType::Bool(n), DType::Bool(m)) => *n == *m,
            (DType::Primitive(p, n), DType::Primitive(q, m)) => *p == *q && *n == *m,
            (DType::Utf8(n), DType::Utf8(m)) => *n == *m,
            (DType::Binary(n), DType::Binary(m)) => *n == *m,
            (DType::Struct(s, n), DType::Struct(t, m)) => {
                if *n != *m || !names_eq(&s.names, &t.names) || s.dtypes.len() != t.dtypes.len() {
                    return false;
                }
                let mut i: usize = 0;
                while i < s.dtypes.len()
                    invariant
                        *self == DType::Struct(*s, *n),
                        *other == DType::Struct(*t, *m),
                        *n == *m,
                        same_names(s.names@, t.names@),
                        s.dtypes@.len() == t.dtypes@.len(),
                        i <= s.dtypes@.len(),
                        forall|j: int|
                            0 <= j < i ==> same_dtype(#[trigger] s.dtypes@[j], t.dtypes@[j]),
                    decreases s.dtypes@.len() - i,
                {
                    proof {
                        lemma_field_decreases(*self, i as int);
                    }
                    if !s.dtypes[i].eq(&t.dtypes[i]) {
                        assert(!same_dtype(s.dtypes@[i as int], t.dtypes@[i as int]));
                        return false;
                    }
                    i = i + 1;
                }
                true
            },
            (DType::List(c, n), DType::List(d, m)) => *n == *m && (**c).eq(&**d),
            (DType::Extension(e, n), DType::Extension(f, m)) => {
                if *n != *m || e.id != f.id {
                    return false;
                }
                match (&e.metadata, &f.metadata) {
                    (None, None) => true,
                    (Some(x), Some(y)) => bytes_eq(x, y),
                    _ => false,
                }
            },
            _ => false,
        }
    }
}

impl vstd::std_specs::cmp::PartialEqSpecImpl for DType {
    open spec fn obeys_eq_spec() -> bool {
        true
    }

    open spec fn eq_spec(&self, other: &DType) -> bool {
        same_dtype(*self, *other)
    }
}

} // verus!
