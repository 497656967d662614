//! Arrays of booleans: packed bits with a validity, and their compute kernels.
use crate::bits::{bits_of, buffer_count_set_bits, buffer_eq, lemma_count_true, buffer_and, buffer_clone, buffer_from_bools, buffer_len, buffer_not, buffer_or, buffer_slice, buffer_value, buffer_xor, nulls_into_inner};
use crate::dtype::{same_dtype, DType, Nullability};
use crate::compute::{check_indices, out_of_range_error};
use crate::error::VortexError;
use crate::validity::{compact, ArrayValidity, LogicalValidity, Mask, Validity};
use arrow_buffer::BooleanBuffer;
use vstd::prelude::*;

verus! {

/// A comparison between two values.
#[derive(Clone, Copy, Debug, PartialEq, Eq, Structural)]
pub enum Operator {
    EqualTo,
    NotEqualTo,
    GreaterThan,
    GreaterThanOrEqualTo,
    LessThan,
    LessThanOrEqualTo,
}

/// `x op y` on booleans, with `false < true`.
pub open spec fn compare_bools(op: Operator, x: bool, y: bool) -> bool {
    match op {
        Operator::EqualTo => x == y,
        Operator::NotEqualTo => x != y,
        Operator::GreaterThan => x && !y,
        Operator::GreaterThanOrEqualTo => x || !y,
        Operator::LessThan => !x && y,
        Operator::LessThanOrEqualTo => !x || y,
    }
}

/// What a bool array records of itself in its metadata.
#[derive(Clone, Copy, Debug)]
pub struct BoolMetadata {
    pub validity: crate::validity::ValidityMetadata,
    pub length: usize,
}

/// An array of booleans: one bit per entry, and which entries are present.
#[derive(Debug)]
pub struct BoolArray {
    pub buffer: BooleanBuffer,
    pub validity: Box<Validity>,
}

impl BoolArray {
    /// The entries' bits, absent entries included.
    pub open spec fn values(&self) -> Seq<bool> {
        bits_of(self.buffer)
    }

    /// The validity fits the entries.
    pub open spec fn wf(&self) -> bool {
        self.validity.wf_for(self.values().len())
    }

    /// Whether entry `i` is present.
    pub open spec fn valid(&self, i: int) -> bool {
        self.validity.valid_at(i)
    }

    /// The entry at `i`: `None` when it is absent.
    pub open spec fn entry(&self, i: int) -> Option<bool> {
        if self.valid(i) {
            Some(self.values()[i])
        } else {
            None
        }
    }

    /// The entries, absent ones as `None`.
    pub open spec fn entries(&self) -> Seq<Option<bool>> {
        Seq::new(self.values().len(), |i: int| self.entry(i))
    }

    /// The logical type: bool, nullable unless the validity is `NonNullable`.
    pub open spec fn dtype_spec(&self) -> DType {
        DType::Bool(
            if *self.validity is NonNullable {
                Nullability::NonNullable
            } else {
                Nullability::Nullable
            },
        )
    }

    /// A non-nullable array of the bits of `buffer`.
    pub fn from_buffer(buffer: BooleanBuffer) -> (r: BoolArray)
        ensures
            r.values() == bits_of(buffer),
            r.validity@ == Mask::NonNullable,
            r.wf(),
    {
        BoolArray { buffer, validity: Box::new(Validity::NonNullable) }
    }

    /// The bits of the entries.
    pub fn buffer(&self) -> (r: &BooleanBuffer)
        ensures
            bits_of(*r) == self.values(),
    {
        &self.buffer
    }

    /// A copy of the bits of the entries.
    pub fn boolean_buffer(&self) -> (r: BooleanBuffer)
        ensures
            bits_of(r) == self.values(),
    {
        buffer_clone(&self.buffer)
    }

    /// A copy of the validity.
    pub fn validity(&self) -> (r: Validity)
        requires
            self.wf(),
        ensures
            r@ == self.validity@,
            r.wf_for(self.values().len()),
            r.expand(self.values().len()) == self.validity.expand(self.values().len()),
    {
        let r = (*self.validity).clone();
        assert(r.expand(self.values().len()) =~= self.validity.expand(self.values().len()));
        r
    }

    /// An array of the bits in `buffer` with the given validity; a validity mask
    /// of another length is refused.
    pub fn try_new(buffer: BooleanBuffer, validity: Validity) -> (r: Result<BoolArray, VortexError>)
        ensures
            r is Err <==> (validity is Array && validity->Array_0.values().len() != bits_of(buffer).len()),
            r is Ok ==> r->Ok_0.values() == bits_of(buffer) && r->Ok_0.validity@ == validity@
                && r->Ok_0.wf() && *r->Ok_0.validity == validity,
            r is Err ==> r->Err_0 is InvalidEncoding,
    {
        let len = buffer_len(&buffer);
        if let Validity::Array(a) = &validity {
            if a.len() != len {
                return Err(
                    VortexError::InvalidEncoding(
                        "validity array length doesn't match array length".to_owned(),
                    ),
                );
            }
        }
        Ok(BoolArray { buffer, validity: Box::new(validity) })
    }

    /// An array of `bools` with the given validity, which must fit it.
    pub fn from_vec(bools: Vec<bool>, validity: Validity) -> (r: BoolArray)
        requires
            validity.wf_for(bools@.len()),
        ensures
            r.values() == bools@,
            r.validity@ == validity@,
            *r.validity == validity,
            r.wf(),
    {
        let buffer = buffer_from_bools(bools);
        match BoolArray::try_new(buffer, validity) {
            Ok(a) => a,
            Err(_) => {
                assert(false);
                BoolArray::from_buffer(buffer_from_bools(Vec::new()))
            },
        }
    }

    /// An array of optional booleans: `None` is an absent entry, whose bit is
    /// `false`.
    pub fn from_options(items: Vec<Option<bool>>) -> (r: BoolArray)
        ensures
            r.wf(),
            r.entries() == items@,
            r.values() == items@.map_values(|o: Option<bool>| o == Some(true)),
            r.validity@ == compact(items@.map_values(|o: Option<bool>| o is Some)),
    {
        let mut values: Vec<bool> = Vec::new();
        let mut present: Vec<bool> = Vec::new();
        let mut i: usize = 0;
        while i < items.len()
            invariant
                i <= items@.len(),
                values@ == items@.subrange(0, i as int).map_values(|o: Option<bool>| o == Some(true)),
                present@ == items@.subrange(0, i as int).map_values(|o: Option<bool>| o is Some),
            decreases items@.len() - i,
        {
            let item = items[i];
            match item {
                Some(b) => {
                    values.push(b);
                    present.push(true);
                },
                None => {
                    values.push(false);
                    present.push(false);
                },
            }
            proof {
                assert(items@.subrange(0, i + 1) =~= items@.subrange(0, i as int).push(item));
            }
            i = i + 1;
        }
        proof {
            assert(items@.subrange(0, i as int) =~= items@);
        }
        let ghost pv = present@;
        let validity = Validity::from_bools(present);
        let r = BoolArray::from_vec(values, validity);
        assert forall|k: int| 0 <= k < items@.len() implies r.entry(k) == items@[k] by {
            assert(pv[k] == (items@[k] is Some));
            assert(r.values()[k] == (items@[k] == Some(true)));
            if forall|i: int| 0 <= i < pv.len() ==> #[trigger] pv[i] {
            } else if forall|i: int| 0 <= i < pv.len() ==> !#[trigger] pv[i] {
                assert(!pv[k]);
            } else {
            }
        }
        assert(r.entries() =~= items@);
        r
    }

    /// The canonical form of the array: a bool array is its own.
    pub fn flatten(self) -> (r: BoolArray)
        ensures
            r == self,
    {
        self
    }

    /// The number of entries.
    pub fn len(&self) -> (r: usize)
        ensures
            r == self.values().len(),
    {
        buffer_len(&self.buffer)
    }

    pub fn is_empty(&self) -> (r: bool)
        ensures
            r == (self.values().len() == 0),
    {
        buffer_len(&self.buffer) == 0
    }

    /// The logical type of the entries.
    pub fn dtype(&self) -> (r: DType)
        ensures
            r == self.dtype_spec(),
    {
        DType::Bool(self.validity.nullability())
    }

    /// The bit of entry `i`, whether present or not.
    pub fn value(&self, i: usize) -> (r: bool)
        requires
            i < self.values().len(),
        ensures
            r == self.values()[i as int],
    {
        buffer_value(&self.buffer, i)
    }

    /// Whether every bit is set.
    pub fn all_set(&self) -> (r: bool)
        ensures
            r == forall|i: int| 0 <= i < self.values().len() ==> #[trigger] self.values()[i],
    {
        proof {
            lemma_count_true(self.values());
        }
        buffer_count_set_bits(&self.buffer) == self.len()
    }

    /// Whether no bit is set.
    pub fn none_set(&self) -> (r: bool)
        ensures
            r == forall|i: int| 0 <= i < self.values().len() ==> !#[trigger] self.values()[i],
    {
        proof {
            lemma_count_true(self.values());
        }
        buffer_count_set_bits(&self.buffer) == 0
    }

    /// Whether both arrays hold the same bits.
    pub fn same_values(&self, other: &BoolArray) -> (r: bool)
        ensures
            r == (self.values() == other.values()),
    {
        buffer_eq(&self.buffer, &other.buffer)
    }

    /// The entry at `index`, `None` when it is absent; an index past the end is
    /// refused.
    pub fn scalar_at(&self, index: usize) -> (r: Result<Option<bool>, VortexError>)
        requires
            self.wf(),
        ensures
            index < self.values().len() ==> r == Ok::<_, VortexError>(self.entry(index as int)),
            index >= self.values().len() ==> r is Err && r->Err_0 is OutOfBounds,
    {
        let n = self.len();
        if index >= n {
            return Err(VortexError::OutOfBounds(index, n));
        }
        if self.validity.is_valid(index) {
            Ok(Some(self.value(index)))
        } else {
            Ok(None)
        }
    }

    /// The entries `start..stop`; bounds outside the array are refused.
    pub fn slice(&self, start: usize, stop: usize) -> (r: Result<BoolArray, VortexError>)
        requires
            self.wf(),
        ensures
            start <= stop <= self.values().len() <==> r is Ok,
            r is Ok ==> {
                let s = r->Ok_0;
                &&& s.wf()
                &&& s.values() == self.values().subrange(start as int, stop as int)
                &&& s.entries() == self.entries().subrange(start as int, stop as int)
                &&& (*s.validity is NonNullable <==> *self.validity is NonNullable)
            },
            r is Err ==> r->Err_0 is OutOfBounds,
        decreases self.validity,
    {
        let n = self.len();
        if start > stop || stop > n {
            return Err(VortexError::OutOfBounds(stop, n));
        }
        let buffer = buffer_slice(&self.buffer, start, stop - start);
        let validity = match &*self.validity {
            Validity::Array(a) => {
                let inner = match a.slice_values(start, stop) {
                    Ok(s) => s,
                    Err(e) => return Err(e),
                };
                Validity::Array(inner)
            },
            Validity::NonNullable => Validity::NonNullable,
            Validity::AllValid => Validity::AllValid,
            Validity::AllInvalid => Validity::AllInvalid,
        };
        let r = BoolArray { buffer, validity: Box::new(validity) };
        assert(r.entries() =~= self.entries().subrange(start as int, stop as int));
        Ok(r)
    }

    /// The bits `start..stop` as a non-nullable array.
    pub(crate) fn slice_values(&self, start: usize, stop: usize) -> (r: Result<BoolArray, VortexError>)
        requires
            start <= stop <= self.values().len(),
        ensures
            r is Ok,
            r->Ok_0.values() == self.values().subrange(start as int, stop as int),
            r->Ok_0.validity@ == Mask::NonNullable,
            r->Ok_0.wf(),
    {
        Ok(BoolArray::from_buffer(buffer_slice(&self.buffer, start, stop - start)))
    }

    /// The bits at `indices`, in that order, as a non-nullable array.
    pub(crate) fn take_values(&self, indices: &[u64]) -> (r: BoolArray)
        requires
            forall|j: int| 0 <= j < indices@.len() ==> #[trigger] indices@[j] < self.values().len(),
        ensures
            r.values() == Seq::new(indices@.len(), |j: int| self.values()[indices@[j] as int]),
            r.validity@ == Mask::NonNullable,
            r.wf(),
    {
        let mut out: Vec<bool> = Vec::new();
        let n = self.len();
        let mut j: usize = 0;
        while j < indices.len()
            invariant
                n == self.values().len(),
                j <= indices@.len(),
                forall|j: int| 0 <= j < indices@.len() ==> #[trigger] indices@[j] < self.values().len(),
                out@ == Seq::new(j as nat, |k: int| self.values()[indices@[k] as int]),
            decreases indices@.len() - j,
        {
            let idx = indices[j];
            assert(idx < self.values().len());
            out.push(self.value(idx as usize));
            j = j + 1;
            assert(out@ =~= Seq::new(j as nat, |k: int| self.values()[indices@[k] as int]));
        }
        BoolArray::from_vec(out, Validity::NonNullable)
    }

    /// The entries at `indices`, in that order; an index past the end is refused.
    pub fn take(&self, indices: &[u64]) -> (r: Result<BoolArray, VortexError>)
        requires
            self.wf(),
        ensures
            (forall|j: int| 0 <= j < indices@.len() ==> #[trigger] indices@[j] < self.values().len())
                <==> r is Ok,
            r is Ok ==> {
                let t = r->Ok_0;
                &&& t.wf()
                &&& t.values() == Seq::new(indices@.len(), |j: int| self.values()[indices@[j] as int])
                &&& t.entries() == Seq::new(indices@.len(), |j: int| self.entry(indices@[j] as int))
                &&& (*t.validity is NonNullable <==> *self.validity is NonNullable)
            },
            r is Err ==> out_of_range_error(indices@, self.values().len(), r->Err_0),
    {
        let n = self.len();
        if let Err(e) = check_indices(indices, n) {
            return Err(e);
        }
        let values = self.take_values(indices);
        let validity = match &*self.validity {
            Validity::Array(a) => Validity::Array(a.take_values(indices)),
            Validity::NonNullable => Validity::NonNullable,
            Validity::AllValid => Validity::AllValid,
            Validity::AllInvalid => Validity::AllInvalid,
        };
        let r = BoolArray { buffer: values.buffer, validity: Box::new(validity) };
        assert(r.entries() =~= Seq::new(indices@.len(), |j: int| self.entry(indices@[j] as int)));
        Ok(r)
    }

    /// Compares the two arrays entry by entry: bit `i` of the result is set when
    /// `self[i] op other[i]` holds and both entries are present.
    pub fn compare(&self, other: &BoolArray, op: Operator) -> (r: Result<BoolArray, VortexError>)
        requires
            self.wf(),
            other.wf(),
            self.values().len() == other.values().len(),
        ensures
            r is Ok,
            r->Ok_0.wf(),
            r->Ok_0.validity@ == Mask::NonNullable,
            r->Ok_0.values().len() == self.values().len(),
            forall|i: int|
                0 <= i < self.values().len() ==> #[trigger] r->Ok_0.values()[i] == (compare_bools(
                    op,
                    self.values()[i],
                    other.values()[i],
                ) && self.valid(i) && other.valid(i)),
    {
        let len = self.len();
        let r0 = apply_comparison_op(&self.buffer, &other.buffer, op);
        let r1 = self.mask_with_validity(r0);
        let r2 = other.mask_with_validity(r1);
        Ok(BoolArray::from_buffer(r2))
    }

    /// `bits` with the bits of absent entries cleared.
    fn mask_with_validity(&self, bits: BooleanBuffer) -> (r: BooleanBuffer)
        requires
            self.wf(),
            bits_of(bits).len() == self.values().len(),
        ensures
            bits_of(r).len() == self.values().len(),
            forall|i: int|
                0 <= i < self.values().len() ==> #[trigger] bits_of(r)[i] == (bits_of(bits)[i]
                    && self.valid(i)),
    {
        let lv = ArrayValidity::logical_validity(self);
        let ghost n = self.values().len();
        assert forall|i: int| 0 <= i < n implies #[trigger] lv.bits()[i] == self.valid(i) by {
            assert(self.validity.expand(n)[i] == self.valid(i));
        }
        match lv.to_null_buffer() {
            Ok(Some(nulls)) => buffer_and(&bits, &nulls_into_inner(nulls)),
            Ok(None) => {
                assert forall|i: int| 0 <= i < n implies #[trigger] self.valid(i) by {
                    assert(lv.bits()[i] == lv.valid_at(i));
                }
                bits
            },
            Err(_) => bits,
        }
    }

    /// The array in the logical type `dtype`: the same array for its own type;
    /// between nullable and non-nullable bool, refused when an entry is absent
    /// and the target admits none; any other type is not available.
    pub fn cast(&self, dtype: &DType) -> (r: Result<BoolArray, VortexError>)
        requires
            self.wf(),
        ensures
            match *dtype {
                DType::Bool(n) => if n == Nullability::NonNullable && exists|i: int|
                    0 <= i < self.values().len() && !#[trigger] self.valid(i) {
                    r is Err && r->Err_0 is NullsInNonNullable
                } else {
                    r is Ok && r->Ok_0.wf() && r->Ok_0.entries() == self.entries()
                        && r->Ok_0.values() == self.values()
                        && r->Ok_0.dtype_spec() == DType::Bool(n) && (n == self.dtype_spec()->Bool_0
                        ==> r->Ok_0.validity@ == self.validity@)
                },
                _ => r is Err && r->Err_0 is NotImplemented && r->Err_0->NotImplemented_0@ == "cast"@
                    && r->Err_0->NotImplemented_1@ == "vortex.bool"@,
            },
    {
        let n = match dtype {
            DType::Bool(n) => *n,
            _ => return Err(VortexError::NotImplemented("cast".to_owned(), "vortex.bool".to_owned())),
        };
        let own = self.validity.nullability();
        if own == n {
            assert(n == Nullability::NonNullable ==> forall|i: int| 0 <= i < self.values().len() ==> #[trigger] self.valid(i));
            let r = BoolArray { buffer: buffer_clone(&self.buffer), validity: Box::new(self.validity()) };
            assert(r.entries() =~= self.entries());
            return Ok(r);
        }
        let len = self.len();
        let validity = match n {
            Nullability::Nullable => Validity::AllValid,
            Nullability::NonNullable => {
                let mut i: usize = 0;
                while i < len
                    invariant
                        self.wf(),
                        *dtype == DType::Bool(Nullability::NonNullable),
                        len == self.values().len(),
                        i <= len,
                        forall|j: int| 0 <= j < i ==> #[trigger] self.valid(j),
                    decreases len - i,
                {
                    if !self.validity.is_valid(i) {
                        assert(!self.valid(i as int));
                        assert(exists|i: int| 0 <= i < self.values().len() && !#[trigger] self.valid(i));
                        return Err(VortexError::NullsInNonNullable);
                    }
                    i = i + 1;
                }
                Validity::NonNullable
            },
        };
        let r = BoolArray { buffer: buffer_clone(&self.buffer), validity: Box::new(validity) };
        assert(r.entries() =~= self.entries());
        Ok(r)
    }
}

impl ArrayValidity for BoolArray {
    open spec fn wf_spec(&self) -> bool {
        self.wf()
    }

    open spec fn len_spec(&self) -> nat {
        self.values().len()
    }

    open spec fn valid_spec(&self, index: int) -> bool {
        self.valid(index)
    }

    fn is_valid(&self, index: usize) -> (r: bool) {
        self.validity.is_valid(index)
    }

    fn logical_validity(&self) -> (r: LogicalValidity) {
        let n = self.len();
        let r = self.validity.to_logical(n);
        assert forall|i: int| 0 <= i < n implies r.valid_at(i) == self.valid(i) by {
            assert(r.bits()[i] == self.validity.expand(n as nat)[i]);
        }
        r
    }
}

/// The array in the logical type `dtype`: the same array for its own type;
/// between nullable and non-nullable bool, refused when an entry is absent and
/// the target admits none; any other type is not available.
pub fn cast(array: &BoolArray, dtype: &DType) -> (r: Result<BoolArray, VortexError>)
    requires
        array.wf(),
    ensures
        match *dtype {
            DType::Bool(n) => if n == Nullability::NonNullable && exists|i: int|
                0 <= i < array.values().len() && !#[trigger] array.valid(i) {
                r is Err && r->Err_0 is NullsInNonNullable
            } else {
                r is Ok && r->Ok_0.wf() && r->Ok_0.entries() == array.entries()
                    && r->Ok_0.values() == array.values()
                    && r->Ok_0.dtype_spec() == DType::Bool(n) && (n == array.dtype_spec()->Bool_0
                    ==> r->Ok_0.validity@ == array.validity@)
            },
            _ => r is Err && r->Err_0 is NotImplemented && r->Err_0->NotImplemented_0@ == "cast"@
                && r->Err_0->NotImplemented_1@ == "vortex.bool"@,
        },
{
    array.cast(dtype)
}

impl Clone for BoolArray {
    fn clone(&self) -> (r: Self)
        ensures
            r.values() == self.values(),
            r.validity@ == self.validity@,
            *r.validity is Array ==> r.validity->Array_0.validity@ == self.validity->Array_0.validity@,
    {
        BoolArray { buffer: buffer_clone(&self.buffer), validity: Box::new((*self.validity).clone()) }
    }
}

/// `lhs op rhs`, bit by bit.
pub fn apply_comparison_op(lhs: &BooleanBuffer, rhs: &BooleanBuffer, op: Operator) -> (r: BooleanBuffer)
    requires
        bits_of(*lhs).len() == bits_of(*rhs).len(),
    ensures
        bits_of(r).len() == bits_of(*lhs).len(),
        forall|i: int|
            0 <= i < bits_of(r).len() ==> #[trigger] bits_of(r)[i] == compare_bools(
                op,
                bits_of(*lhs)[i],
                bits_of(*rhs)[i],
            ),
{
    match op {
        Operator::EqualTo => buffer_not(&buffer_xor(lhs, rhs)),
        Operator::NotEqualTo => buffer_xor(lhs, rhs),
        Operator::GreaterThan => buffer_and(lhs, &buffer_not(rhs)),
        Operator::GreaterThanOrEqualTo => buffer_or(lhs, &buffer_not(rhs)),
        Operator::LessThan => buffer_and(&buffer_not(lhs), rhs),
        Operator::LessThanOrEqualTo => buffer_or(&buffer_not(lhs), rhs),
    }
}

/// The values of each array.
pub open spec fn values_of(arrays: Seq<BoolArray>) -> Seq<Seq<bool>> {
    arrays.map_values(|a: BoolArray| a.values())
}

/// The presence bits of each array.
pub open spec fn presence_of(arrays: Seq<BoolArray>) -> Seq<Seq<bool>> {
    arrays.map_values(|a: BoolArray| a.validity.expand(a.values().len()))
}

/// Flattening sequences whose bits all equal `b` gives bits that all equal `b`.
proof fn lemma_flatten_uniform(s: Seq<Seq<bool>>, b: bool)
    requires
        forall|k: int, i: int| 0 <= k < s.len() && 0 <= i < s[k].len() ==> #[trigger] s[k][i] == b,
    ensures
        forall|i: int| 0 <= i < s.flatten_alt().len() ==> #[trigger] s.flatten_alt()[i] == b,
    decreases s.len(),
{
    if s.len() > 0 {
        lemma_flatten_uniform(s.drop_last(), b);
        let f = s.drop_last().flatten_alt();
        assert forall|i: int| 0 <= i < s.flatten_alt().len() implies #[trigger] s.flatten_alt()[i] == b by {
            if i >= f.len() {
                assert(s[s.len() - 1][i - f.len()] == b);
            }
        }
    }
}

/// The arrays joined end to end, keeping their order and their validity; arrays
/// of different logical types are refused.
pub fn as_contiguous(arrays: &Vec<BoolArray>) -> (r: Result<BoolArray, VortexError>)
    requires
        forall|k: int| 0 <= k < arrays@.len() ==> (#[trigger] arrays@[k]).wf(),
    ensures
        (forall|k: int| 0 <= k < arrays@.len() ==> (*(#[trigger] arrays@[k]).validity is NonNullable
            <==> *arrays@[0].validity is NonNullable)) <==> r is Ok,
        r is Err ==> r->Err_0 is DTypeMismatch,
        r is Ok ==> {
            let c = r->Ok_0;
            &&& c.wf()
            &&& c.values() == values_of(arrays@).flatten_alt()
            &&& c.validity.expand(c.values().len()) == presence_of(arrays@).flatten_alt()
            &&& arrays@.len() > 0 ==> (*c.validity is NonNullable <==> *arrays@[0].validity is NonNullable)
        },
{
    let n = arrays.len();
    if n > 0 {
        let first = arrays[0].dtype();
        let mut k: usize = 1;
        while k < n
            invariant
                n == arrays@.len(),
                n > 0,
                1 <= k <= n,
                first == arrays@[0].dtype_spec(),
                forall|j: int| 0 <= j < k ==> (*(#[trigger] arrays@[j]).validity is NonNullable
                    <==> *arrays@[0].validity is NonNullable),
            decreases n - k,
        {
            let d = arrays[k].dtype();
            if d != first {
                assert(!same_dtype(d, first));
                return Err(VortexError::DTypeMismatch(first, d));
            }
            k = k + 1;
        }
    }
    let ghost vs = values_of(arrays@);
    let ghost ps = presence_of(arrays@);
    let mut values: Vec<bool> = Vec::new();
    let mut logical: Vec<LogicalValidity> = Vec::new();
    let mut k: usize = 0;
    while k < n
        invariant
            n == arrays@.len(),
            k <= n,
            vs == values_of(arrays@),
            ps == presence_of(arrays@),
            forall|j: int| 0 <= j < arrays@.len() ==> (#[trigger] arrays@[j]).wf(),
            values@ == vs.subrange(0, k as int).flatten_alt(),
            logical@.len() == k,
            forall|j: int| 0 <= j < k ==> (#[trigger] logical@[j]).bits() == ps[j]
                && (logical@[j] is AllValid ==> forall|i: int| 0 <= i < ps[j].len() ==> ps[j][i])
                && (logical@[j] is AllInvalid ==> forall|i: int| 0 <= i < ps[j].len() ==> !ps[j][i]),
        decreases n - k,
    {
        let a = &arrays[k];
        let len = a.len();
        let mut i: usize = 0;
        while i < len
            invariant
                k < n,
                *a == arrays@[k as int],
                len == a.values().len(),
                i <= len,
                values@ == vs.subrange(0, k as int).flatten_alt() + a.values().subrange(0, i as int),
            decreases len - i,
        {
            values.push(a.value(i));
            i = i + 1;
            assert(values@ =~= vs.subrange(0, k as int).flatten_alt() + a.values().subrange(0, i as int));
        }
        proof {
            assert(vs.subrange(0, k + 1).drop_last() =~= vs.subrange(0, k as int));
            assert(a.values().subrange(0, i as int) =~= a.values());
        }
        let lv = ArrayValidity::logical_validity(a);
        proof {
            let p = ps[k as int];
            assert(p == a.validity.expand(a.values().len()));
            assert(lv.bits() == p);
            if lv is AllValid {
                assert forall|i: int| 0 <= i < p.len() implies p[i] by {
                    assert(lv.bits()[i] == lv.valid_at(i));
                }
            }
            if lv is AllInvalid {
                assert forall|i: int| 0 <= i < p.len() implies !p[i] by {
                    assert(lv.bits()[i] == lv.valid_at(i));
                }
            }
        }
        logical.push(lv);
        k = k + 1;
    }
    let total_len = values.len();
    proof {
        assert(vs.subrange(0, n as int) =~= vs);
        assert(values@ == vs.flatten_alt());
        assert(logical@.map_values(|v: LogicalValidity| v.bits()) =~= ps);
        assert forall|j: int| 0 <= j < ps.len() implies (#[trigger] ps[j]).len() == vs[j].len() by {}
        lemma_flatten_same_lens(ps, vs);
    }
    let ghost lg = logical@;
    let nonnullable = n > 0 && matches!(*arrays[0].validity, Validity::NonNullable);
    let validity = if nonnullable {
        Validity::NonNullable
    } else {
        Validity::from_logical(logical)
    };
    let r = BoolArray::from_vec(values, validity);
    proof {
        let total = ps.flatten_alt().len();
        let e = r.validity.expand(total);
        if nonnullable {
            assert forall|k: int, i: int| 0 <= k < ps.len() && 0 <= i < ps[k].len() implies #[trigger] ps[k][i] == true by {
                assert(*arrays@[k].validity is NonNullable);
            }
            lemma_flatten_uniform(ps, true);
            assert(e =~= ps.flatten_alt());
        } else if forall|i: int| 0 <= i < lg.len() ==> #[trigger] lg[i] is AllValid {
            assert forall|k: int, i: int| 0 <= k < ps.len() && 0 <= i < ps[k].len() implies #[trigger] ps[k][i] == true by {
                assert(lg[k] is AllValid);
            }
            lemma_flatten_uniform(ps, true);
            assert(e =~= ps.flatten_alt());
        } else if forall|i: int| 0 <= i < lg.len() ==> #[trigger] lg[i] is AllInvalid {
            assert forall|k: int, i: int| 0 <= k < ps.len() && 0 <= i < ps[k].len() implies #[trigger] ps[k][i] == false by {
                assert(lg[k] is AllInvalid);
            }
            lemma_flatten_uniform(ps, false);
            assert(e =~= ps.flatten_alt());
        } else {
            assert(e =~= ps.flatten_alt());
        }
    }
    Ok(r)
}

/// Joining three arrays gives the values of the first, then the second, then the
/// third, with their presence bits in the same order; so the joined length is
/// the sum of the three lengths.
pub proof fn lemma_contiguous_three(a: BoolArray, b: BoolArray, c: BoolArray)
    ensures
        values_of(seq![a, b, c]).flatten_alt() == a.values() + b.values() + c.values(),
        presence_of(seq![a, b, c]).flatten_alt() == a.validity.expand(a.values().len())
            + b.validity.expand(b.values().len()) + c.validity.expand(c.values().len()),
        values_of(seq![a, b, c]).flatten_alt().len() == a.values().len() + b.values().len()
            + c.values().len(),
{
    let vs = values_of(seq![a, b, c]);
    let ps = presence_of(seq![a, b, c]);
    assert(vs.drop_last().drop_last().drop_last() =~= Seq::<Seq<bool>>::empty());
    assert(ps.drop_last().drop_last().drop_last() =~= Seq::<Seq<bool>>::empty());
    reveal_with_fuel(Seq::flatten_alt, 4);
    assert(vs.flatten_alt() =~= a.values() + b.values() + c.values());
    assert(ps.flatten_alt() =~= a.validity.expand(a.values().len()) + b.validity.expand(
        b.values().len(),
    ) + c.validity.expand(c.values().len()));
}

/// Sequences of equal lengths, pair by pair, flatten to equal lengths.
proof fn lemma_flatten_same_lens(a: Seq<Seq<bool>>, b: Seq<Seq<bool>>)
    requires
        a.len() == b.len(),
        forall|j: int| 0 <= j < a.len() ==> (#[trigger] a[j]).len() == b[j].len(),
    ensures
        a.flatten_alt().len() == b.flatten_alt().len(),
    decreases a.len(),
{
    if a.len() > 0 {
        lemma_flatten_same_lens(a.drop_last(), b.drop_last());
    }
}

} // verus!
