//! Validity: which entries of an array are present, in one of four forms.
use crate::bits::{bits_of, buffer_clone, buffer_from_bools, mask_of, nulls_into_inner, nulls_new, nulls_new_null, nulls_new_valid};
use crate::bool_array::BoolArray;
use crate::dtype::Nullability;
use crate::compute::{check_indices, out_of_range_error};
use crate::error::VortexError;
use arrow_buffer::{BooleanBuffer, NullBuffer};
use vstd::prelude::*;

verus! {

/// The abstract content of a validity: a compact form, or explicit presence bits.
pub enum Mask {
    NonNullable,
    AllValid,
    AllInvalid,
    Bits(Seq<bool>),
}

/// The compact form of a sequence of presence bits: `AllValid` when every bit is
/// set (an empty sequence included), `AllInvalid` when none is, else the bits.
pub open spec fn compact(bits: Seq<bool>) -> Mask {
    if forall|i: int| 0 <= i < bits.len() ==> #[trigger] bits[i] {
        Mask::AllValid
    } else if forall|i: int| 0 <= i < bits.len() ==> !#[trigger] bits[i] {
        Mask::AllInvalid
    } else {
        Mask::Bits(bits)
    }
}

/// Arrays that say which of their entries are present.
pub trait ArrayValidity {
    /// The array's parts agree with one another.
    spec fn wf_spec(&self) -> bool;

    /// The number of entries.
    spec fn len_spec(&self) -> nat;

    /// Whether entry `index` is present.
    spec fn valid_spec(&self, index: int) -> bool;

    /// Whether entry `index` is present.
    fn is_valid(&self, index: usize) -> (r: bool)
        requires
            self.wf_spec(),
            index < self.len_spec(),
        ensures
            r == self.valid_spec(index as int),
    ;

    /// The validity read back over the entries.
    fn logical_validity(&self) -> (r: LogicalValidity)
        requires
            self.wf_spec(),
        ensures
            r.len_spec() == self.len_spec(),
            forall|i: int| 0 <= i < self.len_spec() ==> #[trigger] r.valid_at(i) == self.valid_spec(i),
    ;
}

/// The tag recorded for a validity in an array's metadata.
#[derive(Clone, Copy, Debug, PartialEq, Eq, Structural)]
pub enum ValidityMetadata {
    NonNullable,
    AllValid,
    AllInvalid,
    Array,
}

/// Which entries of an array are present.
#[derive(Debug)]
pub enum Validity {
    /// The type admits no missing values.
    NonNullable,
    /// Every entry is present.
    AllValid,
    /// Every entry is missing.
    AllInvalid,
    /// A bit per entry, set where the entry is present.
    Array(BoolArray),
}

impl View for Validity {
    type V = Mask;

    open spec fn view(&self) -> Mask {
        match self {
            Validity::NonNullable => Mask::NonNullable,
            Validity::AllValid => Mask::AllValid,
            Validity::AllInvalid => Mask::AllInvalid,
            Validity::Array(a) => Mask::Bits(a.values()),
        }
    }
}

impl Validity {
    /// Whether the validity fits an array of `len` entries: an explicit mask has
    /// one bit per entry; its bits are read as the presence bits, whatever the
    /// mask's own validity.
    pub open spec fn wf_for(self, len: nat) -> bool {
        match self {
            Validity::Array(a) => a.values().len() == len,
            _ => true,
        }
    }

    /// Whether entry `i` is present.
    pub open spec fn valid_at(self, i: int) -> bool {
        match self {
            Validity::NonNullable => true,
            Validity::AllValid => true,
            Validity::AllInvalid => false,
            Validity::Array(a) => a.values()[i],
        }
    }

    /// The presence bits of the first `len` entries.
    pub open spec fn expand(self, len: nat) -> Seq<bool> {
        Seq::new(len, |i: int| self.valid_at(i))
    }
}

/// The mask of a validity read back: its length is explicit.
#[derive(Debug)]
pub enum LogicalValidity {
    AllValid(usize),
    AllInvalid(usize),
    Array(BoolArray),
}

impl LogicalValidity {
    pub open spec fn len_spec(self) -> nat {
        match self {
            LogicalValidity::AllValid(n) => n as nat,
            LogicalValidity::AllInvalid(n) => n as nat,
            LogicalValidity::Array(a) => a.values().len(),
        }
    }

    pub open spec fn valid_at(self, i: int) -> bool {
        match self {
            LogicalValidity::AllValid(_) => true,
            LogicalValidity::AllInvalid(_) => false,
            LogicalValidity::Array(a) => a.values()[i],
        }
    }

    /// Its presence bits, one per entry.
    pub open spec fn bits(self) -> Seq<bool> {
        Seq::new(self.len_spec(), |i: int| self.valid_at(i))
    }
}

impl ValidityMetadata {
    /// The validity that this tag records; an explicit mask comes as `array`.
    pub fn to_validity(&self, array: Option<BoolArray>) -> (r: Validity)
        requires
            *self == ValidityMetadata::Array ==> array is Some,
        ensures
            match *self {
                ValidityMetadata::NonNullable => r@ == Mask::NonNullable,
                ValidityMetadata::AllValid => r@ == Mask::AllValid,
                ValidityMetadata::AllInvalid => r@ == Mask::AllInvalid,
                ValidityMetadata::Array => r == Validity::Array(array->0),
            },
    {
        match self {
            ValidityMetadata::NonNullable => Validity::NonNullable,
            ValidityMetadata::AllValid => Validity::AllValid,
            ValidityMetadata::AllInvalid => Validity::AllInvalid,
            ValidityMetadata::Array => match array {
                Some(a) => Validity::Array(a),
                None => Validity::AllInvalid,
            },
        }
    }
}

impl Clone for Validity {
    fn clone(&self) -> (r: Self)
        ensures
            r@ == self@,
            r is Array ==> (r->Array_0.validity@ == self->Array_0.validity@),
        decreases self,
    {
        match self {
            Validity::NonNullable => Validity::NonNullable,
            Validity::AllValid => Validity::AllValid,
            Validity::AllInvalid => Validity::AllInvalid,
            Validity::Array(a) => {
                proof {
                    lemma_mask_decreases(*self);
                }
                let inner = (*a.validity).clone();
                Validity::Array(BoolArray { buffer: buffer_clone(&a.buffer), validity: Box::new(inner) })
            },
        }
    }
}

/// The mask inside an explicit mask is smaller than the validity that holds it.
proof fn lemma_mask_decreases(v: Validity)
    requires
        v is Array,
    ensures
        decreases_to!(v => *v->Array_0.validity),
{
    let a = v->Array_0;
    assert(decreases_to!(v => a));
}

impl Validity {
    /// The explicit mask, if there is one.
    pub fn into_array_data(self) -> (r: Option<BoolArray>)
        ensures
            match self {
                Validity::Array(a) => r == Some(a),
                _ => r is None,
            },
    {
        match self {
            Validity::Array(a) => Some(a),
            _ => None,
        }
    }

    /// The tag to record for this validity on an array of `length` entries; an
    /// explicit mask of another length is refused.
    pub fn to_metadata(&self, length: usize) -> (r: Result<ValidityMetadata, VortexError>)
        ensures
            match *self {
                Validity::NonNullable => r == Ok::<_, VortexError>(ValidityMetadata::NonNullable),
                Validity::AllValid => r == Ok::<_, VortexError>(ValidityMetadata::AllValid),
                Validity::AllInvalid => r == Ok::<_, VortexError>(ValidityMetadata::AllInvalid),
                Validity::Array(a) => if a.values().len() == length {
                    r == Ok::<_, VortexError>(ValidityMetadata::Array)
                } else {
                    r is Err && r->Err_0 is InvalidEncoding
                },
            },
    {
        match self {
            Validity::NonNullable => Ok(ValidityMetadata::NonNullable),
            Validity::AllValid => Ok(ValidityMetadata::AllValid),
            Validity::AllInvalid => Ok(ValidityMetadata::AllInvalid),
            Validity::Array(a) => {
                if a.len() != length {
                    return Err(
                        VortexError::InvalidEncoding(
                            "validity array length doesn't match array length".to_owned(),
                        ),
                    );
                }
                Ok(ValidityMetadata::Array)
            },
        }
    }

    /// The explicit mask, if there is one.
    pub fn array(&self) -> (r: Option<&BoolArray>)
        ensures
            match *self {
                Validity::Array(a) => r == Some(&a),
                _ => r is None,
            },
    {
        match self {
            Validity::Array(a) => Some(a),
            _ => None,
        }
    }

    /// `NonNullable` exactly for the `NonNullable` form.
    pub fn nullability(&self) -> (r: Nullability)
        ensures
            r == (if *self is NonNullable {
                Nullability::NonNullable
            } else {
                Nullability::Nullable
            }),
    {
        match self {
            Validity::NonNullable => Nullability::NonNullable,
            _ => Nullability::Nullable,
        }
    }

    /// Whether entry `index` is present.
    pub fn is_valid(&self, index: usize) -> (r: bool)
        requires
            *self is Array ==> index < self->Array_0.values().len(),
        ensures
            r == self.valid_at(index as int),
    {
        match self {
            Validity::NonNullable | Validity::AllValid => true,
            Validity::AllInvalid => false,
            Validity::Array(a) => a.value(index),
        }
    }

    /// The validity of entries `start..stop`.
    pub fn slice(&self, start: usize, stop: usize) -> (r: Result<Validity, VortexError>)
        ensures
            match *self {
                Validity::Array(a) => if start <= stop <= a.values().len() {
                    r is Ok && r->Ok_0.wf_for((stop - start) as nat) && r->Ok_0@ == Mask::Bits(
                        a.values().subrange(start as int, stop as int),
                    )
                } else {
                    r is Err && r->Err_0 is OutOfBounds
                },
                _ => r is Ok && r->Ok_0@ == self@,
            },
    {
        match self {
            Validity::Array(a) => {
                let n = a.len();
                if start > stop || stop > n {
                    return Err(VortexError::OutOfBounds(stop, n));
                }
                match a.slice_values(start, stop) {
                    Ok(s) => Ok(Validity::Array(s)),
                    Err(e) => Err(e),
                }
            },
            _ => Ok(self.clone()),
        }
    }

    /// The validity of the entries at `indices`, in that order.
    pub fn take(&self, indices: &[u64]) -> (r: Result<Validity, VortexError>)
        ensures
            match *self {
                Validity::Array(a) => if forall|j: int|
                    0 <= j < indices@.len() ==> #[trigger] indices@[j] < a.values().len() {
                    r is Ok && r->Ok_0.wf_for(indices@.len()) && r->Ok_0@ == Mask::Bits(
                        Seq::new(indices@.len(), |j: int| a.values()[indices@[j] as int]),
                    )
                } else {
                    r is Err && out_of_range_error(indices@, a.values().len(), r->Err_0)
                },
                _ => r is Ok && r->Ok_0@ == self@,
            },
    {
        match self {
            Validity::NonNullable => Ok(Validity::NonNullable),
            Validity::AllValid => Ok(Validity::AllValid),
            Validity::AllInvalid => Ok(Validity::AllInvalid),
            Validity::Array(a) => match check_indices(indices, a.len()) {
                Ok(()) => Ok(Validity::Array(a.take_values(indices))),
                Err(e) => Err(e),
            },
        }
    }

    /// The mask read back over `length` entries, compacted to `AllValid` or
    /// `AllInvalid` when an explicit mask is non-empty and uniform.
    pub fn to_logical(&self, length: usize) -> (r: LogicalValidity)
        requires
            self.wf_for(length as nat),
        ensures
            r.len_spec() == length,
            r.bits() == self.expand(length as nat),
            r is AllValid <==> (match *self {
                Validity::Array(a) => length > 0 && forall|i: int|
                    0 <= i < length ==> #[trigger] a.values()[i],
                Validity::AllInvalid => false,
                _ => true,
            }),
            r is AllInvalid <==> (match *self {
                Validity::Array(a) => length > 0 && forall|i: int|
                    0 <= i < length ==> !#[trigger] a.values()[i],
                Validity::AllInvalid => true,
                _ => false,
            }),
    {
        let r = match self {
            Validity::NonNullable => LogicalValidity::AllValid(length),
            Validity::AllValid => LogicalValidity::AllValid(length),
            Validity::AllInvalid => LogicalValidity::AllInvalid(length),
            Validity::Array(a) => {
                if length > 0 && a.all_set() {
                    assert(a.values()[0]);
                    LogicalValidity::AllValid(length)
                } else if length > 0 && a.none_set() {
                    LogicalValidity::AllInvalid(length)
                } else {
                    LogicalValidity::Array(a.clone())
                }
            },
        };
        assert(r.bits() =~= self.expand(length as nat));
        r
    }

    /// The compact validity of a vector of presence bits.
    pub fn from_bools(bools: Vec<bool>) -> (r: Validity)
        ensures
            r@ == compact(bools@),
            r.wf_for(bools@.len()),
    {
        let b = buffer_from_bools(bools);
        Validity::from_boolean_buffer(b)
    }

    /// The compact validity of a sequence of optional values: present where the
    /// value is `Some`.
    pub fn from_options<E>(options: &Vec<Option<E>>) -> (r: Validity)
        ensures
            r@ == compact(options@.map_values(|o: Option<E>| o is Some)),
            r.wf_for(options@.len()),
    {
        let mut bools: Vec<bool> = Vec::new();
        let mut i: usize = 0;
        while i < options.len()
            invariant
                i <= options@.len(),
                bools@ == options@.subrange(0, i as int).map_values(|o: Option<E>| o is Some),
            decreases options@.len() - i,
        {
            bools.push(options[i].is_some());
            proof {
                assert(options@.subrange(0, i + 1).drop_last() =~= options@.subrange(0, i as int));
                assert(bools@ =~= options@.subrange(0, i + 1).map_values(|o: Option<E>| o is Some));
            }
            i = i + 1;
        }
        assert(options@.subrange(0, i as int) =~= options@);
        Validity::from_bools(bools)
    }

    /// The compact validity of a buffer of presence bits.
    pub fn from_boolean_buffer(value: BooleanBuffer) -> (r: Validity)
        ensures
            r@ == compact(bits_of(value)),
            r.wf_for(bits_of(value).len()),
    {
        let a = BoolArray::from_buffer(value);
        if a.all_set() {
            Validity::AllValid
        } else if a.none_set() {
            Validity::AllInvalid
        } else {
            Validity::Array(a)
        }
    }

    /// The compact validity of a null mask.
    pub fn from_null_buffer(value: NullBuffer) -> (r: Validity)
        ensures
            r@ == compact(mask_of(value)),
            r.wf_for(mask_of(value).len()),
    {
        Validity::from_boolean_buffer(nulls_into_inner(value))
    }

    /// The validity of the concatenation of entries read back as `validities`:
    /// `AllValid` when all are, `AllInvalid` when all are, else the joined bits.
    pub fn from_logical(validities: Vec<LogicalValidity>) -> (r: Validity)
        requires
            validities@.map_values(|v: LogicalValidity| v.bits()).flatten_alt().len()
                <= usize::MAX,
        ensures
            r@ == (if forall|i: int| 0 <= i < validities@.len() ==> #[trigger] validities@[i] is AllValid {
                Mask::AllValid
            } else if forall|i: int| 0 <= i < validities@.len() ==> #[trigger] validities@[i] is AllInvalid {
                Mask::AllInvalid
            } else {
                Mask::Bits(validities@.map_values(|v: LogicalValidity| v.bits()).flatten_alt())
            }),
            r.wf_for(validities@.map_values(|v: LogicalValidity| v.bits()).flatten_alt().len()),
    {
        let ghost parts = validities@.map_values(|v: LogicalValidity| v.bits());
        let mut all_valid = true;
        let mut all_invalid = true;
        let mut i: usize = 0;
        while i < validities.len()
            invariant
                i <= validities@.len(),
                all_valid == forall|j: int| 0 <= j < i ==> #[trigger] validities@[j] is AllValid,
                all_invalid == forall|j: int| 0 <= j < i ==> #[trigger] validities@[j] is AllInvalid,
            decreases validities@.len() - i,
        {
            all_valid = all_valid && validities[i].all_valid();
            all_invalid = all_invalid && validities[i].all_invalid();
            i = i + 1;
        }
        if all_valid {
            return Validity::AllValid;
        }
        if all_invalid {
            return Validity::AllInvalid;
        }
        let mut out: Vec<bool> = Vec::new();
        let mut k: usize = 0;
        while k < validities.len()
            invariant
                k <= validities@.len(),
                parts == validities@.map_values(|v: LogicalValidity| v.bits()),
                    parts.flatten_alt().len() <= usize::MAX,
                out@ == parts.subrange(0, k as int).flatten_alt(),
            decreases validities@.len() - k,
        {
            proof {
                lemma_flatten_alt_prefix_len(parts, k as int + 1);
                assert(parts.subrange(0, k + 1).drop_last() =~= parts.subrange(0, k as int));
            }
            let v = &validities[k];
            let len = v.len();
            assert(parts[k as int] == v.bits());
            let mut j: usize = 0;
            while j < len
                invariant
                    k < validities@.len(),
                    v == validities@[k as int],
                    len == v.len_spec(),
                    j <= len,
                    parts == validities@.map_values(|v: LogicalValidity| v.bits()),
                    parts.subrange(0, k as int).flatten_alt().len() + len <= usize::MAX,
                    out@ == parts.subrange(0, k as int).flatten_alt() + v.bits().subrange(0, j as int),
                decreases len - j,
            {
                out.push(v.is_valid(j));
                proof {
                    assert(v.bits().subrange(0, j + 1) =~= v.bits().subrange(0, j as int).push(v.valid_at(j as int)));
                }
                j = j + 1;
            }
            proof {
                assert(parts.subrange(0, k + 1).drop_last() =~= parts.subrange(0, k as int));
                assert(v.bits().subrange(0, len as int) =~= v.bits());
            }
            k = k + 1;
        }
        proof {
            assert(parts.subrange(0, validities@.len() as int) =~= parts);
        }
        Validity::Array(BoolArray::from_vec(out, Validity::NonNullable))
    }
}

/// A prefix of a sequence of sequences flattens to no more than the whole.
proof fn lemma_flatten_alt_prefix_len(s: Seq<Seq<bool>>, k: int)
    requires
        0 <= k <= s.len(),
    ensures
        s.subrange(0, k).flatten_alt().len() <= s.flatten_alt().len(),
    decreases s.len() - k,
{
    if k < s.len() {
        lemma_flatten_alt_prefix_len(s, k + 1);
        assert(s.subrange(0, k + 1).drop_last() =~= s.subrange(0, k));
    } else {
        assert(s.subrange(0, k) =~= s);
    }
}

impl PartialEq for Validity {
    fn eq(&self, other: &Validity) -> (r: bool) {
        match (self, other) {
            (Validity::NonNullable, Validity::NonNullable) => true,
            (Validity::AllValid, Validity::AllValid) => true,
            (Validity::AllInvalid, Validity::AllInvalid) => true,
            (Validity::Array(a), Validity::Array(b)) => a.same_values(b),
            _ => false,
        }
    }
}

impl vstd::std_specs::cmp::PartialEqSpecImpl for Validity {
    open spec fn obeys_eq_spec() -> bool {
        true
    }

    open spec fn eq_spec(&self, other: &Validity) -> bool {
        self@ == other@
    }
}

impl LogicalValidity {
    /// The null mask, or `None` when every entry is present.
    pub fn to_null_buffer(&self) -> (r: Result<Option<NullBuffer>, VortexError>)
        ensures
            r is Ok,
            match r->Ok_0 {
                None => *self is AllValid,
                Some(n) => !(*self is AllValid) && mask_of(n) == self.bits(),
            },
    {
        match self {
            LogicalValidity::AllValid(_) => Ok(None),
            _ => match self.to_present_null_buffer() {
                Ok(n) => Ok(Some(n)),
                Err(e) => Err(e),
            },
        }
    }

    /// The null mask, also when every entry is present.
    pub fn to_present_null_buffer(&self) -> (r: Result<NullBuffer, VortexError>)
        ensures
            r is Ok,
            mask_of(r->Ok_0) == self.bits(),
    {
        match self {
            LogicalValidity::AllValid(l) => {
                let n = nulls_new_valid(*l);
                assert(mask_of(n) =~= self.bits());
                Ok(n)
            },
            LogicalValidity::AllInvalid(l) => {
                let n = nulls_new_null(*l);
                assert(mask_of(n) =~= self.bits());
                Ok(n)
            },
            LogicalValidity::Array(a) => {
                let n = nulls_new(a.boolean_buffer());
                assert(mask_of(n) =~= self.bits());
                Ok(n)
            },
        }
    }

    pub fn all_valid(&self) -> (r: bool)
        ensures
            r == (*self is AllValid),
    {
        matches!(self, LogicalValidity::AllValid(_))
    }

    pub fn all_invalid(&self) -> (r: bool)
        ensures
            r == (*self is AllInvalid),
    {
        matches!(self, LogicalValidity::AllInvalid(_))
    }

    pub fn len(&self) -> (r: usize)
        ensures
            r == self.len_spec(),
    {
        match self {
            LogicalValidity::AllValid(n) => *n,
            LogicalValidity::AllInvalid(n) => *n,
            LogicalValidity::Array(a) => a.len(),
        }
    }

    pub fn is_empty(&self) -> (r: bool)
        ensures
            r == (self.len_spec() == 0),
    {
        match self {
            LogicalValidity::AllValid(n) => *n == 0,
            LogicalValidity::AllInvalid(n) => *n == 0,
            LogicalValidity::Array(a) => a.is_empty(),
        }
    }

    /// Whether entry `i` is present.
    pub fn is_valid(&self, i: usize) -> (r: bool)
        requires
            i < self.len_spec(),
        ensures
            r == self.valid_at(i as int),
    {
        match self {
            LogicalValidity::AllValid(_) => true,
            LogicalValidity::AllInvalid(_) => false,
            LogicalValidity::Array(a) => a.value(i),
        }
    }

    /// The validity that this mask stands for.
    pub fn into_validity(self) -> (r: Validity)
        ensures
            r.wf_for(self.len_spec()),
            r.expand(self.len_spec()) == self.bits(),
            match self {
                LogicalValidity::AllValid(_) => r@ == Mask::AllValid,
                LogicalValidity::AllInvalid(_) => r@ == Mask::AllInvalid,
                LogicalValidity::Array(a) => r == Validity::Array(a),
            },
    {
        let ghost s = self;
        let r = match self {
            LogicalValidity::AllValid(_) => Validity::AllValid,
            LogicalValidity::AllInvalid(_) => Validity::AllInvalid,
            LogicalValidity::Array(a) => Validity::Array(a),
        };
        assert(r.expand(s.len_spec()) =~= s.bits());
        r
    }

    /// The mask as a bool array, one entry per bit.
    pub fn into_array(self) -> (r: BoolArray)
        ensures
            r.values() == self.bits(),
            r.validity@ == Mask::NonNullable || (self is Array && r == self->Array_0),
    {
        match self {
            LogicalValidity::AllValid(len) => {
                let r = BoolArray::from_vec(vec_of(true, len), Validity::NonNullable);
                assert(r.values() =~= self.bits());
                r
            },
            LogicalValidity::AllInvalid(len) => {
                let r = BoolArray::from_vec(vec_of(false, len), Validity::NonNullable);
                assert(r.values() =~= self.bits());
                r
            },
            LogicalValidity::Array(a) => {
                assert(a.values() =~= self.bits());
                a
            },
        }
    }
}

/// Reading a validity back over `n` entries, turning it into a null mask and
/// building a validity from that mask gives the validity again, compacted: every
/// form keeps its entries, `NonNullable` comes back as `AllValid`, a uniform mask
/// as `AllValid` or `AllInvalid`, and no entries at all as `AllValid`.
pub proof fn lemma_validity_round_trip(x: Validity, n: nat, logical: LogicalValidity, nulls: NullBuffer, back: Validity)
    requires
        x.wf_for(n),
        logical.bits() == x.expand(n),
        mask_of(nulls) == logical.bits(),
        back@ == compact(mask_of(nulls)),
    ensures
        back@ == compact(x.expand(n)),
        back@ == (match x {
            Validity::NonNullable => Mask::AllValid,
            Validity::AllValid => Mask::AllValid,
            Validity::AllInvalid => if n == 0 {
                Mask::AllValid
            } else {
                Mask::AllInvalid
            },
            Validity::Array(a) => compact(a.values()),
        }),
{
    let e = x.expand(n);
    match x {
        Validity::NonNullable => {},
        Validity::AllValid => {},
        Validity::AllInvalid => {
            if n > 0 {
                assert(!e[0]);
            }
        },
        Validity::Array(a) => {
            assert(e =~= a.values());
        },
    }
}

/// Joining read-back validities keeps each one's bits in place: bit `i` of the
/// `j`-th stands at its offset, the summed lengths of those before it.
pub proof fn lemma_from_logical_positions(validities: Seq<LogicalValidity>, j: int, i: int)
    requires
        0 <= j < validities.len(),
        0 <= i < validities[j].len_spec(),
    ensures
        ({
            let parts = validities.map_values(|v: LogicalValidity| v.bits());
            let offset = parts.subrange(0, j).flatten_alt().len();
            &&& offset + i < parts.flatten_alt().len()
            &&& parts.flatten_alt()[offset + i] == validities[j].valid_at(i)
        }),
{
    let parts = validities.map_values(|v: LogicalValidity| v.bits());
    crate::chunked_array::lemma_flatten_alt_index(parts, j, i);
}

/// `len` copies of `b`.
fn vec_of(b: bool, len: usize) -> (r: Vec<bool>)
    ensures
        r@ == Seq::new(len as nat, |i: int| b),
{
    let mut v: Vec<bool> = Vec::new();
    let mut i: usize = 0;
    while i < len
        invariant
            i <= len,
            v@ == Seq::new(i as nat, |j: int| b),
        decreases len - i,
    {
        v.push(b);
        i = i + 1;
        assert(v@ =~= Seq::new(i as nat, |j: int| b));
    }
    v
}

} // verus!
