//! Packed bit vectors and null masks, held in arrow's buffers.
use arrow_buffer::{BooleanBuffer, NullBuffer};
use vstd::prelude::*;

verus! {

#[verifier::external_type_specification]
#[verifier::external_body]
pub struct ExBooleanBuffer(BooleanBuffer);

#[verifier::external_type_specification]
#[verifier::external_body]
pub struct ExNullBuffer(NullBuffer);

/// The bits that a packed boolean buffer holds, in order.
pub uninterp spec fn bits_of(b: BooleanBuffer) -> Seq<bool>;

/// The presence bits of a null mask, in order: `true` where a value is present.
pub uninterp spec fn mask_of(n: NullBuffer) -> Seq<bool>;

/// The number of set bits.
pub open spec fn count_true(s: Seq<bool>) -> nat
    decreases s.len(),
{
    if s.len() == 0 {
        0
    } else {
        count_true(s.drop_last()) + if s.last() {
            1nat
        } else {
            0nat
        }
    }
}

/// All bits are set exactly when the count of set bits is the length, and none
/// is set exactly when the count is zero.
pub proof fn lemma_count_true(s: Seq<bool>)
    ensures
        count_true(s) <= s.len(),
        (count_true(s) == s.len()) <==> (forall|i: int| 0 <= i < s.len() ==> #[trigger] s[i]),
        (count_true(s) == 0) <==> (forall|i: int| 0 <= i < s.len() ==> !#[trigger] s[i]),
    decreases s.len(),
{
    if s.len() > 0 {
        let d = s.drop_last();
        lemma_count_true(d);
        assert forall|i: int| 0 <= i < d.len() implies #[trigger] d[i] == s[i] by {}
        if forall|i: int| 0 <= i < s.len() ==> #[trigger] s[i] {
            assert(s[s.len() - 1]);
            assert(forall|i: int| 0 <= i < d.len() ==> #[trigger] d[i]) by {
                assert forall|i: int| 0 <= i < d.len() implies #[trigger] d[i] by {
                    assert(s[i]);
                }
            }
        }
        if count_true(s) == s.len() {
            assert forall|i: int| 0 <= i < s.len() implies #[trigger] s[i] by {
                if i < d.len() {
                    assert(d[i]);
                }
            }
        }
        if forall|i: int| 0 <= i < s.len() ==> !#[trigger] s[i] {
            assert(!s[s.len() - 1]);
            assert(forall|i: int| 0 <= i < d.len() ==> !#[trigger] d[i]) by {
                assert forall|i: int| 0 <= i < d.len() implies !#[trigger] d[i] by {
                    assert(!s[i]);
                }
            }
        }
        if count_true(s) == 0 {
            assert forall|i: int| 0 <= i < s.len() implies !#[trigger] s[i] by {
                if i < d.len() {
                    assert(!d[i]);
                }
            }
        }
    }
}

/// Relies on `BooleanBuffer::count_set_bits`: the number of set bits.
#[verifier::external_body]
pub(crate) fn buffer_count_set_bits(b: &BooleanBuffer) -> (r: usize)
    ensures
        r == count_true(bits_of(*b)),
{
    b.count_set_bits()
}

/// Relies on `PartialEq for BooleanBuffer`: equal lengths and equal bits.
#[verifier::external_body]
pub(crate) fn buffer_eq(a: &BooleanBuffer, b: &BooleanBuffer) -> (r: bool)
    ensures
        r == (bits_of(*a) == bits_of(*b)),
{
    a == b
}

/// Relies on `BooleanBuffer::from(Vec<bool>)`: one bit per element, in order.
#[verifier::external_body]
pub(crate) fn buffer_from_bools(v: Vec<bool>) -> (r: BooleanBuffer)
    ensures
        bits_of(r) == v@,
{
    BooleanBuffer::from(v)
}

/// Relies on `BooleanBuffer::len`: the number of bits.
#[verifier::external_body]
pub(crate) fn buffer_len(b: &BooleanBuffer) -> (r: usize)
    ensures
        r == bits_of(*b).len(),
{
    b.len()
}

/// Relies on `BooleanBuffer::value`: the bit at `i`; it panics past the end.
#[verifier::external_body]
pub(crate) fn buffer_value(b: &BooleanBuffer, i: usize) -> (r: bool)
    requires
        i < bits_of(*b).len(),
    ensures
        r == bits_of(*b)[i as int],
{
    b.value(i)
}

/// Relies on `BooleanBuffer::slice`: the `len` bits from `offset`; it panics when
/// they run past the end.
#[verifier::external_body]
pub(crate) fn buffer_slice(b: &BooleanBuffer, offset: usize, len: usize) -> (r: BooleanBuffer)
    requires
        offset + len <= bits_of(*b).len(),
    ensures
        bits_of(r) == bits_of(*b).subrange(offset as int, offset + len),
{
    b.slice(offset, len)
}

/// Relies on `Not for &BooleanBuffer`: each bit negated.
#[verifier::external_body]
pub(crate) fn buffer_not(a: &BooleanBuffer) -> (r: BooleanBuffer)
    ensures
        bits_of(r).len() == bits_of(*a).len(),
        forall|i: int| 0 <= i < bits_of(r).len() ==> #[trigger] bits_of(r)[i] == !bits_of(*a)[i],
{
    !a
}

/// Relies on `BitAnd for &BooleanBuffer`: the bitwise and; it panics on unequal
/// lengths.
#[verifier::external_body]
pub(crate) fn buffer_and(a: &BooleanBuffer, b: &BooleanBuffer) -> (r: BooleanBuffer)
    requires
        bits_of(*a).len() == bits_of(*b).len(),
    ensures
        bits_of(r).len() == bits_of(*a).len(),
        forall|i: int|
            0 <= i < bits_of(r).len() ==> #[trigger] bits_of(r)[i] == (bits_of(*a)[i]
                && bits_of(*b)[i]),
{
    a & b
}

/// Relies on `BitOr for &BooleanBuffer`: the bitwise or; it panics on unequal
/// lengths.
#[verifier::external_body]
pub(crate) fn buffer_or(a: &BooleanBuffer, b: &BooleanBuffer) -> (r: BooleanBuffer)
    requires
        bits_of(*a).len() == bits_of(*b).len(),
    ensures
        bits_of(r).len() == bits_of(*a).len(),
        forall|i: int|
            0 <= i < bits_of(r).len() ==> #[trigger] bits_of(r)[i] == (bits_of(*a)[i]
                || bits_of(*b)[i]),
{
    a | b
}

/// Relies on `BitXor for &BooleanBuffer`: the bitwise exclusive or; it panics on
/// unequal lengths.
#[verifier::external_body]
pub(crate) fn buffer_xor(a: &BooleanBuffer, b: &BooleanBuffer) -> (r: BooleanBuffer)
    requires
        bits_of(*a).len() == bits_of(*b).len(),
    ensures
        bits_of(r).len() == bits_of(*a).len(),
        forall|i: int|
            0 <= i < bits_of(r).len() ==> #[trigger] bits_of(r)[i] == (bits_of(*a)[i]
                != bits_of(*b)[i]),
{
    a ^ b
}

/// Relies on `BooleanBuffer::clone`: the copy holds the same bits.
#[verifier::external_body]
pub(crate) fn buffer_clone(a: &BooleanBuffer) -> (r: BooleanBuffer)
    ensures
        bits_of(r) == bits_of(*a),
{
    a.clone()
}

/// Relies on `NullBuffer::new`: the mask whose presence bits are the buffer's bits.
#[verifier::external_body]
pub(crate) fn nulls_new(b: BooleanBuffer) -> (r: NullBuffer)
    ensures
        mask_of(r) == bits_of(b),
{
    NullBuffer::new(b)
}

/// Relies on `NullBuffer::new_null`: `len` absent values.
#[verifier::external_body]
pub(crate) fn nulls_new_null(len: usize) -> (r: NullBuffer)
    ensures
        mask_of(r) == Seq::new(len as nat, |i: int| false),
{
    NullBuffer::new_null(len)
}

/// Relies on `NullBuffer::new_valid`: `len` present values.
#[verifier::external_body]
pub(crate) fn nulls_new_valid(len: usize) -> (r: NullBuffer)
    ensures
        mask_of(r) == Seq::new(len as nat, |i: int| true),
{
    NullBuffer::new_valid(len)
}

/// Relies on `NullBuffer::into_inner`: the buffer of presence bits.
#[verifier::external_body]
pub(crate) fn nulls_into_inner(n: NullBuffer) -> (r: BooleanBuffer)
    ensures
        bits_of(r) == mask_of(n),
{
    n.into_inner()
}

} // verus!
