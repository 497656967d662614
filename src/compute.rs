//! Compute kernels on plain vectors of integers: search, take, subtraction.
use crate::error::VortexError;
use crate::validity::{Mask, Validity};
use vstd::prelude::*;

verus! {

/// Which end of a run of equal values a search returns.
#[derive(Clone, Copy, Debug, PartialEq, Eq, Structural)]
pub enum SearchSortedSide {
    /// The first position whose value is not less than the probe.
    Left,
    /// The first position whose value is greater than the probe.
    Right,
}

/// Ascending, equal neighbours allowed.
pub open spec fn sorted(s: Seq<u64>) -> bool {
    forall|i: int, j: int| 0 <= i <= j < s.len() ==> #[trigger] s[i] <= #[trigger] s[j]
}

/// Strictly ascending: no value repeats.
pub open spec fn strict_sorted(s: Seq<u64>) -> bool {
    forall|i: int, j: int| 0 <= i < j < s.len() ==> #[trigger] s[i] < #[trigger] s[j]
}

/// Whether `v` goes before position `i` when searching on `side`.
pub open spec fn goes_after(side: SearchSortedSide, x: u64, v: u64) -> bool {
    match side {
        SearchSortedSide::Left => x < v,
        SearchSortedSide::Right => x <= v,
    }
}

/// The insertion point of `value` in the ascending `values`: on the left of a
/// run of equal values, or on its right.
pub fn search_sorted(values: &[u64], value: u64, side: SearchSortedSide) -> (r: usize)
    requires
        sorted(values@),
    ensures
        r <= values@.len(),
        forall|i: int| 0 <= i < r ==> goes_after(side, #[trigger] values@[i], value),
        forall|i: int| r <= i < values@.len() ==> !goes_after(side, #[trigger] values@[i], value),
{
    let mut lo: usize = 0;
    let mut hi: usize = values.len();
    while lo < hi
        invariant
            sorted(values@),
            lo <= hi <= values@.len(),
            forall|i: int| 0 <= i < lo ==> goes_after(side, #[trigger] values@[i], value),
            forall|i: int| hi <= i < values@.len() ==> !goes_after(side, #[trigger] values@[i], value),
        decreases hi - lo,
    {
        let mid = lo + (hi - lo) / 2;
        let x = values[mid];
        let after = match side {
            SearchSortedSide::Left => x < value,
            SearchSortedSide::Right => x <= value,
        };
        if after {
            assert forall|i: int| 0 <= i <= mid implies goes_after(side, #[trigger] values@[i], value) by {
                assert(values@[i] <= values@[mid as int]);
            }
            lo = mid + 1;
        } else {
            assert forall|i: int| mid <= i < values@.len() implies !goes_after(side, #[trigger] values@[i], value) by {
                assert(values@[mid as int] <= values@[i]);
            }
            hi = mid;
        }
    }
    lo
}

/// Whether the values are strictly ascending.
pub fn is_strict_sorted(values: &[u64]) -> (r: bool)
    ensures
        r == strict_sorted(values@),
{
    let n = values.len();
    if n == 0 {
        return true;
    }
    let mut i: usize = 1;
    while i < n
        invariant
            n == values@.len(),
            1 <= i <= n,
            strict_sorted(values@.subrange(0, i as int)),
        decreases n - i,
    {
        if values[i - 1] >= values[i] {
            assert(!strict_sorted(values@) ) by {
                assert(values@[i - 1] >= values@[i as int]);
            }
            return false;
        }
        proof {
            let s = values@.subrange(0, i + 1);
            assert forall|a: int, b: int| 0 <= a < b < s.len() implies #[trigger] s[a] < #[trigger] s[b] by {
                if b < i {
                    assert(values@.subrange(0, i as int)[a] < values@.subrange(0, i as int)[b]);
                } else if a < i - 1 {
                    assert(values@.subrange(0, i as int)[a] < values@.subrange(0, i as int)[i - 1]);
                }
            }
        }
        i = i + 1;
    }
    assert(values@.subrange(0, n as int) =~= values@);
    true
}

/// Each value less `s`; a value below `s` is refused, as its difference would
/// not fit.
pub fn subtract_scalar(values: &[u64], s: u64) -> (r: Result<Vec<u64>, VortexError>)
    ensures
        (forall|i: int| 0 <= i < values@.len() ==> #[trigger] values@[i] >= s) <==> r is Ok,
        r is Ok ==> r->Ok_0@ == values@.map_values(|v: u64| (v - s) as u64),
        r is Err ==> r->Err_0 is ArithmeticOverflow,
{
    let mut out: Vec<u64> = Vec::new();
    let mut i: usize = 0;
    while i < values.len()
        invariant
            i <= values@.len(),
            forall|j: int| 0 <= j < i ==> #[trigger] values@[j] >= s,
            out@ == values@.subrange(0, i as int).map_values(|v: u64| (v - s) as u64),
        decreases values@.len() - i,
    {
        let v = values[i];
        if v < s {
            return Err(VortexError::ArithmeticOverflow);
        }
        out.push(v - s);
        proof {
            assert(values@.subrange(0, i + 1) =~= values@.subrange(0, i as int).push(v));
            assert(out@ =~= values@.subrange(0, i + 1).map_values(|v: u64| (v - s) as u64));
        }
        i = i + 1;
    }
    assert(values@.subrange(0, i as int) =~= values@);
    Ok(out)
}

/// The values at `indices`, in that order.
pub fn take_primitive<T: Copy>(array: &[T], indices: &[u64]) -> (r: Vec<T>)
    requires
        forall|j: int| 0 <= j < indices@.len() ==> #[trigger] indices@[j] < array@.len(),
    ensures
        r@ == Seq::new(indices@.len(), |j: int| array@[indices@[j] as int]),
{
    let mut out: Vec<T> = Vec::new();
    let mut j: usize = 0;
    while j < indices.len()
        invariant
            j <= indices@.len(),
            forall|j: int| 0 <= j < indices@.len() ==> #[trigger] indices@[j] < array@.len(),
            out@ == Seq::new(j as nat, |k: int| array@[indices@[k] as int]),
        decreases indices@.len() - j,
    {
        let idx = indices[j];
        assert(idx < array@.len());
        out.push(array[idx as usize]);
        j = j + 1;
        assert(out@ =~= Seq::new(j as nat, |k: int| array@[indices@[k] as int]));
    }
    out
}

/// `e` names the first index that is not below `n`, and `n`.
pub open spec fn out_of_range_error(indices: Seq<u64>, n: nat, e: VortexError) -> bool {
    exists|j: int|
        0 <= j < indices.len() && #[trigger] indices[j] >= n && (forall|k: int|
            0 <= k < j ==> #[trigger] indices[k] < n) && e == VortexError::OutOfBounds(
            indices[j] as usize,
            n as usize,
        )
}

/// Checks that every index is below `n`; the first that is not is refused.
pub fn check_indices(indices: &[u64], n: usize) -> (r: Result<(), VortexError>)
    ensures
        (forall|j: int| 0 <= j < indices@.len() ==> #[trigger] indices@[j] < n) <==> r is Ok,
        r is Err ==> out_of_range_error(indices@, n as nat, r->Err_0),
{
    let mut j: usize = 0;
    while j < indices.len()
        invariant
            j <= indices@.len(),
            forall|k: int| 0 <= k < j ==> #[trigger] indices@[k] < n,
        decreases indices@.len() - j,
    {
        if indices[j] >= n as u64 {
            assert(indices@[j as int] >= n);
            return Err(VortexError::OutOfBounds(indices[j] as usize, n));
        }
        j = j + 1;
    }
    Ok(())
}

/// The values at `indices`, in that order; an index past the end is refused.
pub fn take<T: Copy>(array: &[T], indices: &[u64]) -> (r: Result<Vec<T>, VortexError>)
    ensures
        (forall|j: int| 0 <= j < indices@.len() ==> #[trigger] indices@[j] < array@.len()) <==> r is Ok,
        r is Ok ==> r->Ok_0@ == Seq::new(indices@.len(), |j: int| array@[indices@[j] as int]),
        r is Err ==> out_of_range_error(indices@, array@.len(), r->Err_0),
{
    match check_indices(indices, array.len()) {
        Ok(()) => Ok(take_primitive(array, indices)),
        Err(e) => Err(e),
    }
}

/// The values at `indices` with their validity: entry `j` of the result, and
/// whether it is present, come from position `indices[j]`; an index past the end
/// is refused.
pub fn take_with_validity<T: Copy>(values: &[T], validity: &Validity, indices: &[u64]) -> (r: Result<
    (Vec<T>, Validity),
    VortexError,
>)
    requires
        validity.wf_for(values@.len()),
    ensures
        (forall|j: int| 0 <= j < indices@.len() ==> #[trigger] indices@[j] < values@.len()) <==> r is Ok,
        r is Err ==> out_of_range_error(indices@, values@.len(), r->Err_0),
        r is Ok ==> {
            let taken = r->Ok_0.0;
            let mask = r->Ok_0.1;
            &&& taken@ == Seq::new(indices@.len(), |j: int| values@[indices@[j] as int])
            &&& mask.wf_for(indices@.len())
            &&& mask.expand(indices@.len()) == Seq::new(
                indices@.len(),
                |j: int| validity.valid_at(indices@[j] as int),
            )
            &&& match validity@ {
                Mask::Bits(b) => mask@ == Mask::Bits(
                    Seq::new(indices@.len(), |j: int| b[indices@[j] as int]),
                ),
                other => mask@ == other,
            }
        },
{
    if let Err(e) = check_indices(indices, values.len()) {
        return Err(e);
    }
    let taken = take_primitive(values, indices);
    let mask = match validity.take(indices) {
        Ok(m) => m,
        Err(e) => return Err(e),
    };
    assert(mask.expand(indices@.len()) =~= Seq::new(
        indices@.len(),
        |j: int| validity.valid_at(indices@[j] as int),
    ));
    Ok((taken, mask))
}

/// The values `start..stop`; bounds outside the slice are refused.
pub fn slice<T: Copy>(array: &[T], start: usize, stop: usize) -> (r: Result<Vec<T>, VortexError>)
    ensures
        start <= stop <= array@.len() <==> r is Ok,
        r is Ok ==> r->Ok_0@ == array@.subrange(start as int, stop as int),
        r is Err ==> r->Err_0 is OutOfBounds,
{
    if start > stop || stop > array.len() {
        return Err(VortexError::OutOfBounds(stop, array.len()));
    }
    let mut out: Vec<T> = Vec::new();
    let mut i: usize = start;
    while i < stop
        invariant
            start <= i <= stop <= array@.len(),
            out@ == array@.subrange(start as int, i as int),
        decreases stop - i,
    {
        out.push(array[i]);
        i = i + 1;
        assert(out@ =~= array@.subrange(start as int, i as int));
    }
    Ok(out)
}

} // verus!
