//! Timestamps held as three integer columns: days, seconds and sub-seconds.
use crate::compute::{slice, take};
use crate::dtype::{same_dtype, DType};
use crate::error::VortexError;
use vstd::prelude::*;

verus! {

/// A timestamp array split into days, seconds within the day, and the fraction
/// of the second; the three columns have one entry per timestamp.
#[derive(Debug)]
pub struct DateTimePartsArray {
    dtype: DType,
    days: Vec<i64>,
    seconds: Vec<i64>,
    subsecond: Vec<i64>,
}

impl DateTimePartsArray {
    pub closed spec fn days_spec(&self) -> Seq<i64> {
        self.days@
    }

    pub closed spec fn seconds_spec(&self) -> Seq<i64> {
        self.seconds@
    }

    pub closed spec fn subsecond_spec(&self) -> Seq<i64> {
        self.subsecond@
    }

    pub closed spec fn dtype_spec(&self) -> DType {
        self.dtype
    }

    /// Columns of different lengths are refused.
    pub fn try_new(dtype: DType, days: Vec<i64>, seconds: Vec<i64>, subsecond: Vec<i64>) -> (r: Result<
        DateTimePartsArray,
        VortexError,
    >)
        ensures
            (days@.len() == seconds@.len() && days@.len() == subsecond@.len()) <==> r is Ok,
            r is Ok ==> r->Ok_0.days_spec() == days@ && r->Ok_0.seconds_spec() == seconds@
                && r->Ok_0.subsecond_spec() == subsecond@ && r->Ok_0.dtype_spec() == dtype,
            r is Err ==> r->Err_0 is InvalidEncoding,
    {
        if days.len() != seconds.len() || days.len() != subsecond.len() {
            return Err(VortexError::InvalidEncoding("date-time parts differ in length".to_owned()));
        }
        Ok(DateTimePartsArray { dtype, days, seconds, subsecond })
    }

    pub fn days(&self) -> (r: &Vec<i64>)
        ensures
            r@ == self.days_spec(),
    {
        &self.days
    }

    pub fn seconds(&self) -> (r: &Vec<i64>)
        ensures
            r@ == self.seconds_spec(),
    {
        &self.seconds
    }

    pub fn subsecond(&self) -> (r: &Vec<i64>)
        ensures
            r@ == self.subsecond_spec(),
    {
        &self.subsecond
    }

    pub fn dtype(&self) -> (r: &DType)
        ensures
            *r == self.dtype_spec(),
    {
        &self.dtype
    }

    /// The timestamps at `indices`, taken column by column; an index past the end
    /// is refused.
    pub fn take(&self, indices: &[u64]) -> (r: Result<DateTimePartsArray, VortexError>)
        requires
            self.days_spec().len() == self.seconds_spec().len(),
            self.days_spec().len() == self.subsecond_spec().len(),
        ensures
            (forall|j: int| 0 <= j < indices@.len() ==> #[trigger] indices@[j] < self.days_spec().len())
                <==> r is Ok,
            r is Ok ==> {
                &&& same_dtype(self.dtype_spec(), r->Ok_0.dtype_spec())
                &&& r->Ok_0.days_spec() == Seq::new(indices@.len(), |j: int| self.days_spec()[indices@[j] as int])
                &&& r->Ok_0.seconds_spec() == Seq::new(indices@.len(), |j: int| self.seconds_spec()[indices@[j] as int])
                &&& r->Ok_0.subsecond_spec() == Seq::new(indices@.len(), |j: int| self.subsecond_spec()[indices@[j] as int])
            },
            r is Err ==> r->Err_0 is OutOfBounds,
    {
        let days = match take(self.days.as_slice(), indices) {
            Ok(v) => v,
            Err(e) => return Err(e),
        };
        let seconds = match take(self.seconds.as_slice(), indices) {
            Ok(v) => v,
            Err(e) => return Err(e),
        };
        let subsecond = match take(self.subsecond.as_slice(), indices) {
            Ok(v) => v,
            Err(e) => return Err(e),
        };
        DateTimePartsArray::try_new(self.dtype.clone(), days, seconds, subsecond)
    }

    /// The timestamps `start..stop`, sliced column by column; bounds outside the
    /// array are refused.
    pub fn slice(&self, start: usize, stop: usize) -> (r: Result<DateTimePartsArray, VortexError>)
        requires
            self.days_spec().len() == self.seconds_spec().len(),
            self.days_spec().len() == self.subsecond_spec().len(),
        ensures
            start <= stop <= self.days_spec().len() <==> r is Ok,
            r is Ok ==> {
                &&& same_dtype(self.dtype_spec(), r->Ok_0.dtype_spec())
                &&& r->Ok_0.days_spec() == self.days_spec().subrange(start as int, stop as int)
                &&& r->Ok_0.seconds_spec() == self.seconds_spec().subrange(start as int, stop as int)
                &&& r->Ok_0.subsecond_spec() == self.subsecond_spec().subrange(start as int, stop as int)
            },
            r is Err ==> r->Err_0 is OutOfBounds,
    {
        let days = match slice(self.days.as_slice(), start, stop) {
            Ok(v) => v,
            Err(e) => return Err(e),
        };
        let seconds = match slice(self.seconds.as_slice(), start, stop) {
            Ok(v) => v,
            Err(e) => return Err(e),
        };
        let subsecond = match slice(self.subsecond.as_slice(), start, stop) {
            Ok(v) => v,
            Err(e) => return Err(e),
        };
        DateTimePartsArray::try_new(self.dtype.clone(), days, seconds, subsecond)
    }
}

} // verus!
