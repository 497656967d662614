//! Row selection by a predicate in disjunctive normal form.
use crate::bool_array::{BoolArray, Operator};
use crate::validity::{Mask, Validity};
use vstd::prelude::*;

verus! {

/// `value op literal`, where `value` is the row's value.
#[derive(Clone, Copy, Debug, PartialEq, Eq, Structural)]
pub struct Predicate {
    pub op: Operator,
    pub literal: i64,
}

/// Predicates that must all hold.
#[derive(Debug)]
pub struct Conjunction {
    pub predicates: Vec<Predicate>,
}

/// Conjunctions of which one must hold.
#[derive(Debug)]
pub struct Disjunction {
    pub conjunctions: Vec<Conjunction>,
}

/// `x op y` on integers.
pub open spec fn compare_ints(op: Operator, x: i64, y: i64) -> bool {
    match op {
        Operator::EqualTo => x == y,
        Operator::NotEqualTo => x != y,
        Operator::GreaterThan => x > y,
        Operator::GreaterThanOrEqualTo => x >= y,
        Operator::LessThan => x < y,
        Operator::LessThanOrEqualTo => x <= y,
    }
}

/// Every predicate holds of `x`.
pub open spec fn conjunction_holds(c: Seq<Predicate>, x: i64) -> bool {
    forall|k: int| 0 <= k < c.len() ==> compare_ints(#[trigger] c[k].op, x, c[k].literal)
}

/// Some conjunction holds of `x`.
pub open spec fn disjunction_holds(d: Seq<Conjunction>, x: i64) -> bool {
    exists|k: int| 0 <= k < d.len() && conjunction_holds(#[trigger] d[k].predicates@, x)
}

fn compare_value(op: Operator, x: i64, y: i64) -> (r: bool)
    ensures
        r == compare_ints(op, x, y),
{
    match op {
        Operator::EqualTo => x == y,
        Operator::NotEqualTo => x != y,
        Operator::GreaterThan => x > y,
        Operator::GreaterThanOrEqualTo => x >= y,
        Operator::LessThan => x < y,
        Operator::LessThanOrEqualTo => x <= y,
    }
}

/// Whether all the predicates hold of `x`.
fn conjunction_matches(c: &Conjunction, x: i64) -> (r: bool)
    ensures
        r == conjunction_holds(c.predicates@, x),
{
    let mut k: usize = 0;
    while k < c.predicates.len()
        invariant
            k <= c.predicates@.len(),
            forall|j: int| 0 <= j < k ==> compare_ints(#[trigger] c.predicates@[j].op, x, c.predicates@[j].literal),
        decreases c.predicates@.len() - k,
    {
        let p = c.predicates[k];
        if !compare_value(p.op, x, p.literal) {
            assert(!compare_ints(c.predicates@[k as int].op, x, c.predicates@[k as int].literal));
            return false;
        }
        k = k + 1;
    }
    true
}

/// Whether some conjunction holds of `x`; the first that holds decides.
fn disjunction_matches(d: &Disjunction, x: i64) -> (r: bool)
    ensures
        r == disjunction_holds(d.conjunctions@, x),
{
    let mut k: usize = 0;
    while k < d.conjunctions.len()
        invariant
            k <= d.conjunctions@.len(),
            forall|j: int| 0 <= j < k ==> !conjunction_holds(#[trigger] d.conjunctions@[j].predicates@, x),
        decreases d.conjunctions@.len() - k,
    {
        if conjunction_matches(&d.conjunctions[k], x) {
            assert(conjunction_holds(d.conjunctions@[k as int].predicates@, x));
            return true;
        }
        k = k + 1;
    }
    false
}

/// Marks the rows that are present and satisfy `predicate`.
pub fn filter_indices(values: &[i64], validity: &Validity, predicate: &Disjunction) -> (r: BoolArray)
    requires
        validity.wf_for(values@.len()),
    ensures
        r.wf(),
        r.validity@ == Mask::NonNullable,
        r.values().len() == values@.len(),
        forall|i: int|
            0 <= i < values@.len() ==> #[trigger] r.values()[i] == (validity.valid_at(i)
                && disjunction_holds(predicate.conjunctions@, values@[i])),
{
    let mut bits: Vec<bool> = Vec::new();
    let mut i: usize = 0;
    while i < values.len()
        invariant
            validity.wf_for(values@.len()),
            i <= values@.len(),
            bits@.len() == i,
            forall|j: int|
                0 <= j < i ==> #[trigger] bits@[j] == (validity.valid_at(j) && disjunction_holds(
                    predicate.conjunctions@,
                    values@[j],
                )),
        decreases values@.len() - i,
    {
        let selected = validity.is_valid(i) && disjunction_matches(predicate, values[i]);
        bits.push(selected);
        i = i + 1;
    }
    BoolArray::from_vec(bits, Validity::NonNullable)
}

} // verus!
