//! The delta machinery of the lazy segment tree: a value cell that can
//! carry a pending delta, and the sifter that folds deltas into aggregates.
use vstd::prelude::*;

use crate::operator::AssociativeOperator;
use crate::operator::MinOperator;
use crate::operator::SumOperator;
use crate::operator::fold_combine;
use crate::operator::wrap_i64;
use crate::operator::lemma_wrap_i64_absorb;
use crate::operator::lemma_wrapping_add_is_wrap;
use crate::operator::lemma_wrapping_mul_is_wrap;

verus! {

use vstd::arithmetic::mul::lemma_mul_is_distributive_add;

/// A node's payload in the lazy tree: the aggregate of the node's covered
/// range, and an optional pending delta.  A pending delta has already been
/// folded into this node's own aggregate, but not yet into its children's.
#[derive(Clone, Copy)]
pub struct DeltaWrapper<T, D> {
    pub object: T,
    pub delta: Option<D>,
}

impl<T, D> DeltaWrapper<T, D> {
    /// Wraps a value with no pending delta.
    pub fn new(object: T) -> (r: DeltaWrapper<T, D>)
        ensures
            r.object == object,
            r.delta is None,
    {
        DeltaWrapper { object, delta: None }
    }
}

/// Produces an updated aggregate from a node's current aggregate, a pending
/// delta, and the length of the node's covered range.
///
/// `leaf_apply` is the element-level meaning of a delta; the two laws tie
/// aggregate-level sifting to it, so that a range update means applying
/// `leaf_apply` to every element the range covers.
pub trait DeltaSifter<T, D, O: AssociativeOperator<T>> {
    /// The mathematical meaning of sifting: the aggregate of `length`
    /// elements after the delta is applied to each of them.
    spec fn spec_sift(value: T, delta: D, length: int) -> T;

    /// What the delta does to one element.
    spec fn leaf_apply(value: T, delta: D) -> T;

    /// On a single element, sifting is exactly the element-level change.
    proof fn leaf_law(value: T, delta: D)
        ensures
            Self::spec_sift(value, delta, 1) == Self::leaf_apply(value, delta),
    ;

    /// Sifting distributes over the combination of two adjacent ranges.
    proof fn split_law(a: T, b: T, delta: D, length_a: int, length_b: int)
        requires
            length_a >= 1,
            length_b >= 1,
        ensures
            Self::spec_sift(O::spec_combine(a, b), delta, length_a + length_b) == O::spec_combine(
                Self::spec_sift(a, delta, length_a),
                Self::spec_sift(b, delta, length_b),
            ),
    ;

    /// Applies `delta` to the aggregate `value` of a range of `length`
    /// elements.  The trees only cover ranges of at most a quarter of the
    /// address space, which keeps the length arithmetic exact.
    fn sift(&self, value: &T, delta: &D, length: usize) -> (r: T)
        requires
            1 <= length,
            length <= usize::MAX / 4,
        ensures
            r == Self::spec_sift(*value, *delta, length as int),
    ;
}

/// Every element of a sequence, after the delta.
pub open spec fn map_delta<T, D, O: AssociativeOperator<T>, S: DeltaSifter<T, D, O>>(
    s: Seq<T>,
    delta: D,
) -> Seq<T> {
    s.map_values(|value: T| S::leaf_apply(value, delta))
}

/// The sifter's two laws extend to ranges of any length: sifting a fold is
/// folding the element-wise application.
pub proof fn lemma_sift_fold<T, D, O: AssociativeOperator<T>, S: DeltaSifter<T, D, O>>(
    s: Seq<T>,
    delta: D,
)
    requires
        s.len() >= 1,
    ensures
        S::spec_sift(fold_combine::<T, O>(s), delta, s.len() as int) == fold_combine::<T, O>(
            map_delta::<T, D, O, S>(s, delta),
        ),
    decreases s.len(),
{
    let mapped = map_delta::<T, D, O, S>(s, delta);
    if s.len() == 1 {
        S::leaf_law(s.last(), delta);
        assert(mapped.last() == S::leaf_apply(s.last(), delta));
    } else {
        let a = s.drop_last();
        lemma_sift_fold::<T, D, O, S>(a, delta);
        S::leaf_law(s.last(), delta);
        S::split_law(fold_combine::<T, O>(a), s.last(), delta, a.len() as int, 1);
        assert(mapped.drop_last() =~= map_delta::<T, D, O, S>(a, delta));
        assert(mapped.last() == S::leaf_apply(s.last(), delta));
    }
}

/// Range-add deltas for the wrapping-sum operator: a delta adds itself to
/// every element, so it adds `delta * length` to a range's sum.
pub struct AdditiveSifter;

impl DeltaSifter<i64, i64, SumOperator> for AdditiveSifter {
    open spec fn spec_sift(value: i64, delta: i64, length: int) -> i64 {
        wrap_i64(value + delta * length)
    }

    open spec fn leaf_apply(value: i64, delta: i64) -> i64 {
        wrap_i64(value + delta)
    }

    proof fn leaf_law(value: i64, delta: i64) {
    }

    proof fn split_law(a: i64, b: i64, delta: i64, length_a: int, length_b: int) {
        lemma_mul_is_distributive_add(delta as int, length_a, length_b);
        lemma_wrap_i64_absorb(a + b, delta * (length_a + length_b));
        lemma_wrap_i64_absorb(a + delta * length_a, wrap_i64(b + delta * length_b) as int);
        lemma_wrap_i64_absorb(b + delta * length_b, a + delta * length_a);
    }

    fn sift(&self, value: &i64, delta: &i64, length: usize) -> (r: i64) {
        proof {
            lemma_wrapping_mul_is_wrap(*delta, length as i64);
            lemma_wrapping_add_is_wrap(*value, delta.wrapping_mul(length as i64));
            lemma_wrap_i64_absorb(*delta * (length as i64), *value as int);
        }
        value.wrapping_add(delta.wrapping_mul(length as i64))
    }
}

/// Last-write-wins deltas for the minimum operator: a delta replaces every
/// element of the range, so it replaces the range's minimum as well.
pub struct OverwritingSifter;

impl DeltaSifter<i64, i64, MinOperator> for OverwritingSifter {
    open spec fn spec_sift(value: i64, delta: i64, length: int) -> i64 {
        delta
    }

    open spec fn leaf_apply(value: i64, delta: i64) -> i64 {
        delta
    }

    proof fn leaf_law(value: i64, delta: i64) {
    }

    proof fn split_law(a: i64, b: i64, delta: i64, length_a: int, length_b: int) {
    }

    fn sift(&self, value: &i64, delta: &i64, length: usize) -> (r: i64) {
        *delta
    }
}

} // verus!
