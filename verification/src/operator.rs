use vstd::prelude::*;

verus! {

use vstd::arithmetic::div_mod::lemma_fundamental_div_mod;
use vstd::arithmetic::div_mod::lemma_mod_multiples_vanish;
use vstd::arithmetic::div_mod::lemma_small_mod;

/// A binary operator over `T` for which grouping does not matter.  Every
/// aggregation the trees perform goes through an implementation of this
/// trait, chosen by the caller at construction time.
pub trait AssociativeOperator<T> {
    /// The mathematical meaning of the operator.
    spec fn spec_combine(a: T, b: T) -> T;

    /// The law every implementation must establish: the result is
    /// independent of grouping.
    proof fn associativity(a: T, b: T, c: T)
        ensures
            Self::spec_combine(Self::spec_combine(a, b), c) == Self::spec_combine(
                a,
                Self::spec_combine(b, c),
            ),
    ;

    /// Combines two values.
    fn combine(&self, a: &T, b: &T) -> (r: T)
        ensures
            r == Self::spec_combine(*a, *b),
    ;
}

/// The naive left-to-right fold of the operator over a non-empty sequence:
/// `combine(...combine(combine(s[0], s[1]), s[2])..., s[n - 1])`.
pub open spec fn fold_combine<T, O: AssociativeOperator<T>>(s: Seq<T>) -> T
    decreases s.len(),
{
    if s.len() <= 1 {
        s.last()
    } else {
        O::spec_combine(fold_combine::<T, O>(s.drop_last()), s.last())
    }
}

/// Folding the concatenation of two non-empty sequences combines their folds.
pub proof fn lemma_fold_concat<T, O: AssociativeOperator<T>>(a: Seq<T>, b: Seq<T>)
    requires
        a.len() >= 1,
        b.len() >= 1,
    ensures
        fold_combine::<T, O>(a + b) == O::spec_combine(
            fold_combine::<T, O>(a),
            fold_combine::<T, O>(b),
        ),
    decreases b.len(),
{
    if b.len() == 1 {
        assert((a + b).drop_last() =~= a);
        assert((a + b).last() == b.last());
    } else {
        assert((a + b).drop_last() =~= a + b.drop_last());
        lemma_fold_concat::<T, O>(a, b.drop_last());
        O::associativity(
            fold_combine::<T, O>(a),
            fold_combine::<T, O>(b.drop_last()),
            b.last(),
        );
    }
}

/// Two's-complement reduction of an unbounded integer into `i64`, the value
/// the wrapping operations on `i64` produce.
pub open spec fn wrap_i64(x: int) -> i64 {
    if x % 0x1_0000_0000_0000_0000 > i64::MAX as int {
        (x % 0x1_0000_0000_0000_0000 - 0x1_0000_0000_0000_0000) as i64
    } else {
        (x % 0x1_0000_0000_0000_0000) as i64
    }
}

/// Adding any multiple of two to the sixty-fourth does not change the residue.
pub proof fn lemma_mod_mul_vanish(x: int, k: int)
    ensures
        (x + k * 0x1_0000_0000_0000_0000) % 0x1_0000_0000_0000_0000 == x
            % 0x1_0000_0000_0000_0000,
{
    lemma_mod_multiples_vanish(k, x, 0x1_0000_0000_0000_0000);
}

/// A value already in `i64` range wraps to itself.
pub proof fn lemma_wrap_i64_identity(x: int)
    requires
        i64::MIN <= x <= i64::MAX,
    ensures
        wrap_i64(x) == x,
{
    if x >= 0 {
        lemma_small_mod(x as nat, 0x1_0000_0000_0000_0000);
    } else {
        lemma_mod_mul_vanish(x, 1);
        lemma_small_mod((x + 0x1_0000_0000_0000_0000) as nat, 0x1_0000_0000_0000_0000);
    }
}

/// Wrapping first does not change the residue, hence not the wrapped sum.
pub proof fn lemma_wrap_i64_absorb(x: int, y: int)
    ensures
        wrap_i64(wrap_i64(x) + y) == wrap_i64(x + y),
{
    let m: int = 0x1_0000_0000_0000_0000;
    let r: int = x % m;
    lemma_fundamental_div_mod(x, m);
    let q: int = x / m;
    if r > i64::MAX as int {
        assert(wrap_i64(x) == r - m);
        assert(x + y == (wrap_i64(x) + y) + (q + 1) * m) by (nonlinear_arith)
            requires
                x == q * m + r,
                wrap_i64(x) == r - m,
        ;
        lemma_mod_mul_vanish(wrap_i64(x) + y, q + 1);
    } else {
        assert(wrap_i64(x) == r);
        assert(x + y == (wrap_i64(x) + y) + q * m) by (nonlinear_arith)
            requires
                x == q * m + r,
                wrap_i64(x) == r,
        ;
        lemma_mod_mul_vanish(wrap_i64(x) + y, q);
    }
}

/// The wrapping addition of `i64` computes exactly the two's-complement
/// reduction of the exact sum.
pub proof fn lemma_wrapping_add_is_wrap(a: i64, b: i64)
    ensures
        vstd::wrapping::i64_specs::wrapping_add(a, b) == wrap_i64(a + b),
{
    let s: int = a + b;
    if s > i64::MAX {
        lemma_mod_mul_vanish(s - 0x1_0000_0000_0000_0000, 1);
        lemma_wrap_i64_identity(s - 0x1_0000_0000_0000_0000);
    } else if s < i64::MIN {
        lemma_mod_mul_vanish(s, 1);
        lemma_wrap_i64_identity(s + 0x1_0000_0000_0000_0000);
    } else {
        lemma_wrap_i64_identity(s);
    }
}

/// The wrapping multiplication of `i64` computes exactly the
/// two's-complement reduction of the exact product.
pub proof fn lemma_wrapping_mul_is_wrap(a: i64, b: i64)
    ensures
        vstd::wrapping::i64_specs::wrapping_mul(a, b) == wrap_i64(a * b),
{
}

/// Aggregation by wrapping addition on `i64`.
pub struct SumOperator;

impl AssociativeOperator<i64> for SumOperator {
    open spec fn spec_combine(a: i64, b: i64) -> i64 {
        wrap_i64(a + b)
    }

    proof fn associativity(a: i64, b: i64, c: i64) {
        lemma_wrap_i64_absorb(a + b, c as int);
        lemma_wrap_i64_absorb(b + c, a as int);
        assert(wrap_i64(a + wrap_i64(b + c)) == wrap_i64(wrap_i64(b + c) + a));
    }

    fn combine(&self, a: &i64, b: &i64) -> (r: i64) {
        proof {
            lemma_wrapping_add_is_wrap(*a, *b);
        }
        a.wrapping_add(*b)
    }
}

/// Aggregation by minimum on `i64`.
pub struct MinOperator;

impl AssociativeOperator<i64> for MinOperator {
    open spec fn spec_combine(a: i64, b: i64) -> i64 {
        if a <= b {
            a
        } else {
            b
        }
    }

    proof fn associativity(a: i64, b: i64, c: i64) {
    }

    fn combine(&self, a: &i64, b: &i64) -> (r: i64) {
        if *a <= *b {
            *a
        } else {
            *b
        }
    }
}

/// Aggregation by maximum on `i64`.
pub struct MaxOperator;

impl AssociativeOperator<i64> for MaxOperator {
    open spec fn spec_combine(a: i64, b: i64) -> i64 {
        if a >= b {
            a
        } else {
            b
        }
    }

    proof fn associativity(a: i64, b: i64, c: i64) {
    }

    fn combine(&self, a: &i64, b: &i64) -> (r: i64) {
        if *a >= *b {
            *a
        } else {
            *b
        }
    }
}

/// Aggregation by greatest common divisor on `u64`.
pub struct GcdOperator;

impl AssociativeOperator<u64> for GcdOperator {
    open spec fn spec_combine(a: u64, b: u64) -> u64 {
        crate::math::spec_gcd(a as nat, b as nat) as u64
    }

    proof fn associativity(a: u64, b: u64, c: u64) {
        crate::math::lemma_gcd_bound(a as nat, b as nat);
        crate::math::lemma_gcd_bound(b as nat, c as nat);
        crate::math::lemma_gcd_bound(
            crate::math::spec_gcd(a as nat, b as nat),
            c as nat,
        );
        crate::math::lemma_gcd_bound(
            a as nat,
            crate::math::spec_gcd(b as nat, c as nat),
        );
        crate::math::lemma_gcd_associative(a as nat, b as nat, c as nat);
    }

    fn combine(&self, a: &u64, b: &u64) -> (r: u64) {
        proof {
            crate::math::lemma_gcd_bound(*a as nat, *b as nat);
        }
        crate::math::greatest_common_divisor(*a, *b)
    }
}

/// The wrapping-sum operator.
pub fn summation() -> SumOperator {
    SumOperator
}

/// The minimum operator.
pub fn minimum() -> MinOperator {
    MinOperator
}

/// The maximum operator.
pub fn maximum() -> MaxOperator {
    MaxOperator
}

} // verus!
