use vstd::prelude::*;

verus! {

use vstd::arithmetic::power2::pow2;
use vstd::arithmetic::power2::lemma_pow2_unfold;
use vstd::arithmetic::power2::lemma2_to64;
use vstd::arithmetic::power2::lemma2_to64_rest;
use vstd::arithmetic::div_mod::lemma_fundamental_div_mod;

/// The floor of the base-two logarithm of `value`.
///
/// The result `r` is the unique exponent with `pow2(r) <= value < pow2(r + 1)`.
pub fn integer_log2(value: u64) -> (r: u32)
    requires
        value >= 1,
    ensures
        pow2(r as nat) <= value < pow2((r + 1) as nat),
        r <= 63,
{
    let mut current: u64 = value;
    let mut exponent: u32 = 0;
    proof {
        lemma2_to64();
        lemma2_to64_rest();
    }
    while current >= 2
        invariant
            current >= 1,
            exponent <= 63,
            pow2(exponent as nat) * current <= value,
            value < pow2(exponent as nat) * (current + 1),
            pow2(64) == 0x1_0000_0000_0000_0000,
        decreases current,
    {
        proof {
            let e = exponent as nat;
            lemma_pow2_unfold(e + 1);
            assert(pow2(e + 1) * (current / 2) <= pow2(e) * current) by (nonlinear_arith)
                requires
                    pow2(e + 1) == 2 * pow2(e),
                    current >= 2,
            ;
            assert(pow2(e) * (current + 1) <= pow2(e + 1) * (current / 2 + 1)) by (nonlinear_arith)
                requires
                    pow2(e + 1) == 2 * pow2(e),
                    current >= 2,
            ;
            // The exponent stays below the width of `u64`.
            assert(pow2(e + 1) <= pow2(e) * current) by (nonlinear_arith)
                requires
                    pow2(e + 1) == 2 * pow2(e),
                    current >= 2,
                    pow2(e) >= 1,
            ;
            if e + 1 == 64 {
                assert(pow2(64) <= value);
                assert(false);
            }
        }
        current = current / 2;
        exponent = exponent + 1;
    }
    proof {
        assert(current == 1);
        lemma_pow2_unfold(exponent as nat + 1);
        assert(pow2(exponent as nat + 1) == 2 * pow2(exponent as nat));
        assert(pow2(exponent as nat) * 1 <= value);
        assert(value < pow2(exponent as nat) * 2);
    }
    exponent
}

/// The greatest common divisor, by Euclid's algorithm.
pub open spec fn spec_gcd(a: nat, b: nat) -> nat
    decreases b,
{
    if b == 0 {
        a
    } else {
        spec_gcd(b, a % b)
    }
}

/// The greatest common divisor of `a` and `b`; `spec_gcd` is its
/// mathematical definition.
pub fn greatest_common_divisor(a: u64, b: u64) -> (r: u64)
    ensures
        r == spec_gcd(a as nat, b as nat),
    decreases b,
{
    if b == 0 {
        a
    } else {
        greatest_common_divisor(b, a % b)
    }
}

/// Whether `divisor` divides `value` exactly.
pub open spec fn divides(divisor: int, value: int) -> bool {
    exists|k: int| value == #[trigger] (divisor * k)
}

/// Dividing two values in a chain divides the last.
pub proof fn lemma_divides_transitive(a: int, b: int, c: int)
    requires
        divides(a, b),
        divides(b, c),
    ensures
        divides(a, c),
{
    let k1 = choose|k: int| b == #[trigger] (a * k);
    let k2 = choose|k: int| c == #[trigger] (b * k);
    assert(c == a * (k1 * k2)) by (nonlinear_arith)
        requires
            b == a * k1,
            c == b * k2,
    ;
}

/// Two non-negative values that divide each other are equal.
pub proof fn lemma_divides_antisymmetric(a: int, b: int)
    requires
        a >= 0,
        b >= 0,
        divides(a, b),
        divides(b, a),
    ensures
        a == b,
{
    let k1 = choose|k: int| b == #[trigger] (a * k);
    let k2 = choose|k: int| a == #[trigger] (b * k);
    if a == 0 {
        assert(a == b) by (nonlinear_arith)
            requires
                a == 0,
                b == a * k1,
        ;
    } else if b == 0 {
        assert(a == b) by (nonlinear_arith)
            requires
                b == 0,
                a == b * k2,
        ;
    } else {
        assert(k1 > 0) by (nonlinear_arith)
            requires
                a > 0,
                b > 0,
                b == a * k1,
        ;
        assert(k2 > 0) by (nonlinear_arith)
            requires
                a > 0,
                b > 0,
                a == b * k2,
        ;
        assert(k1 * k2 == 1) by (nonlinear_arith)
            requires
                a > 0,
                b == a * k1,
                a == b * k2,
        ;
        assert(k1 == 1 && k2 == 1) by (nonlinear_arith)
            requires
                k1 > 0,
                k2 > 0,
                k1 * k2 == 1,
        ;
        assert(a == b) by (nonlinear_arith)
            requires
                a == b * k2,
                k2 == 1,
        ;
    }
}

/// The greatest common divisor divides both of its arguments.
pub proof fn lemma_gcd_divides(a: nat, b: nat)
    ensures
        divides(spec_gcd(a, b) as int, a as int),
        divides(spec_gcd(a, b) as int, b as int),
    decreases b,
{
    if b == 0 {
        assert(a as int == (a as int) * 1);
        assert(0int == (a as int) * 0);
    } else {
        lemma_gcd_divides(b, a % b);
        let g = spec_gcd(b, a % b) as int;
        lemma_fundamental_div_mod(a as int, b as int);
        let q = a as int / b as int;
        let k1 = choose|k: int| b as int == #[trigger] (g * k);
        let k2 = choose|k: int| (a % b) as int == #[trigger] (g * k);
        assert(a as int == g * (k1 * q + k2)) by (nonlinear_arith)
            requires
                a as int == (b as int) * q + (a % b) as int,
                b as int == g * k1,
                (a % b) as int == g * k2,
        ;
    }
}

/// Every common divisor of the arguments divides the greatest common
/// divisor: it really is the greatest.
pub proof fn lemma_divides_gcd(d: int, a: nat, b: nat)
    requires
        divides(d, a as int),
        divides(d, b as int),
    ensures
        divides(d, spec_gcd(a, b) as int),
    decreases b,
{
    if b == 0 {
    } else {
        lemma_fundamental_div_mod(a as int, b as int);
        let q = a as int / b as int;
        let k1 = choose|k: int| a as int == #[trigger] (d * k);
        let k2 = choose|k: int| b as int == #[trigger] (d * k);
        assert((a % b) as int == d * (k1 - k2 * q)) by (nonlinear_arith)
            requires
                a as int == (b as int) * q + (a % b) as int,
                a as int == d * k1,
                b as int == d * k2,
        ;
        lemma_divides_gcd(d, b, a % b);
    }
}

/// The greatest common divisor does not depend on the order of its
/// arguments.
pub proof fn lemma_gcd_commutative(a: nat, b: nat)
    ensures
        spec_gcd(a, b) == spec_gcd(b, a),
{
    lemma_gcd_divides(a, b);
    lemma_gcd_divides(b, a);
    lemma_divides_gcd(spec_gcd(a, b) as int, b, a);
    lemma_divides_gcd(spec_gcd(b, a) as int, a, b);
    lemma_divides_antisymmetric(spec_gcd(a, b) as int, spec_gcd(b, a) as int);
}

/// The greatest common divisor is associative.
pub proof fn lemma_gcd_associative(a: nat, b: nat, c: nat)
    ensures
        spec_gcd(spec_gcd(a, b), c) == spec_gcd(a, spec_gcd(b, c)),
{
    let ab = spec_gcd(a, b);
    let bc = spec_gcd(b, c);
    let left = spec_gcd(ab, c);
    let right = spec_gcd(a, bc);
    lemma_gcd_divides(a, b);
    lemma_gcd_divides(b, c);
    lemma_gcd_divides(ab, c);
    lemma_gcd_divides(a, bc);
    lemma_divides_transitive(left as int, ab as int, a as int);
    lemma_divides_transitive(left as int, ab as int, b as int);
    lemma_divides_gcd(left as int, b, c);
    lemma_divides_gcd(left as int, a, bc);
    lemma_divides_transitive(right as int, bc as int, b as int);
    lemma_divides_transitive(right as int, bc as int, c as int);
    lemma_divides_gcd(right as int, a, b);
    lemma_divides_gcd(right as int, ab, c);
    lemma_divides_antisymmetric(left as int, right as int);
}

/// The greatest common divisor never exceeds a positive second argument.
pub proof fn lemma_gcd_bound(a: nat, b: nat)
    ensures
        b > 0 ==> spec_gcd(a, b) <= b,
        b == 0 ==> spec_gcd(a, b) == a,
    decreases b,
{
    if b > 0 {
        lemma_gcd_bound(b, a % b);
        if a % b == 0 {
        } else {
            assert((a % b) < b);
        }
    }
}

} // verus!
