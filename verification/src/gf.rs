//! The prime field as residues modulo 2^255 - 19.

use crate::certificate;
use crate::primes;
use crate::radix;
use vstd::arithmetic::div_mod::*;
use vstd::arithmetic::mul::*;
use vstd::arithmetic::power::*;
use vstd::prelude::*;

verus! {

/// Sum in the field.
pub open spec fn plus(a: int, b: int) -> int {
    (a + b) % radix::prime()
}

/// Difference in the field.
pub open spec fn minus(a: int, b: int) -> int {
    (a - b) % radix::prime()
}

/// Product in the field.
pub open spec fn times(a: int, b: int) -> int {
    (a * b) % radix::prime()
}

/// Inverse in the field, 0 for 0: the power `p - 2`.
pub open spec fn inverse(a: int) -> int {
    pow(a, (radix::prime() - 2) as nat) % radix::prime()
}

/// `a` is 0 in the field.
pub open spec fn zero(a: int) -> bool {
    a % radix::prime() == 0
}

/// `a` and `b` are the same field element.
pub open spec fn same(a: int, b: int) -> bool {
    a % radix::prime() == b % radix::prime()
}

pub proof fn lemma_reduced(a: int)
    ensures
        0 <= a % radix::prime() < radix::prime(),
        same(a % radix::prime(), a),
        0 <= a < radix::prime() ==> a % radix::prime() == a,
{
    lemma_mod_bound(a, radix::prime());
    lemma_mod_twice(a, radix::prime());
    if 0 <= a < radix::prime() {
        lemma_small_mod(a as nat, radix::prime() as nat);
    }
}

/// Operands may be replaced by equal ones.
pub proof fn lemma_same_ops(a: int, b: int, c: int, d: int)
    requires
        same(a, b),
        same(c, d),
    ensures
        same(a + c, b + d),
        same(a - c, b - d),
        same(a * c, b * d),
{
    lemma_add_mod_noop(a, c, radix::prime());
    lemma_add_mod_noop(b, d, radix::prime());
    lemma_sub_mod_noop(a, c, radix::prime());
    lemma_sub_mod_noop(b, d, radix::prime());
    primes::lemma_congruent_mul(a, b, c, d, radix::prime());
}

/// The field operations are the integer ones, up to reduction.
pub proof fn lemma_ops(a: int, b: int)
    ensures
        same(plus(a, b), a + b),
        same(minus(a, b), a - b),
        same(times(a, b), a * b),
{
    lemma_reduced(a + b);
    lemma_reduced(a - b);
    lemma_reduced(a * b);
}

/// A multiple of something that is 0 is 0.
pub proof fn lemma_zero_mul(a: int, b: int)
    requires
        zero(a),
    ensures
        zero(a * b),
        zero(b * a),
{
    lemma_reduced(0);
    lemma_same_ops(a, 0, b, b);
    lemma_mul_basics(b);
    lemma_mul_is_commutative(a, b);
}

/// Sums of zeros are 0.
pub proof fn lemma_zero_add(a: int, b: int)
    requires
        zero(a),
        zero(b),
    ensures
        zero(a + b),
        zero(a - b),
{
    lemma_reduced(0);
    lemma_same_ops(a, 0, b, 0);
}

/// Negation keeps zeros and equality.
pub proof fn lemma_negate(a: int, b: int)
    ensures
        zero(-a) <==> zero(a),
        same(a, b) <==> same(-a, -b),
{
    lemma_reduced(0);
    lemma_same_diff(0, a);
    lemma_same_diff(a, 0);
    lemma_same_diff(a, b);
    lemma_same_diff(-b, -a);
}

/// Elements are equal when their difference is 0.
pub proof fn lemma_same_diff(a: int, b: int)
    ensures
        same(a, b) <==> zero(a - b),
{
    lemma_mod_equivalence(a, b, radix::prime());
}

/// No zero divisors.
pub proof fn lemma_no_zero_divisors(a: int, b: int)
    requires
        !zero(a),
        !zero(b),
    ensures
        !zero(a * b),
{
    certificate::lemma_p_prime();
    if zero(a * b) {
        primes::lemma_euclid(a, b, radix::prime());
    }
}

/// A nonzero factor cancels.
pub proof fn lemma_cancel(a: int, b: int, c: int)
    requires
        !zero(a),
        same(a * b, a * c),
    ensures
        same(b, c),
{
    certificate::lemma_p_prime();
    primes::lemma_cancel(a, b, c, radix::prime());
}

/// The inverse of a nonzero element.
pub proof fn lemma_inverse(a: int)
    ensures
        0 <= inverse(a) < radix::prime(),
        !zero(a) ==> times(a, inverse(a)) == 1,
        !zero(a) ==> same(a * inverse(a), 1),
        !zero(a) ==> !zero(inverse(a)),
        zero(a) ==> inverse(a) == 0,
{
    let p = radix::prime();
    let e = (p - 2) as nat;
    lemma_reduced(pow(a, e));
    lemma_reduced(1);
    lemma_pow_adds(a, 1, e);
    lemma_pow1(a);
    assert(1 + e == (p - 1) as nat);
    lemma_ops(a, inverse(a));
    lemma_same_ops(a, a, inverse(a), pow(a, e));
    if !zero(a) {
        certificate::lemma_p_prime();
        primes::lemma_fermat(a, p);
        if zero(inverse(a)) {
            lemma_zero_mul(inverse(a), a);
        }
    } else {
        assert(pow(a, e) == a * pow(a, (e - 1) as nat)) by {
            reveal(pow);
        }
        lemma_zero_mul(a, pow(a, (e - 1) as nat));
    }
}

/// Equal elements have equal inverses.
pub proof fn lemma_inverse_same(a: int, b: int)
    requires
        same(a, b),
    ensures
        inverse(a) == inverse(b),
{
    let e = (radix::prime() - 2) as nat;
    lemma_pow_mod_noop(a, e, radix::prime());
    lemma_pow_mod_noop(b, e, radix::prime());
}

/// Quotient in the field, 0 where the denominator is 0.
pub open spec fn over(num: int, den: int) -> int {
    times(num, inverse(den))
}

/// A quotient times its denominator is the numerator.
pub proof fn lemma_over(num: int, den: int)
    ensures
        0 <= over(num, den) < radix::prime(),
        !zero(den) ==> same(over(num, den) * den, num),
        zero(den) ==> over(num, den) == 0,
{
    let v = inverse(den);
    lemma_reduced(num * v);
    lemma_inverse(den);
    if !zero(den) {
        lemma_ops(num, v);
        lemma_same_ops(over(num, den), num * v, den, den);
        lemma_same_ops(num, num, den * v, 1);
        assert((num * v) * den == num * (den * v)) by {
            lemma_mul_is_associative(num, v, den);
            lemma_mul_is_commutative(v, den);
        }
        lemma_mul_basics(num);
    } else {
        lemma_mul_basics(num);
        lemma_reduced(0);
    }
}

/// What gives the numerator when multiplied by the denominator is the quotient.
pub proof fn lemma_over_unique(num: int, den: int, x: int)
    requires
        !zero(den),
        same(x * den, num),
    ensures
        x % radix::prime() == over(num, den),
        same(x, over(num, den)),
{
    lemma_over(num, den);
    lemma_mul_is_commutative(den, x);
    lemma_mul_is_commutative(den, over(num, den));
    lemma_cancel(den, x, over(num, den));
    lemma_reduced(over(num, den));
}

/// Equal numerators and denominators have equal quotients.
pub proof fn lemma_over_same(a: int, b: int, c: int, e: int)
    requires
        same(a, c),
        same(b, e),
    ensures
        over(a, b) == over(c, e),
{
    lemma_inverse_same(b, e);
    lemma_same_ops(a, c, inverse(b), inverse(b));
}

/// A common factor cancels in a quotient.
pub proof fn lemma_over_scale(num: int, den: int, k: int)
    requires
        !zero(den),
        !zero(k),
    ensures
        over(num * k, den * k) == over(num, den),
{
    lemma_no_zero_divisors(den, k);
    lemma_over(num, den);
    let x = over(num, den);
    lemma_same_ops(x * den, num, k, k);
    lemma_mul_is_associative(x, den, k);
    lemma_over_unique(num * k, den * k, x);
    lemma_reduced(x);
}

} // verus!
