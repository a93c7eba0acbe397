//! Expansions of small products of integers.

use vstd::arithmetic::mul::*;
use vstd::prelude::*;

verus! {

/// Products of two-term sums.
pub proof fn lemma_expand(a: int, b: int, c: int, d: int)
    ensures
        (a + b) * (c + d) == a * c + a * d + b * c + b * d,
        (a + b) * (c - d) == a * c - a * d + b * c - b * d,
        (a - b) * (c + d) == a * c + a * d - b * c - b * d,
        (a - b) * (c - d) == a * c - a * d - b * c + b * d,
{
    lemma_mul_is_distributive_add_other_way(c + d, a, b);
    lemma_mul_is_distributive_add_other_way(c - d, a, b);
    lemma_mul_is_distributive_sub_other_way(c + d, a, b);
    lemma_mul_is_distributive_sub_other_way(c - d, a, b);
    lemma_mul_is_distributive_add(a, c, d);
    lemma_mul_is_distributive_sub(a, c, d);
    lemma_mul_is_distributive_add(b, c, d);
    lemma_mul_is_distributive_sub(b, c, d);
}

/// A factor times a sum of two or three terms.
pub proof fn lemma_spread(a: int, b: int, c: int, d: int)
    ensures
        a * (b + c) == a * b + a * c,
        a * (b - c) == a * b - a * c,
        a * (b + c + d) == a * b + a * c + a * d,
        (b + c) * a == b * a + c * a,
        (b - c) * a == b * a - c * a,
{
    lemma_mul_is_distributive_add(a, b, c);
    lemma_mul_is_distributive_sub(a, b, c);
    lemma_mul_is_distributive_add(a, b + c, d);
    lemma_mul_is_distributive_add_other_way(a, b, c);
    lemma_mul_is_distributive_sub_other_way(a, b, c);
}

/// Squares of sums and differences.
pub proof fn lemma_squares(a: int, b: int)
    ensures
        (a + b) * (a + b) == a * a + 2 * (a * b) + b * b,
        (a - b) * (a - b) == a * a - 2 * (a * b) + b * b,
        (a + b) * (a - b) == a * a - b * b,
        (a - b) * (a + b) == a * a - b * b,
{
    lemma_expand(a, b, a, b);
    lemma_mul_is_commutative(a, b);
}

/// Four factors in another order.
pub proof fn lemma_swap(a: int, b: int, c: int, d: int)
    ensures
        (a * b) * (c * d) == (a * c) * (b * d),
        (a * b) * (c * d) == (a * d) * (b * c),
        (a * b) * (c * d) == (c * a) * (d * b),
        (a * b) * (c * d) == a * (b * (c * d)),
        (a * b) * (c * d) == a * (c * (b * d)),
{
    lemma_mul_is_associative(a, b, c * d);
    lemma_mul_is_associative(b, c, d);
    lemma_mul_is_associative(c, b, d);
    lemma_mul_is_commutative(b, c);
    lemma_mul_is_associative(a, c, b * d);
    lemma_mul_is_commutative(c, d);
    lemma_mul_is_associative(b, d, c);
    lemma_mul_is_commutative(b, d);
    lemma_mul_is_associative(d, b, c);
    lemma_mul_is_associative(a, d, b * c);
    lemma_mul_is_commutative(a, c);
    lemma_mul_is_commutative(d, b);
}

/// Three factors in another order.
pub proof fn lemma_swap3(a: int, b: int, c: int)
    ensures
        a * (b * c) == (a * b) * c,
        a * (b * c) == b * (a * c),
        (a * b) * c == (a * c) * b,
        a * (b * c) == (a * c) * b,
{
    lemma_mul_is_associative(a, b, c);
    lemma_mul_is_associative(b, a, c);
    lemma_mul_is_commutative(a, b);
    lemma_mul_is_associative(a, c, b);
    lemma_mul_is_commutative(b, c);
}

/// A constant factor comes out in front.
pub proof fn lemma_scaled(k: int, a: int, b: int)
    ensures
        (k * a) * b == k * (a * b),
        a * (k * b) == k * (a * b),
{
    lemma_swap3(k, a, b);
    lemma_swap3(a, k, b);
}

/// A sign as a factor.
pub proof fn lemma_sign(sign: int, a: int)
    requires
        sign == 1 || sign == -1,
    ensures
        sign * a == if sign == 1 {
            a
        } else {
            -a
        },
        sign * sign == 1,
{
    if sign == 1 {
        lemma_mul_basics(a);
    } else {
        lemma_mul_unary_negation(1, a);
        lemma_mul_basics(a);
        lemma_mul_unary_negation(1, 1);
    }
}

/// Negated factors.
pub proof fn lemma_negated(a: int, b: int)
    ensures
        (-a) * b == -(a * b),
        a * (-b) == -(a * b),
        (-a) * (-b) == a * b,
{
    lemma_mul_unary_negation(a, b);
    lemma_mul_unary_negation(a, -b);
}

} // verus!
