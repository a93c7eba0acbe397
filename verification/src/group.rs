//! The curve points form a group: the Edwards addition law is associative.
//!
//! With `f = y + x` and `g = y - x`, the numerators of a sum are products of these, so
//! that both ways of adding three points come down to the eight products of an `f` or a
//! `g` from each point. Multiplied by `t = x^2 + y^2`, a factor `f` becomes
//! `n g + 2 u f` and a factor `g` becomes `n f - 2 u g`, where `u = xy` and
//! `n = y^2 - x^2`, which the curve equation makes `1 + d u^2`.

use crate::curve;
use crate::gf;
use crate::radix;
use crate::ring;
use vstd::arithmetic::mul::*;
use vstd::prelude::*;

verus! {

// ---- products of three factors ----

/// What multiplication by `t` does to the factors of a point.
proof fn lemma_factors(x: int, y: int)
    ensures
        ({
            let f = y + x;
            let g = y - x;
            let t = x * x + y * y;
            let n = y * y - x * x;
            let u = x * y;
            &&& f * g == n
            &&& t * f == n * g + 2 * (u * f)
            &&& t * g == n * f - 2 * (u * g)
        }),
{
    let f = y + x;
    let g = y - x;
    let a = x * x;
    let b = y * y;
    let u = x * y;
    ring::lemma_squares(y, x);
    lemma_mul_is_commutative(x, y);
    ring::lemma_expand(a, b, y, x);
    ring::lemma_expand(b, a, y, x);
    ring::lemma_spread(u, y, x, 0);
    lemma_mul_is_associative(x, y, y);
    lemma_mul_is_commutative(x, b);
    lemma_mul_is_associative(y, x, x);
    lemma_mul_is_commutative(y, a);
    assert(u * y == b * x);
    assert(u * x == a * y);
}

/// The same with further factors.
proof fn lemma_act(t: int, n: int, u: int, f: int, g: int, r: int)
    requires
        t * f == n * g + 2 * (u * f),
        t * g == n * f - 2 * (u * g),
    ensures
        t * (f * r) == n * (g * r) + 2 * (u * (f * r)),
        t * (g * r) == n * (f * r) - 2 * (u * (g * r)),
{
    lemma_mul_is_associative(t, f, r);
    lemma_mul_is_associative(t, g, r);
    ring::lemma_spread(r, n * g, 2 * (u * f), 0);
    ring::lemma_spread(r, n * f, 2 * (u * g), 0);
    lemma_mul_is_associative(n, g, r);
    lemma_mul_is_associative(n, f, r);
    ring::lemma_scaled(2, u * f, r);
    ring::lemma_scaled(2, u * g, r);
    lemma_mul_is_associative(u, f, r);
    lemma_mul_is_associative(u, g, r);
}

/// The eight products, added up in pairs of opposite ones.
pub struct Octet {
    /// `fff + ggg` and `fff - ggg`
    pub p: int,
    pub m: int,
    /// `fgg + gff` and `gff - fgg`
    pub k1: int,
    pub l1: int,
    /// `ffg + ggf` and `ffg - ggf`
    pub k3: int,
    pub l3: int,
}

/// The sums of products for three points.
pub open spec fn octet(p1: (int, int), p2: (int, int), p3: (int, int)) -> Octet {
    let f1 = p1.1 + p1.0;
    let g1 = p1.1 - p1.0;
    let f2 = p2.1 + p2.0;
    let g2 = p2.1 - p2.0;
    let f3 = p3.1 + p3.0;
    let g3 = p3.1 - p3.0;
    Octet {
        p: f1 * (f2 * f3) + g1 * (g2 * g3),
        m: f1 * (f2 * f3) - g1 * (g2 * g3),
        k1: f1 * (g2 * g3) + g1 * (f2 * f3),
        l1: g1 * (f2 * f3) - f1 * (g2 * g3),
        k3: f1 * (f2 * g3) + g1 * (g2 * f3),
        l3: f1 * (f2 * g3) - g1 * (g2 * f3),
    }
}

/// `x^2 + y^2`.
pub open spec fn sum_sq(p: (int, int)) -> int {
    p.0 * p.0 + p.1 * p.1
}

/// `y^2 - x^2`.
pub open spec fn diff_sq(p: (int, int)) -> int {
    p.1 * p.1 - p.0 * p.0
}

/// What the sums of products become when multiplied by `t` of each point.
pub open spec fn acts(o: Octet, t: (int, int, int), n: (int, int, int), u: (int, int, int)) -> bool {
    &&& t.0 * o.p == n.0 * o.k1 + 2 * (u.0 * o.m)
    &&& t.2 * o.p == n.2 * o.k3 + 2 * (u.2 * o.m)
    &&& t.2 * o.k3 == n.2 * o.p - 2 * (u.2 * o.l3)
    &&& t.0 * o.k1 == n.0 * o.p - 2 * (u.0 * o.l1)
    &&& t.1 * o.k3 == n.1 * o.k1 + 2 * (u.1 * o.l3)
    &&& t.1 * o.k1 == n.1 * o.k3 + 2 * (u.1 * o.l1)
}

/// The same for the differences.
pub open spec fn acts_on_differences(
    o: Octet,
    t: (int, int, int),
    n: (int, int, int),
    u: (int, int, int),
) -> bool {
    &&& t.0 * o.m == n.0 * o.l1 + 2 * (u.0 * o.p)
    &&& t.2 * o.m == n.2 * o.l3 + 2 * (u.2 * o.p)
    &&& t.2 * o.l3 == n.2 * o.m - 2 * (u.2 * o.k3)
    &&& t.0 * o.l1 == n.0 * o.m - 2 * (u.0 * o.k1)
    &&& t.1 * o.l3 == 2 * (u.1 * o.k3) - n.1 * o.l1
    &&& t.1 * o.l1 == 2 * (u.1 * o.k1) - n.1 * o.l3
}

/// Sums and differences of two products that `t` takes to multiples of two others.
proof fn lemma_pair(t: int, n: int, u: int, a: int, b: int, a2: int, b2: int)
    requires
        t * a == n * a2 + 2 * (u * a),
        t * b == n * b2 - 2 * (u * b),
    ensures
        t * (a + b) == n * (a2 + b2) + 2 * (u * (a - b)),
        t * (a - b) == n * (a2 - b2) + 2 * (u * (a + b)),
{
    ring::lemma_spread(t, a, b, 0);
    ring::lemma_spread(n, a2, b2, 0);
    ring::lemma_spread(u, a, b, 0);
}

proof fn lemma_octet(p1: (int, int), p2: (int, int), p3: (int, int))
    ensures
        ({
            let o = octet(p1, p2, p3);
            let t = (sum_sq(p1), sum_sq(p2), sum_sq(p3));
            let n = (diff_sq(p1), diff_sq(p2), diff_sq(p3));
            let u = (p1.0 * p1.1, p2.0 * p2.1, p3.0 * p3.1);
            acts(o, t, n, u) && acts_on_differences(o, t, n, u)
        }),
{
    let f1 = p1.1 + p1.0;
    let g1 = p1.1 - p1.0;
    let f2 = p2.1 + p2.0;
    let g2 = p2.1 - p2.0;
    let f3 = p3.1 + p3.0;
    let g3 = p3.1 - p3.0;
    let t1 = sum_sq(p1);
    let t2 = sum_sq(p2);
    let t3 = sum_sq(p3);
    let n1 = diff_sq(p1);
    let n2 = diff_sq(p2);
    let n3 = diff_sq(p3);
    let u1 = p1.0 * p1.1;
    let u2 = p2.0 * p2.1;
    let u3 = p3.0 * p3.1;
    lemma_factors(p1.0, p1.1);
    lemma_factors(p2.0, p2.1);
    lemma_factors(p3.0, p3.1);
    let fff = f1 * (f2 * f3);
    let ggg = g1 * (g2 * g3);
    let fgg = f1 * (g2 * g3);
    let gff = g1 * (f2 * f3);
    let ffg = f1 * (f2 * g3);
    let ggf = g1 * (g2 * f3);
    // first factor
    lemma_act(t1, n1, u1, f1, g1, f2 * f3);
    lemma_act(t1, n1, u1, f1, g1, g2 * g3);
    lemma_pair(t1, n1, u1, fff, ggg, gff, fgg);
    lemma_pair(t1, n1, u1, fgg, gff, ggg, fff);
    // third factor
    ring::lemma_swap3(f1, f2, f3);
    ring::lemma_swap3(f1, f2, g3);
    ring::lemma_swap3(g1, g2, f3);
    ring::lemma_swap3(g1, g2, g3);
    lemma_act(t3, n3, u3, f3, g3, f1 * f2);
    lemma_act(t3, n3, u3, f3, g3, g1 * g2);
    lemma_mul_is_commutative(f3, f1 * f2);
    lemma_mul_is_commutative(g3, f1 * f2);
    lemma_mul_is_commutative(f3, g1 * g2);
    lemma_mul_is_commutative(g3, g1 * g2);
    lemma_pair(t3, n3, u3, fff, ggg, ffg, ggf);
    lemma_pair(t3, n3, u3, ggf, ffg, ggg, fff);
    // second factor
    ring::lemma_swap3(f1, g2, g3);
    ring::lemma_swap3(g1, f2, f3);
    lemma_act(t2, n2, u2, f2, g2, f1 * g3);
    lemma_act(t2, n2, u2, f2, g2, g1 * f3);
    lemma_pair(t2, n2, u2, ffg, ggf, fgg, gff);
    lemma_pair(t2, n2, u2, gff, fgg, ggf, ffg);
    ring::lemma_negated(n1, fff - ggg);
    ring::lemma_negated(n3, fff - ggg);
    ring::lemma_negated(t1, gff - fgg);
    ring::lemma_negated(t3, ffg - ggf);
    ring::lemma_negated(u1, gff - fgg);
    ring::lemma_negated(u3, ffg - ggf);
    ring::lemma_negated(n2, gff - fgg);
    ring::lemma_negated(n2, ffg - ggf);
}

// ---- the two ways of adding three points ----

/// Products of a few factors in other orders.
proof fn lemma_monomials(u1: int, u2: int, u3: int, v: int)
    ensures
        ({
            let q = curve::d() * u2;
            let e = curve::d() * (u1 * u3);
            &&& (q * u1) * (u3 * v) == e * (u2 * v)
            &&& (q * u3) * (u1 * v) == e * (u2 * v)
            &&& (q * u3) * (e * v) == (q * u1) * ((curve::d() * (u3 * u3)) * v)
            &&& (curve::d() * (u3 * u3)) * ((curve::d() * (u2 * u2)) * v) == ((q * q) * (u3 * u3))
                * v
            &&& (q * u1) * ((q * u1) * v) == ((q * q) * (u1 * u1)) * v
        }),
{
    let d = curve::d();
    let q = d * u2;
    let w = u1 * u3;
    let e = d * w;
    // q u1 u3 v
    lemma_mul_is_associative(d, u2, u1);
    lemma_mul_is_associative(d, u2 * u1, u3 * v);
    ring::lemma_swap(u2, u1, u3, v);
    lemma_mul_is_commutative(u2 * v, w);
    lemma_mul_is_associative(d, w, u2 * v);
    assert((q * u1) * (u3 * v) == e * (u2 * v));
    ring::lemma_swap(q, u1, u3, v);
    ring::lemma_swap(q, u3, u1, v);
    lemma_mul_is_commutative(u1, u3);
    lemma_mul_is_associative(q, u1, u3 * v);
    lemma_mul_is_associative(q, u3, u1 * v);
    ring::lemma_swap3(u1, u3, v);
    assert((q * u3) * (u1 * v) == e * (u2 * v));
    // q u3 e v
    lemma_mul_is_associative(q * u3, e, v);
    ring::lemma_swap(q, u3, d, w);
    ring::lemma_swap3(u3, u1, u3);
    ring::lemma_swap(q, u1, d, u3 * u3);
    lemma_mul_is_associative(q * u1, d * (u3 * u3), v);
    assert((q * u3) * (e * v) == (q * u1) * ((d * (u3 * u3)) * v));
    // d u3^2 d u2^2 v
    let s2 = u2 * u2;
    let s3 = u3 * u3;
    lemma_mul_is_associative(d * s3, d * s2, v);
    ring::lemma_swap(d, s3, d, s2);
    lemma_mul_is_commutative(s3, s2);
    ring::lemma_swap(d, u2, d, u2);
    lemma_mul_is_associative(d * d, s2, s3);
    // q u1 q u1 v
    lemma_mul_is_associative(q * u1, q * u1, v);
    ring::lemma_swap(q, u1, q, u1);
}

/// The denominator of one way, over those of the parts.
pub open spec fn den(ua: int, u2: int, ub: int, t2: int, tb: int) -> int {
    let q = curve::d() * u2;
    let e = curve::d() * (ua * ub);
    1 - (q * q) * (ub * ub) - (q * ua) * tb - e * t2
}

/// `1 + d u^2`, which is `y^2 - x^2` on the curve.
pub open spec fn curve_side(u: int) -> int {
    1 + curve::d() * (u * u)
}

/// A factor times a denominator, term by term.
proof fn lemma_times_den(v: int, ua: int, u2: int, ub: int, t2: int, tb: int)
    ensures
        ({
            let q = curve::d() * u2;
            let e = curve::d() * (ua * ub);
            v * den(ua, u2, ub, t2, tb) == v - ((q * q) * (ub * ub)) * v - (q * ua) * (tb * v) - e
                * (t2 * v)
        }),
{
    let q = curve::d() * u2;
    let e = curve::d() * (ua * ub);
    let a = (q * q) * (ub * ub);
    let b = (q * ua) * tb;
    let c = e * t2;
    ring::lemma_spread(v, 1 - a - b, c, 0);
    ring::lemma_spread(v, 1 - a, b, 0);
    ring::lemma_spread(v, 1, a, 0);
    lemma_mul_basics(v);
    lemma_mul_is_commutative(v, a);
    lemma_mul_is_commutative(v, b);
    lemma_mul_is_commutative(v, c);
    lemma_mul_is_associative(q * ua, tb, v);
    lemma_mul_is_associative(e, t2, v);
}

/// The mixed sum of products times the denominator of the other way.
proof fn lemma_mixed_den(
    ua: int,
    u2: int,
    ub: int,
    t2: int,
    tb: int,
    p: int,
    ka: int,
    kb: int,
    lb: int,
)
    requires
        gf::same(tb * kb, curve_side(ub) * p - 2 * (ub * lb)),
        gf::same(t2 * kb, curve_side(u2) * ka + 2 * (u2 * lb)),
    ensures
        ({
            let q = curve::d() * u2;
            let e = curve::d() * (ua * ub);
            gf::same(
                kb * den(ua, u2, ub, t2, tb),
                kb - ((q * q) * (ub * ub)) * kb - (q * ua) * (curve_side(ub) * p) - e * (curve_side(
                    u2,
                ) * ka),
            )
        }),
{
    let q = curve::d() * u2;
    let e = curve::d() * (ua * ub);
    let qa = q * ua;
    let mp = curve_side(ub) * p;
    let mk = curve_side(u2) * ka;
    lemma_times_den(kb, ua, u2, ub, t2, tb);
    gf::lemma_same_ops(qa, qa, tb * kb, mp - 2 * (ub * lb));
    gf::lemma_same_ops(e, e, t2 * kb, mk + 2 * (u2 * lb));
    ring::lemma_spread(qa, mp, 2 * (ub * lb), 0);
    ring::lemma_spread(e, mk, 2 * (u2 * lb), 0);
    ring::lemma_scaled(2, qa, ub * lb);
    ring::lemma_scaled(2, e, u2 * lb);
    lemma_monomials(ua, u2, ub, lb);
    let head = kb - ((q * q) * (ub * ub)) * kb;
    gf::lemma_same_ops(head, head, qa * (tb * kb), qa * mp - 2 * (qa * (ub * lb)));
    gf::lemma_same_ops(
        head - qa * (tb * kb),
        head - (qa * mp - 2 * (qa * (ub * lb))),
        e * (t2 * kb),
        e * mk + 2 * (e * (u2 * lb)),
    );
}

/// The pure sum of products times the difference of the denominators.
proof fn lemma_pure_den(
    u1: int,
    u2: int,
    u3: int,
    t1: int,
    t2: int,
    t3: int,
    p: int,
    m: int,
    k1: int,
    k3: int,
)
    requires
        gf::same(t1 * p, curve_side(u1) * k1 + 2 * (u1 * m)),
        gf::same(t3 * p, curve_side(u3) * k3 + 2 * (u3 * m)),
    ensures
        ({
            let q = curve::d() * u2;
            gf::same(
                p * den(u1, u2, u3, t2, t3) - p * den(u3, u2, u1, t2, t1),
                ((q * q) * (u1 * u1)) * p - ((q * q) * (u3 * u3)) * p - (q * u1) * (curve_side(u3)
                    * k3) + (q * u3) * (curve_side(u1) * k1),
            )
        }),
{
    let q = curve::d() * u2;
    let q1 = q * u1;
    let q3 = q * u3;
    let a = curve_side(u3) * k3;
    let b = curve_side(u1) * k1;
    lemma_times_den(p, u1, u2, u3, t2, t3);
    lemma_times_den(p, u3, u2, u1, t2, t1);
    lemma_mul_is_commutative(u1, u3);
    gf::lemma_same_ops(q1, q1, t3 * p, a + 2 * (u3 * m));
    gf::lemma_same_ops(q3, q3, t1 * p, b + 2 * (u1 * m));
    ring::lemma_spread(q1, a, 2 * (u3 * m), 0);
    ring::lemma_spread(q3, b, 2 * (u1 * m), 0);
    ring::lemma_scaled(2, q1, u3 * m);
    ring::lemma_scaled(2, q3, u1 * m);
    lemma_monomials(u1, u2, u3, m);
    let head = ((q * q) * (u1 * u1)) * p - ((q * q) * (u3 * u3)) * p;
    gf::lemma_same_ops(head, head, q1 * (t3 * p), q1 * a + 2 * (q1 * (u3 * m)));
    gf::lemma_same_ops(
        head - q1 * (t3 * p),
        head - (q1 * a + 2 * (q1 * (u3 * m))),
        q3 * (t1 * p),
        q3 * b + 2 * (q3 * (u1 * m)),
    );
}

/// Terms that cancel in the end.
proof fn lemma_cancelling(u1: int, u2: int, u3: int, v: int)
    ensures
        ({
            let q = curve::d() * u2;
            let e = curve::d() * (u1 * u3);
            &&& (q * u1) * (curve_side(u3) * v) + (q * u1) * (((q * q) * (u3 * u3)) * v) == (q * u1)
                * v + (q * u3) * (e * (curve_side(u2) * v))
            &&& (q * u1) * ((q * u1) * (curve_side(u3) * v)) == ((q * q) * (u1 * u1)) * v + ((q
                * q) * (u1 * u1)) * ((curve::d() * (u3 * u3)) * v)
        }),
{
    let d = curve::d();
    let q = d * u2;
    let e = d * (u1 * u3);
    let q1 = q * u1;
    let s3 = d * (u3 * u3);
    let s2 = d * (u2 * u2);
    ring::lemma_spread(v, 1, s3, 0);
    ring::lemma_spread(v, 1, s2, 0);
    lemma_mul_basics(v);
    ring::lemma_spread(q1, v, s3 * v, 0);
    // q u3 e (1 + d u2^2) v
    let cv = curve_side(u2) * v;
    lemma_monomials(u1, u2, u3, cv);
    ring::lemma_spread(s3, v, s2 * v, 0);
    lemma_monomials(u1, u2, u3, v);
    ring::lemma_spread(q1, s3 * v, ((q * q) * (u3 * u3)) * v, 0);
    // (q u1)^2 (1 + d u3^2) v
    let c3 = curve_side(u3) * v;
    lemma_monomials(u1, u2, u3, c3);
    ring::lemma_spread((q * q) * (u1 * u1), v, s3 * v, 0);
}

/// The heart of associativity: the numerators and the denominators of the two ways of
/// adding three points are in proportion.
proof fn lemma_proportion(
    u1: int,
    u2: int,
    u3: int,
    t1: int,
    t2: int,
    t3: int,
    p: int,
    m: int,
    k1: int,
    l1: int,
    k3: int,
    l3: int,
)
    requires
        gf::same(t1 * p, curve_side(u1) * k1 + 2 * (u1 * m)),
        gf::same(t3 * p, curve_side(u3) * k3 + 2 * (u3 * m)),
        gf::same(t3 * k3, curve_side(u3) * p - 2 * (u3 * l3)),
        gf::same(t1 * k1, curve_side(u1) * p - 2 * (u1 * l1)),
        gf::same(t2 * k3, curve_side(u2) * k1 + 2 * (u2 * l3)),
        gf::same(t2 * k1, curve_side(u2) * k3 + 2 * (u2 * l1)),
    ensures
        ({
            let q = curve::d() * u2;
            gf::same(
                (p + (q * u1) * k3) * den(u1, u2, u3, t2, t3),
                (p + (q * u3) * k1) * den(u3, u2, u1, t2, t1),
            )
        }),
{
    let d = curve::d();
    let q = d * u2;
    let e = d * (u1 * u3);
    let q1 = q * u1;
    let q3 = q * u3;
    let d1 = den(u1, u2, u3, t2, t3);
    let d3 = den(u3, u2, u1, t2, t1);
    let s1 = (q * q) * (u1 * u1);
    let s3 = (q * q) * (u3 * u3);
    lemma_mul_is_commutative(u1, u3);
    lemma_pure_den(u1, u2, u3, t1, t2, t3, p, m, k1, k3);
    lemma_mixed_den(u1, u2, u3, t2, t3, p, k1, k3, l3);
    lemma_mixed_den(u3, u2, u1, t2, t1, p, k3, k1, l1);
    let a3 = curve_side(u3) * p;
    let a1 = curve_side(u1) * p;
    let b1 = e * (curve_side(u2) * k1);
    let b3 = e * (curve_side(u2) * k3);
    let r3 = k3 - s3 * k3 - q1 * a3 - b1;
    let r1 = k1 - s1 * k1 - q3 * a1 - b3;
    gf::lemma_same_ops(q1, q1, k3 * d1, r3);
    gf::lemma_same_ops(q3, q3, k1 * d3, r1);
    // q1 r3 and q3 r1, term by term
    ring::lemma_spread(q1, k3 - s3 * k3 - q1 * a3, b1, 0);
    ring::lemma_spread(q1, k3 - s3 * k3, q1 * a3, 0);
    ring::lemma_spread(q1, k3, s3 * k3, 0);
    ring::lemma_spread(q3, k1 - s1 * k1 - q3 * a1, b3, 0);
    ring::lemma_spread(q3, k1 - s1 * k1, q3 * a1, 0);
    ring::lemma_spread(q3, k1, s1 * k1, 0);
    lemma_cancelling(u1, u2, u3, k3);
    lemma_cancelling(u3, u2, u1, k1);
    lemma_cancelling(u1, u2, u3, p);
    lemma_cancelling(u3, u2, u1, p);
    let x1 = d * (u1 * u1);
    let x3 = d * (u3 * u3);
    assert(s1 * (x3 * p) == s3 * (x1 * p)) by {
        lemma_mul_is_associative(s1, x3, p);
        lemma_mul_is_associative(s3, x1, p);
        ring::lemma_swap(q * q, u1 * u1, d, u3 * u3);
        ring::lemma_swap(q * q, u3 * u3, d, u1 * u1);
        lemma_mul_is_commutative(u1 * u1, u3 * u3);
    }
    let head = s1 * p - s3 * p - q1 * (curve_side(u3) * k3) + q3 * (curve_side(u1) * k1);
    assert(head + q1 * r3 - q3 * r1 == 0);
    gf::lemma_same_ops(p * d1 - p * d3, head, q1 * (k3 * d1), q1 * r3);
    gf::lemma_same_ops(
        p * d1 - p * d3 + q1 * (k3 * d1),
        head + q1 * r3,
        q3 * (k1 * d3),
        q3 * r1,
    );
    // the products of the claim
    ring::lemma_spread(d1, p, q1 * k3, 0);
    ring::lemma_spread(d3, p, q3 * k1, 0);
    lemma_mul_is_associative(q1, k3, d1);
    lemma_mul_is_associative(q3, k1, d3);
    gf::lemma_same_diff((p + q1 * k3) * d1, (p + q3 * k1) * d3);
    gf::lemma_reduced(0);
}

// ---- associativity ----

/// A curve point in reduced coordinates.
pub open spec fn is_point(p: (int, int)) -> bool {
    &&& curve::on_curve(p)
    &&& 0 <= p.0 < radix::prime()
    &&& 0 <= p.1 < radix::prime()
}

/// A point with `Z = 1`.
pub open spec fn lift(p: (int, int)) -> curve::Ext {
    curve::Ext { x: p.0, y: p.1, z: 1, t: p.0 * p.1 }
}

/// Extended coordinates are those of a point, and points have them.
pub proof fn lemma_lift(p: (int, int))
    requires
        is_point(p),
    ensures
        curve::valid(lift(p)),
        curve::affine(lift(p)) == p,
{
    gf::lemma_reduced(1);
    gf::lemma_reduced(p.0);
    gf::lemma_reduced(p.1);
    lemma_mul_basics(p.0);
    lemma_mul_basics(p.1);
    lemma_mul_basics(p.0 * p.1);
    gf::lemma_over_unique(p.0, 1, p.0);
    gf::lemma_over_unique(p.1, 1, p.1);
}

/// The sum of points is a point, and their order does not matter.
pub proof fn law_points_add(p: (int, int), q: (int, int))
    requires
        is_point(p),
        is_point(q),
    ensures
        is_point(curve::add_points(p, q)),
        curve::add_points(p, q) == curve::add_points(q, p),
{
    lemma_lift(p);
    lemma_lift(q);
    curve::law_sum_is_valid(lift(p), lift(q));
    curve::law_sum_is_affine_sum(lift(p), lift(q));
    curve::lemma_affine(curve::ext_add(lift(p), lift(q)));
    lemma_mul_is_commutative(p.0 * p.1, q.0 * q.1);
    lemma_mul_is_commutative(p.0, q.1);
    lemma_mul_is_commutative(p.1, q.0);
    lemma_mul_is_commutative(p.1, q.1);
    lemma_mul_is_commutative(p.0, q.0);
}

/// The product of the numerators of a sum.
proof fn lemma_numerators(p: (int, int), q: (int, int))
    ensures
        (p.0 * q.1 + p.1 * q.0) * (p.1 * q.1 + p.0 * q.0) == (p.0 * p.1) * sum_sq(q) + (q.0 * q.1)
            * sum_sq(p),
{
    let (x1, y1) = p;
    let (x2, y2) = q;
    let u1 = x1 * y1;
    let u2 = x2 * y2;
    ring::lemma_expand(x1 * y2, y1 * x2, y1 * y2, x1 * x2);
    ring::lemma_swap(x1, y2, y1, y2);
    ring::lemma_swap(x1, y2, x1, x2);
    ring::lemma_swap(y1, x2, y1, y2);
    ring::lemma_swap(y1, x2, x1, x2);
    lemma_mul_is_commutative(x1, y1);
    lemma_mul_is_commutative(x2, y2);
    ring::lemma_spread(u1, x2 * x2, y2 * y2, 0);
    ring::lemma_spread(u2, x1 * x1, y1 * y1, 0);
    lemma_mul_is_commutative(u2, x1 * x1);
    lemma_mul_is_commutative(u2, y1 * y1);
}

/// The numerators of a sum of three points, in terms of the products.
proof fn lemma_three(p1: (int, int), p2: (int, int), p3: (int, int), k: int)
    ensures
        ({
            let o = octet(p1, p2, p3);
            let nx = p1.0 * p2.1 + p1.1 * p2.0;
            let ny = p1.1 * p2.1 + p1.0 * p2.0;
            &&& 2 * ((ny * (1 + k)) * p3.1 + (nx * (1 - k)) * p3.0) == o.p + k * o.k3
            &&& 2 * ((nx * (1 - k)) * p3.1 + (ny * (1 + k)) * p3.0) == o.m - k * o.l3
        }),
{
    let (x1, y1) = p1;
    let (x2, y2) = p2;
    let (x3, y3) = p3;
    let f3 = y3 + x3;
    let g3 = y3 - x3;
    let nx = x1 * y2 + y1 * x2;
    let ny = y1 * y2 + x1 * x2;
    let ff = (y1 + x1) * (y2 + x2);
    let gg = (y1 - x1) * (y2 - x2);
    ring::lemma_expand(y1, x1, y2, x2);
    assert(ff == ny + nx);
    assert(gg == ny - nx);
    ring::lemma_expand(ny, nx, y3, x3);
    // the products of three
    lemma_mul_is_associative(y1 + x1, y2 + x2, f3);
    lemma_mul_is_associative(y1 + x1, y2 + x2, g3);
    lemma_mul_is_associative(y1 - x1, y2 - x2, f3);
    lemma_mul_is_associative(y1 - x1, y2 - x2, g3);
    let o = octet(p1, p2, p3);
    assert(o.p == ff * f3 + gg * g3);
    assert(o.m == ff * f3 - gg * g3);
    assert(o.k3 == ff * g3 + gg * f3);
    assert(o.l3 == ff * g3 - gg * f3);
    let yy = ny * y3;
    let xx = nx * x3;
    let xy = nx * y3;
    let yx = ny * x3;
    assert(o.p == 2 * (yy + xx));
    assert(o.k3 == 2 * (yy - xx));
    assert(o.m == 2 * (xy + yx));
    assert(o.l3 == 2 * (xy - yx));
    // the factors 1 + k and 1 - k
    ring::lemma_spread(ny, 1, k, 0);
    ring::lemma_spread(nx, 1, k, 0);
    lemma_mul_basics(ny);
    lemma_mul_basics(nx);
    ring::lemma_spread(y3, ny, ny * k, 0);
    ring::lemma_spread(x3, ny, ny * k, 0);
    ring::lemma_spread(y3, nx, nx * k, 0);
    ring::lemma_spread(x3, nx, nx * k, 0);
    lemma_mul_is_commutative(ny, k);
    lemma_mul_is_commutative(nx, k);
    lemma_mul_is_associative(k, ny, y3);
    lemma_mul_is_associative(k, ny, x3);
    lemma_mul_is_associative(k, nx, y3);
    lemma_mul_is_associative(k, nx, x3);
    ring::lemma_scaled(2, k, yy - xx);
    ring::lemma_scaled(2, k, xy - yx);
    ring::lemma_spread(k, yy, xx, 0);
    ring::lemma_spread(k, xy, yx, 0);
}

/// `(x y) w` where `x (1 + k)` and `y (1 - k)` are known, times `(1 + k) (1 - k)`.
proof fn lemma_clear(x: int, y: int, k: int, nx: int, ny: int)
    requires
        gf::same(x * (1 + k), nx),
        gf::same(y * (1 - k), ny),
    ensures
        gf::same((x * y) * (1 - k * k), nx * ny),
        gf::same(x * (1 - k * k), nx * (1 - k)),
        gf::same(y * (1 - k * k), ny * (1 + k)),
{
    ring::lemma_squares(1, k);
    assert((1 + k) * (1 - k) == 1 - k * k);
    gf::lemma_same_ops(x * (1 + k), nx, y * (1 - k), ny);
    ring::lemma_swap(x, 1 + k, y, 1 - k);
    gf::lemma_same_ops(x * (1 + k), nx, 1 - k, 1 - k);
    lemma_mul_is_associative(x, 1 + k, 1 - k);
    gf::lemma_same_ops(y * (1 - k), ny, 1 + k, 1 + k);
    lemma_mul_is_associative(y, 1 - k, 1 + k);
    lemma_mul_is_commutative(1 - k, 1 + k);
}

/// The denominators of a sum of three points.
proof fn lemma_den_forms(u1: int, u2: int, u3: int, t1: int, t2: int)
    ensures
        ({
            let k = curve::d() * (u1 * u2);
            let w = u1 * t2 + u2 * t1;
            &&& k == (curve::d() * u2) * u1
            &&& den(u3, u2, u1, t2, t1) == (1 - k * k) - curve::d() * (w * u3)
            &&& den(u3, u2, u1, -t2, -t1) == (1 - k * k) + curve::d() * (w * u3)
        }),
{
    let d = curve::d();
    let q = d * u2;
    let k = d * (u1 * u2);
    let w = u1 * t2 + u2 * t1;
    lemma_mul_is_commutative(u1, u2);
    lemma_mul_is_associative(d, u2, u1);
    ring::lemma_swap(q, u1, q, u1);
    // d w u3 = q u3 t1 + d u3 u1 t2
    ring::lemma_spread(u3, u1 * t2, u2 * t1, 0);
    ring::lemma_spread(d, (u1 * t2) * u3, (u2 * t1) * u3, 0);
    ring::lemma_swap3(u1, t2, u3);
    lemma_mul_is_commutative(u1, u3);
    lemma_mul_is_associative(d, u3 * u1, t2);
    ring::lemma_swap3(u2, t1, u3);
    lemma_mul_is_associative(d, u2 * u3, t1);
    lemma_mul_is_associative(d, u2, u3);
    assert((u1 * t2) * u3 == (u3 * u1) * t2);
    assert((u2 * t1) * u3 == (u2 * u3) * t1);
    let e = d * (u3 * u1);
    ring::lemma_negated(q * u3, t1);
    ring::lemma_negated(e, t2);
}

/// Twice the sum of three points, over the common denominators.
proof fn lemma_sum_of_three(p1: (int, int), p2: (int, int), p3: (int, int))
    requires
        is_point(p1),
        is_point(p2),
        is_point(p3),
    ensures
        ({
            let r = curve::add_points(curve::add_points(p1, p2), p3);
            let o = octet(p1, p2, p3);
            let u1 = p1.0 * p1.1;
            let u2 = p2.0 * p2.1;
            let u3 = p3.0 * p3.1;
            let q = curve::d() * u2;
            let dy = den(u3, u2, u1, sum_sq(p2), sum_sq(p1));
            let dx = den(u3, u2, u1, -sum_sq(p2), -sum_sq(p1));
            &&& gf::same((2 * r.1) * dy, o.p + (q * u1) * o.k3)
            &&& gf::same((2 * r.0) * dx, o.m - (q * u1) * o.l3)
            &&& !gf::zero(dy)
            &&& !gf::zero(dx)
        }),
{
    let d = curve::d();
    let (x3, y3) = p3;
    let u1 = p1.0 * p1.1;
    let u2 = p2.0 * p2.1;
    let u3 = x3 * y3;
    let t1 = sum_sq(p1);
    let t2 = sum_sq(p2);
    let k = d * (u1 * u2);
    let nx = p1.0 * p2.1 + p1.1 * p2.0;
    let ny = p1.1 * p2.1 + p1.0 * p2.0;
    let s = curve::add_points(p1, p2);
    let (x, y) = s;
    let r = curve::add_points(s, p3);
    let kk = d * ((x * y) * u3);
    let c = 1 - k * k;
    law_points_add(p1, p2);
    curve::lemma_affine_denominators(p1, p2);
    curve::lemma_affine_denominators(s, p3);
    gf::lemma_over(nx, 1 + k);
    gf::lemma_over(ny, 1 - k);
    lemma_clear(x, y, k, nx, ny);
    // c kk = d nx ny u3
    let w = nx * ny;
    lemma_numerators(p1, p2);
    lemma_den_forms(u1, u2, u3, t1, t2);
    assert(gf::same(c * kk, d * (w * u3))) by {
        gf::lemma_same_ops((x * y) * c, w, u3, u3);
        gf::lemma_same_ops(d, d, ((x * y) * c) * u3, w * u3);
        ring::lemma_swap3(x * y, c, u3);
        ring::lemma_scaled(d, c, (x * y) * u3);
        lemma_mul_is_commutative(c, (x * y) * u3);
    }
    let dy = den(u3, u2, u1, t2, t1);
    let dx = den(u3, u2, u1, -t2, -t1);
    gf::lemma_same_ops(c, c, c * kk, d * (w * u3));
    ring::lemma_spread(c, 1, kk, 0);
    lemma_mul_basics(c);
    assert(gf::same(c * (1 - kk), dy));
    assert(gf::same(c * (1 + kk), dx));
    assert(!gf::zero(c)) by {
        gf::lemma_no_zero_divisors(1 + k, 1 - k);
        ring::lemma_squares(1, k);
    }
    gf::lemma_no_zero_divisors(c, 1 - kk);
    gf::lemma_no_zero_divisors(c, 1 + kk);
    // numerators
    let my = y * y3 + x * x3;
    let mx = x * y3 + y * x3;
    gf::lemma_over(mx, 1 + kk);
    gf::lemma_over(my, 1 - kk);
    lemma_three(p1, p2, p3, k);
    let ay = (ny * (1 + k)) * y3 + (nx * (1 - k)) * x3;
    let ax = (nx * (1 - k)) * y3 + (ny * (1 + k)) * x3;
    assert(gf::same(my * c, ay) && gf::same(mx * c, ax)) by {
        gf::lemma_same_ops(y * c, ny * (1 + k), y3, y3);
        gf::lemma_same_ops(y * c, ny * (1 + k), x3, x3);
        gf::lemma_same_ops(x * c, nx * (1 - k), y3, y3);
        gf::lemma_same_ops(x * c, nx * (1 - k), x3, x3);
        gf::lemma_same_ops((y * c) * y3, (ny * (1 + k)) * y3, (x * c) * x3, (nx * (1 - k)) * x3);
        gf::lemma_same_ops((x * c) * y3, (nx * (1 - k)) * y3, (y * c) * x3, (ny * (1 + k)) * x3);
        ring::lemma_spread(c, y * y3, x * x3, 0);
        ring::lemma_spread(c, x * y3, y * x3, 0);
        ring::lemma_swap3(y, y3, c);
        ring::lemma_swap3(x, x3, c);
        ring::lemma_swap3(x, y3, c);
        ring::lemma_swap3(y, x3, c);
    }
    lemma_scale_up(r.1, 1 - kk, my, c, dy, ay);
    lemma_scale_up(r.0, 1 + kk, mx, c, dx, ax);
    lemma_mul_is_commutative(d * u2, u1);
}

/// `2 r b = 2 a` from `r e = m`, `c e = b` and `m c = a`.
proof fn lemma_scale_up(r: int, e: int, m: int, c: int, b: int, a: int)
    requires
        gf::same(r * e, m),
        gf::same(c * e, b),
        gf::same(m * c, a),
    ensures
        gf::same((2 * r) * b, 2 * a),
{
    gf::lemma_same_ops(r * e, m, c, c);
    gf::lemma_same_ops(r, r, c * e, b);
    ring::lemma_swap3(r, e, c);
    lemma_mul_is_commutative(c, e);
    assert(r * (c * e) == (r * e) * c);
    gf::lemma_same_ops(2, 2, r * b, a);
    ring::lemma_scaled(2, r, b);
}

/// What holds exactly of `n` holds up to reduction of the curve's side.
proof fn lemma_on_curve_side(v: int, w: int, n: int, c: int, a: int, b: int)
    requires
        v == n * a + b,
        gf::same(n, c),
        w == c * a + b,
    ensures
        gf::same(v, w),
{
    gf::lemma_same_ops(n, c, a, a);
    gf::lemma_same_ops(n * a, c * a, b, b);
}

/// The products of the points in the opposite order.
proof fn lemma_octet_reversed(p1: (int, int), p2: (int, int), p3: (int, int))
    ensures
        ({
            let o = octet(p1, p2, p3);
            let r = octet(p3, p2, p1);
            &&& r.p == o.p
            &&& r.m == o.m
            &&& r.k3 == o.k1
            &&& r.l3 == o.l1
        }),
{
    let f1 = p1.1 + p1.0;
    let g1 = p1.1 - p1.0;
    let f2 = p2.1 + p2.0;
    let g2 = p2.1 - p2.0;
    let f3 = p3.1 + p3.0;
    let g3 = p3.1 - p3.0;
    lemma_reversed(f1, f2, f3);
    lemma_reversed(g1, g2, g3);
    lemma_reversed(g1, f2, f3);
    lemma_reversed(f1, g2, g3);
}

proof fn lemma_reversed(a: int, b: int, c: int)
    ensures
        a * (b * c) == c * (b * a),
{
    ring::lemma_swap3(a, b, c);
    lemma_mul_is_commutative(a, b);
    lemma_mul_is_commutative(b * a, c);
}

/// Equal multiples over proportional denominators are equal.
proof fn lemma_equal_quotients(a: int, b: int, da: int, db: int, na: int, nb: int)
    requires
        gf::same((2 * a) * da, na),
        gf::same((2 * b) * db, nb),
        gf::same(na * db, nb * da),
        !gf::zero(da),
        !gf::zero(db),
    ensures
        gf::same(a, b),
{
    gf::lemma_same_ops((2 * a) * da, na, db, db);
    gf::lemma_same_ops((2 * b) * db, nb, da, da);
    let c = 2 * (da * db);
    gf::lemma_reduced(2);
    gf::lemma_no_zero_divisors(da, db);
    gf::lemma_no_zero_divisors(2, da * db);
    assert(((2 * a) * da) * db == c * a) by {
        lemma_mul_is_associative(2 * a, da, db);
        ring::lemma_scaled(2, a, da * db);
        lemma_mul_is_commutative(a, da * db);
        ring::lemma_scaled(2, da * db, a);
    }
    assert(((2 * b) * db) * da == c * b) by {
        lemma_mul_is_associative(2 * b, db, da);
        lemma_mul_is_commutative(db, da);
        ring::lemma_scaled(2, b, da * db);
        lemma_mul_is_commutative(b, da * db);
        ring::lemma_scaled(2, da * db, b);
    }
    gf::lemma_cancel(c, a, b);
}

/// The addition of curve points is associative.
pub proof fn law_sum_associates(p1: (int, int), p2: (int, int), p3: (int, int))
    requires
        is_point(p1),
        is_point(p2),
        is_point(p3),
    ensures
        curve::add_points(curve::add_points(p1, p2), p3) == curve::add_points(
            p1,
            curve::add_points(p2, p3),
        ),
{
    let a = curve::add_points(curve::add_points(p1, p2), p3);
    let b = curve::add_points(curve::add_points(p3, p2), p1);
    law_points_add(p1, p2);
    law_points_add(p2, p3);
    law_points_add(curve::add_points(p1, p2), p3);
    law_points_add(p1, curve::add_points(p2, p3));
    assert(b == curve::add_points(p1, curve::add_points(p2, p3)));
    let u1 = p1.0 * p1.1;
    let u2 = p2.0 * p2.1;
    let u3 = p3.0 * p3.1;
    let t1 = sum_sq(p1);
    let t2 = sum_sq(p2);
    let t3 = sum_sq(p3);
    let n1 = diff_sq(p1);
    let n2 = diff_sq(p2);
    let n3 = diff_sq(p3);
    let c1 = curve_side(u1);
    let c2 = curve_side(u2);
    let c3 = curve_side(u3);
    let q = curve::d() * u2;
    let o = octet(p1, p2, p3);
    lemma_sum_of_three(p1, p2, p3);
    lemma_sum_of_three(p3, p2, p1);
    lemma_octet_reversed(p1, p2, p3);
    lemma_octet(p1, p2, p3);
    assert(gf::same(n1, c1) && gf::same(n2, c2) && gf::same(n3, c3));
    // y
    lemma_on_curve_side(t1 * o.p, c1 * o.k1 + 2 * (u1 * o.m), n1, c1, o.k1, 2 * (u1 * o.m));
    lemma_on_curve_side(t3 * o.p, c3 * o.k3 + 2 * (u3 * o.m), n3, c3, o.k3, 2 * (u3 * o.m));
    lemma_on_curve_side(t3 * o.k3, c3 * o.p - 2 * (u3 * o.l3), n3, c3, o.p, -2 * (u3 * o.l3));
    lemma_on_curve_side(t1 * o.k1, c1 * o.p - 2 * (u1 * o.l1), n1, c1, o.p, -2 * (u1 * o.l1));
    lemma_on_curve_side(t2 * o.k3, c2 * o.k1 + 2 * (u2 * o.l3), n2, c2, o.k1, 2 * (u2 * o.l3));
    lemma_on_curve_side(t2 * o.k1, c2 * o.k3 + 2 * (u2 * o.l1), n2, c2, o.k3, 2 * (u2 * o.l1));
    lemma_proportion(u1, u2, u3, t1, t2, t3, o.p, o.m, o.k1, o.l1, o.k3, o.l3);
    lemma_equal_quotients(
        a.1,
        b.1,
        den(u3, u2, u1, t2, t1),
        den(u1, u2, u3, t2, t3),
        o.p + (q * u1) * o.k3,
        o.p + (q * u3) * o.k1,
    );
    // x: the same with the differences in place of the sums
    lemma_differences(u1, u2, u3, (t1, t2, t3), (n1, n2, n3), o);
    ring::lemma_negated(q * u1, o.l3);
    ring::lemma_negated(q * u3, o.l1);
    lemma_equal_quotients(
        a.0,
        b.0,
        den(u3, u2, u1, -t2, -t1),
        den(u1, u2, u3, -t2, -t3),
        o.m - (q * u1) * o.l3,
        o.m - (q * u3) * o.l1,
    );
    gf::lemma_reduced(a.0);
    gf::lemma_reduced(a.1);
    gf::lemma_reduced(b.0);
    gf::lemma_reduced(b.1);
}

/// The proportion for the differences of products.
proof fn lemma_differences(
    u1: int,
    u2: int,
    u3: int,
    t: (int, int, int),
    n: (int, int, int),
    o: Octet,
)
    requires
        acts_on_differences(o, t, n, (u1, u2, u3)),
        gf::same(n.0, curve_side(u1)),
        gf::same(n.1, curve_side(u2)),
        gf::same(n.2, curve_side(u3)),
    ensures
        ({
            let q = curve::d() * u2;
            gf::same(
                (o.m - (q * u1) * o.l3) * den(u1, u2, u3, -t.1, -t.2),
                (o.m - (q * u3) * o.l1) * den(u3, u2, u1, -t.1, -t.0),
            )
        }),
{
    let (t1, t2, t3) = t;
    let (n1, n2, n3) = n;
    let c1 = curve_side(u1);
    let c2 = curve_side(u2);
    let c3 = curve_side(u3);
    let q = curve::d() * u2;
    ring::lemma_negated(t1, o.m);
    ring::lemma_negated(t3, o.m);
    ring::lemma_negated(t3, o.l3);
    ring::lemma_negated(t1, o.l1);
    ring::lemma_negated(t2, o.l3);
    ring::lemma_negated(t2, o.l1);
    ring::lemma_negated(n1, o.l1);
    ring::lemma_negated(n3, o.l3);
    ring::lemma_negated(n2, o.l1);
    ring::lemma_negated(n2, o.l3);
    ring::lemma_negated(c1, o.l1);
    ring::lemma_negated(c3, o.l3);
    ring::lemma_negated(c2, o.l1);
    ring::lemma_negated(c2, o.l3);
    ring::lemma_negated(u1, o.p);
    ring::lemma_negated(u3, o.p);
    lemma_on_curve_side(-t1 * o.m, c1 * -o.l1 + 2 * (u1 * -o.p), n1, c1, -o.l1, 2 * (u1 * -o.p));
    lemma_on_curve_side(-t3 * o.m, c3 * -o.l3 + 2 * (u3 * -o.p), n3, c3, -o.l3, 2 * (u3 * -o.p));
    lemma_on_curve_side(-t3 * -o.l3, c3 * o.m - 2 * (u3 * o.k3), n3, c3, o.m, -2 * (u3 * o.k3));
    lemma_on_curve_side(-t1 * -o.l1, c1 * o.m - 2 * (u1 * o.k1), n1, c1, o.m, -2 * (u1 * o.k1));
    lemma_on_curve_side(-t2 * -o.l3, c2 * -o.l1 + 2 * (u2 * o.k3), n2, c2, -o.l1, 2 * (u2 * o.k3));
    lemma_on_curve_side(-t2 * -o.l1, c2 * -o.l3 + 2 * (u2 * o.k1), n2, c2, -o.l3, 2 * (u2 * o.k1));
    lemma_proportion(u1, u2, u3, -t1, -t2, -t3, o.m, -o.p, -o.l1, o.k1, -o.l3, o.k3);
    ring::lemma_negated(q * u1, o.l3);
    ring::lemma_negated(q * u3, o.l1);
}

// ---- the group, and multiples ----

/// The neutral point.
pub open spec fn neutral() -> (int, int) {
    (0, 1)
}

/// The neutral point changes nothing, and every point has an opposite.
pub proof fn law_group(p: (int, int))
    requires
        is_point(p),
    ensures
        is_point(neutral()),
        is_point(curve::negate(p)),
        curve::add_points(p, neutral()) == p,
        curve::add_points(neutral(), p) == p,
        curve::add_points(p, curve::negate(p)) == neutral(),
        curve::add_points(curve::negate(p), p) == neutral(),
{
    let n = curve::negate(p);
    let (x, y) = p;
    let u = x * y;
    curve::lemma_identity_valid();
    curve::lemma_neutral_affine(x, y);
    curve::lemma_negate_on_curve(p);
    gf::lemma_reduced(0 - x);
    law_points_add(p, n);
    // x: x y + y (-x) = 0
    gf::lemma_ops(0, x);
    gf::lemma_same_ops(y, y, n.0, -x);
    gf::lemma_same_ops(x, x, n.0, -x);
    ring::lemma_negated(y, x);
    ring::lemma_negated(x, x);
    ring::lemma_negated(x, y);
    lemma_mul_is_commutative(x, y);
    gf::lemma_same_ops(x * y, x * y, y * n.0, -(y * x));
    gf::lemma_same_ops(y * y, y * y, x * n.0, -(x * x));
    // the denominators: d u (-u) = -d u^2
    gf::lemma_same_ops(n.0, -x, y, y);
    gf::lemma_same_ops(u, u, n.0 * y, -u);
    ring::lemma_negated(u, u);
    gf::lemma_same_ops(curve::d(), curve::d(), u * (n.0 * y), -(u * u));
    ring::lemma_negated(curve::d(), u * u);
    let k = curve::d() * (u * (n.0 * y));
    gf::lemma_same_ops(1, 1, k, -(curve::d() * (u * u)));
    curve::lemma_affine_denominators(p, n);
    gf::lemma_reduced(0);
    gf::lemma_reduced(1);
    lemma_mul_basics(1 + k);
    lemma_mul_basics(1 - k);
    gf::lemma_over_unique(x * y + y * n.0, 1 + k, 0);
    gf::lemma_over_unique(y * y + x * n.0, 1 - k, 1);
}

/// The point added up so many times.
pub open spec fn multiple(p: (int, int), n: nat) -> (int, int)
    decreases n,
{
    if n == 0 {
        neutral()
    } else {
        curve::add_points(multiple(p, (n - 1) as nat), p)
    }
}

/// Multiples of points are points.
pub proof fn law_multiple_is_point(p: (int, int), n: nat)
    requires
        is_point(p),
    ensures
        is_point(multiple(p, n)),
    decreases n,
{
    law_group(p);
    if n > 0 {
        law_multiple_is_point(p, (n - 1) as nat);
        law_points_add(multiple(p, (n - 1) as nat), p);
    }
}

/// Multiples add up: `m P + n P = (m + n) P`.
pub proof fn law_multiples_add(p: (int, int), m: nat, n: nat)
    requires
        is_point(p),
    ensures
        curve::add_points(multiple(p, m), multiple(p, n)) == multiple(p, m + n),
    decreases n,
{
    law_multiple_is_point(p, m);
    law_multiple_is_point(p, n);
    if n == 0 {
        law_group(multiple(p, m));
    } else {
        let n1 = (n - 1) as nat;
        law_multiple_is_point(p, n1);
        law_multiples_add(p, m, n1);
        law_sum_associates(multiple(p, m), multiple(p, n1), p);
        assert((m + n - 1) as nat == m + n1);
    }
}

/// A multiple less another: `m P - n P = (m - n) P`.
pub proof fn law_multiples_subtract(p: (int, int), m: nat, n: nat)
    requires
        is_point(p),
        n <= m,
    ensures
        curve::add_points(multiple(p, m), curve::negate(multiple(p, n))) == multiple(
            p,
            (m - n) as nat,
        ),
{
    let r = (m - n) as nat;
    let a = multiple(p, r);
    let b = multiple(p, n);
    law_multiple_is_point(p, r);
    law_multiple_is_point(p, n);
    law_multiples_add(p, r, n);
    law_group(a);
    law_group(b);
    law_sum_associates(a, b, curve::negate(b));
}

/// Doubling and adding computes the multiple.
pub proof fn law_ladder_is_multiple(p: curve::Ext, n: nat)
    requires
        curve::valid(p),
    ensures
        is_point(curve::affine(p)),
        curve::affine(curve::ladder(p, n)) == multiple(curve::affine(p), n),
    decreases n,
{
    let a = curve::affine(p);
    curve::lemma_affine(p);
    curve::lemma_identity_valid();
    if n > 0 {
        let h = n / 2;
        let half = curve::ladder(p, h);
        law_ladder_is_multiple(p, h);
        curve::law_multiple_is_valid(p, h);
        curve::law_sum_is_valid(half, half);
        curve::law_sum_is_affine_sum(half, half);
        law_multiples_add(a, h, h);
        if n % 2 == 1 {
            let even = curve::ext_add(half, half);
            curve::law_sum_is_affine_sum(even, p);
            assert((n - 1) as nat == h + h);
        } else {
            assert(n == h + h);
        }
    }
}

/// Scalars add up as points do: the point of `m + n` is the sum of those of `m` and `n`,
/// and the point of `m - n` their difference.
pub proof fn law_scalars_add(p: curve::Ext, m: nat, n: nat)
    requires
        curve::valid(p),
    ensures
        curve::affine(curve::ladder(p, m + n)) == curve::add_points(
            curve::affine(curve::ladder(p, m)),
            curve::affine(curve::ladder(p, n)),
        ),
        n <= m ==> curve::affine(curve::ladder(p, (m - n) as nat)) == curve::add_points(
            curve::affine(curve::ladder(p, m)),
            curve::negate(curve::affine(curve::ladder(p, n))),
        ),
{
    let a = curve::affine(p);
    law_ladder_is_multiple(p, m);
    law_ladder_is_multiple(p, n);
    law_ladder_is_multiple(p, m + n);
    law_multiples_add(a, m, n);
    if n <= m {
        law_ladder_is_multiple(p, (m - n) as nat);
        law_multiples_subtract(a, m, n);
    }
}

} // verus!
