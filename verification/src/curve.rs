//! The twisted Edwards curve `-x^2 + y^2 = 1 + d x^2 y^2` over the field, in extended
//! and affine coordinates.

use crate::certificate;
use crate::gf;
use crate::primes;
use crate::radix;
use crate::ring;
use vstd::arithmetic::div_mod::*;
use vstd::arithmetic::mul::*;
use vstd::arithmetic::power::*;
use vstd::prelude::*;

verus! {

/// The curve constant, -121665/121666.
pub open spec fn d() -> int {
    0x52036cee2b6ffe738cc740797779e89800700a4d4141d8ab75eb4dca135978a3int
}

/// A square root of -1.
pub open spec fn sqrt_m1() -> int {
    0x2b8324804fc1df0b2b4d00993dfbd7a72f431806ad2fe478c4ee1b274a0ea0b0int
}

/// Extended coordinates: `x = X/Z`, `y = Y/Z`, `xy = T/Z`.
pub struct Ext {
    pub x: int,
    pub y: int,
    pub z: int,
    pub t: int,
}

/// The neutral element.
pub open spec fn identity() -> Ext {
    Ext { x: 0, y: 1, z: 1, t: 0 }
}

/// The unified addition of extended coordinates.
pub open spec fn ext_add(p: Ext, q: Ext) -> Ext {
    let a = gf::times(p.x, q.x);
    let b = gf::times(p.y, q.y);
    let c = gf::times(gf::times(p.t, q.t), d());
    let dd = gf::times(p.z, q.z);
    let e = gf::minus(gf::minus(gf::times(gf::plus(p.x, p.y), gf::plus(q.x, q.y)), a), b);
    let f = gf::minus(dd, c);
    let g = gf::plus(dd, c);
    let h = gf::plus(b, a);
    Ext { x: gf::times(e, f), y: gf::times(g, h), z: gf::times(f, g), t: gf::times(e, h) }
}

/// The unified addition of an affine point `(qx, qy)`, given `q_dt = d qx qy`.
pub open spec fn ext_add_mixed(p: Ext, qx: int, qy: int, q_dt: int) -> Ext {
    let a = gf::times(p.x, qx);
    let b = gf::times(p.y, qy);
    let c = gf::times(p.t, q_dt);
    let e = gf::minus(gf::minus(gf::times(gf::plus(p.x, p.y), gf::plus(qx, qy)), a), b);
    let f = gf::minus(p.z, c);
    let g = gf::plus(p.z, c);
    let h = gf::plus(b, a);
    Ext { x: gf::times(e, f), y: gf::times(g, h), z: gf::times(f, g), t: gf::times(e, h) }
}

/// Extended coordinates of a curve point.
pub open spec fn valid(p: Ext) -> bool {
    &&& !gf::zero(p.z)
    &&& gf::same(p.x * p.y, p.z * p.t)
    &&& gf::same(p.y * p.y - p.x * p.x, p.z * p.z + d() * (p.t * p.t))
}

/// The affine coordinates.
pub open spec fn affine(p: Ext) -> (int, int) {
    (gf::over(p.x, p.z), gf::over(p.y, p.z))
}

/// Affine coordinates of a curve point.
pub open spec fn on_curve(p: (int, int)) -> bool {
    gf::same(p.1 * p.1 - p.0 * p.0, 1 + d() * ((p.0 * p.1) * (p.0 * p.1)))
}

/// The Edwards addition law.
pub open spec fn add_points(p: (int, int), q: (int, int)) -> (int, int) {
    let k = d() * ((p.0 * p.1) * (q.0 * q.1));
    (gf::over(p.0 * q.1 + p.1 * q.0, 1 + k), gf::over(p.1 * q.1 + p.0 * q.0, 1 - k))
}

// ---- d is not a square ----

/// The constants satisfy what their names say.
pub proof fn lemma_constants()
    ensures
        (d() * 121666 + 121665) % radix::prime() == 0,
        (sqrt_m1() * sqrt_m1()) % radix::prime() == radix::prime() - 1,
        gf::same(sqrt_m1() * sqrt_m1(), -1),
{
    lemma_mod_multiples_vanish(1, -1, radix::prime());
    gf::lemma_reduced(radix::prime() - 1);
}

/// Twice a nonzero square is not a square.
proof fn lemma_two_nonsquare(u: int, v: int)
    requires
        gf::same(u * u, 2 * (v * v)),
    ensures
        gf::zero(v),
{
    if !gf::zero(v) {
        let p = radix::prime();
        // r = u / v squares to 2.
        gf::lemma_inverse(v);
        let w = gf::inverse(v);
        let r = u * w;
        gf::lemma_same_ops(u * u, 2 * (v * v), w * w, w * w);
        assert((u * u) * (w * w) == r * r) by (nonlinear_arith)
            requires
                r == u * w,
        ;
        assert((2 * (v * v)) * (w * w) == 2 * ((v * w) * (v * w))) by (nonlinear_arith);
        gf::lemma_same_ops(v * w, 1, v * w, 1);
        gf::lemma_same_ops(2, 2, (v * w) * (v * w), 1);
        assert(gf::same(r * r, 2));
        // Euler's criterion for r^2 = 2.
        certificate::lemma_two_euler();
        certificate::lemma_p_prime();
        let h = ((p - 1) / 2) as nat;
        lemma_pow_mod_noop(r * r, h, p);
        lemma_pow_mod_noop(2, h, p);
        lemma_pow_distributes(r, r, h);
        lemma_pow_adds(r, h, h);
        assert(h + h == (p - 1) as nat);
        if gf::zero(r) {
            gf::lemma_zero_mul(r, r);
            gf::lemma_reduced(2);
        } else {
            primes::lemma_fermat(r, p);
        }
    }
}

/// Minus `d` times a nonzero square is not a square.
proof fn lemma_minus_d_nonsquare(u: int, v: int)
    requires
        gf::same(u * u, -d() * (v * v)),
    ensures
        gf::zero(v),
{
    // -d is twice the square of s.
    let s = 0x4309c6eb73014edbfd99f4fc8c10c971bb97c91ddfcb1c812353e7d912fd6800int;
    assert((2 * (s * s)) % radix::prime() == radix::prime() - d());
    lemma_mod_multiples_vanish(1, -d(), radix::prime());
    gf::lemma_reduced(radix::prime() - d());
    assert(gf::same(2 * (s * s), -d()));
    gf::lemma_same_ops(2 * (s * s), -d(), v * v, v * v);
    assert((2 * (s * s)) * (v * v) == 2 * ((s * v) * (s * v))) by (nonlinear_arith);
    lemma_two_nonsquare(u, s * v);
    gf::lemma_reduced(s);
    if !gf::zero(v) {
        gf::lemma_no_zero_divisors(s, v);
    }
}

// ---- the addition as polynomials ----

pub open spec fn form_e(p: Ext, q: Ext) -> int {
    p.x * q.y + p.y * q.x
}

pub open spec fn form_f(p: Ext, q: Ext) -> int {
    p.z * q.z - d() * (p.t * q.t)
}

pub open spec fn form_g(p: Ext, q: Ext) -> int {
    p.z * q.z + d() * (p.t * q.t)
}

pub open spec fn form_h(p: Ext, q: Ext) -> int {
    p.y * q.y + p.x * q.x
}

/// The sum's coordinates are products of four forms.
pub proof fn lemma_forms(p: Ext, q: Ext)
    ensures
        ({
            let r = ext_add(p, q);
            &&& gf::same(r.x, form_e(p, q) * form_f(p, q))
            &&& gf::same(r.y, form_g(p, q) * form_h(p, q))
            &&& gf::same(r.z, form_f(p, q) * form_g(p, q))
            &&& gf::same(r.t, form_e(p, q) * form_h(p, q))
        }),
{
    let a = gf::times(p.x, q.x);
    let b = gf::times(p.y, q.y);
    let tt = gf::times(p.t, q.t);
    let c = gf::times(tt, d());
    let dd = gf::times(p.z, q.z);
    gf::lemma_ops(p.x, q.x);
    gf::lemma_ops(p.y, q.y);
    gf::lemma_ops(p.t, q.t);
    gf::lemma_ops(tt, d());
    gf::lemma_same_ops(tt, p.t * q.t, d(), d());
    lemma_mul_is_commutative(p.t * q.t, d());
    gf::lemma_ops(p.z, q.z);
    lemma_forms_tail(p.x, p.y, q.x, q.y, a, b, c, dd, form_f(p, q), form_g(p, q));
    gf::lemma_same_ops(dd, p.z * q.z, c, d() * (p.t * q.t));
}

/// The last stage of the addition, shared by the full and the mixed one.
proof fn lemma_forms_tail(
    x1: int,
    y1: int,
    x2: int,
    y2: int,
    a: int,
    b: int,
    c: int,
    dd: int,
    ff: int,
    gg: int,
)
    requires
        gf::same(a, x1 * x2),
        gf::same(b, y1 * y2),
    ensures
        ({
            let e = gf::minus(gf::minus(gf::times(gf::plus(x1, y1), gf::plus(x2, y2)), a), b);
            let f = gf::minus(dd, c);
            let g = gf::plus(dd, c);
            let h = gf::plus(b, a);
            let ee = x1 * y2 + y1 * x2;
            let hh = y1 * y2 + x1 * x2;
            &&& gf::same(dd - c, ff) && gf::same(dd + c, gg) ==> {
                &&& gf::same(gf::times(e, f), ee * ff)
                &&& gf::same(gf::times(g, h), gg * hh)
                &&& gf::same(gf::times(f, g), ff * gg)
                &&& gf::same(gf::times(e, h), ee * hh)
            }
        }),
{
    let s1 = gf::plus(x1, y1);
    let s2 = gf::plus(x2, y2);
    let m = gf::times(s1, s2);
    let e1 = gf::minus(m, a);
    let e = gf::minus(e1, b);
    let f = gf::minus(dd, c);
    let g = gf::plus(dd, c);
    let h = gf::plus(b, a);
    let ee = x1 * y2 + y1 * x2;
    let hh = y1 * y2 + x1 * x2;
    gf::lemma_ops(x1, y1);
    gf::lemma_ops(x2, y2);
    gf::lemma_same_ops(s1, x1 + y1, s2, x2 + y2);
    gf::lemma_ops(s1, s2);
    gf::lemma_ops(m, a);
    gf::lemma_same_ops(m, (x1 + y1) * (x2 + y2), a, x1 * x2);
    gf::lemma_ops(e1, b);
    gf::lemma_same_ops(e1, (x1 + y1) * (x2 + y2) - x1 * x2, b, y1 * y2);
    assert((x1 + y1) * (x2 + y2) - x1 * x2 - y1 * y2 == ee) by (nonlinear_arith)
        requires
            ee == x1 * y2 + y1 * x2,
    ;
    assert(gf::same(e, ee));
    gf::lemma_ops(dd, c);
    gf::lemma_ops(b, a);
    gf::lemma_same_ops(b, y1 * y2, a, x1 * x2);
    assert(gf::same(h, hh));
    if gf::same(dd - c, ff) && gf::same(dd + c, gg) {
        gf::lemma_ops(e, f);
        gf::lemma_same_ops(e, ee, f, ff);
        gf::lemma_ops(g, h);
        gf::lemma_same_ops(g, gg, h, hh);
        gf::lemma_ops(f, g);
        gf::lemma_same_ops(f, ff, g, gg);
        gf::lemma_ops(e, h);
        gf::lemma_same_ops(e, ee, h, hh);
    }
}

// ---- completeness ----

/// On the Edwards form `X^2 + Y^2 = Z^2 + D T^2`, `XY = ZT`: if `D T1 T2 = s Z1 Z2` for a
/// sign `s`, then `Z2^2 (X1 + s Y1)^2 = D T1^2 (X2 + Y2)^2`.
proof fn lemma_exceptional(
    x1: int,
    y1: int,
    z1: int,
    t1: int,
    x2: int,
    y2: int,
    z2: int,
    t2: int,
    dd: int,
    sign: int,
)
    requires
        sign == 1 || sign == -1,
        gf::same(x1 * x1 + y1 * y1, z1 * z1 + dd * (t1 * t1)),
        gf::same(x1 * y1, z1 * t1),
        gf::same(x2 * x2 + y2 * y2, z2 * z2 + dd * (t2 * t2)),
        gf::same(x2 * y2, z2 * t2),
        gf::same(dd * (t1 * t2), sign * (z1 * z2)),
    ensures
        gf::same(
            (z2 * (x1 + sign * y1)) * (z2 * (x1 + sign * y1)),
            dd * ((t1 * (x2 + y2)) * (t1 * (x2 + y2))),
        ),
{
    // Left: z2^2 (z1^2 + D t1^2 + 2 s z1 t1).
    let m1 = x1 * y1;
    let q1 = x1 * x1 + y1 * y1;
    let l = z2 * (x1 + sign * y1);
    let a1 = x1 + sign * y1;
    ring::lemma_swap(z2, a1, z2, a1);
    ring::lemma_squares(x1, y1);
    ring::lemma_sign(sign, y1);
    ring::lemma_sign(sign, m1);
    assert(a1 * a1 == q1 + 2 * (sign * m1));
    gf::lemma_same_ops(sign, sign, m1, z1 * t1);
    gf::lemma_same_ops(2, 2, sign * m1, sign * (z1 * t1));
    gf::lemma_same_ops(
        q1,
        z1 * z1 + dd * (t1 * t1),
        2 * (sign * m1),
        2 * (sign * (z1 * t1)),
    );
    let lv = z1 * z1 + dd * (t1 * t1) + 2 * (sign * (z1 * t1));
    gf::lemma_same_ops(z2 * z2, z2 * z2, q1 + 2 * (sign * m1), lv);
    // Right: D t1^2 (z2^2 + D t2^2 + 2 z2 t2).
    let m2 = x2 * y2;
    let q2 = x2 * x2 + y2 * y2;
    let r = t1 * (x2 + y2);
    ring::lemma_swap(t1, x2 + y2, t1, x2 + y2);
    ring::lemma_squares(x2, y2);
    gf::lemma_same_ops(2, 2, m2, z2 * t2);
    gf::lemma_same_ops(q2, z2 * z2 + dd * (t2 * t2), 2 * m2, 2 * (z2 * t2));
    let rv = z2 * z2 + dd * (t2 * t2) + 2 * (z2 * t2);
    gf::lemma_same_ops(t1 * t1, t1 * t1, q2 + 2 * m2, rv);
    gf::lemma_same_ops(dd, dd, (t1 * t1) * (q2 + 2 * m2), (t1 * t1) * rv);
    // The two agree where D t1 t2 = s z1 z2: with w the difference of these,
    // they differ by a multiple of w.
    let w = dd * (t1 * t2) - sign * (z1 * z2);
    let k = w + 2 * (sign * (z1 * z2)) + 2 * (z2 * t1);
    gf::lemma_same_diff(dd * (t1 * t2), sign * (z1 * z2));
    gf::lemma_zero_mul(w, k);
    let lhs = (z2 * z2) * lv;
    let rhs = dd * ((t1 * t1) * rv);
    assert(rhs - lhs == w * k) by {
        lemma_exceptional_identity(z1, t1, z2, t2, dd, sign);
    }
    gf::lemma_same_diff(rhs, lhs);
}

proof fn lemma_exceptional_identity(z1: int, t1: int, z2: int, t2: int, dd: int, sign: int)
    requires
        sign == 1 || sign == -1,
    ensures
        ({
            let w = dd * (t1 * t2) - sign * (z1 * z2);
            let k = w + 2 * (sign * (z1 * z2)) + 2 * (z2 * t1);
            let lv = z1 * z1 + dd * (t1 * t1) + 2 * (sign * (z1 * t1));
            let rv = z2 * z2 + dd * (t2 * t2) + 2 * (z2 * t2);
            dd * ((t1 * t1) * rv) - (z2 * z2) * lv == w * k
        }),
{
    let w = dd * (t1 * t2) - sign * (z1 * z2);
    let k = w + 2 * (sign * (z1 * z2)) + 2 * (z2 * t1);
    let lv = z1 * z1 + dd * (t1 * t1) + 2 * (sign * (z1 * t1));
    let rv = z2 * z2 + dd * (t2 * t2) + 2 * (z2 * t2);
    let u = dd * (t1 * t2);
    let v = sign * (z1 * z2);
    let n = z2 * t1;
    // w k = (u - v)(u + v + 2 n)
    ring::lemma_expand(u, v, u + v, 2 * n);
    ring::lemma_squares(u, v);
    ring::lemma_spread(u, u, v, 0);
    ring::lemma_spread(v, u, v, 0);
    ring::lemma_scaled(2, u, n);
    ring::lemma_scaled(2, v, n);
    lemma_mul_is_commutative(u, v);
    assert(w * k == u * u - v * v + 2 * (u * n) - 2 * (v * n));
    // D t1^2 rv = D n^2 + u^2 + 2 u n
    let tt = t1 * t1;
    ring::lemma_spread(tt, z2 * z2, dd * (t2 * t2), 2 * (z2 * t2));
    ring::lemma_spread(dd, tt * (z2 * z2), tt * (dd * (t2 * t2)), tt * (2 * (z2 * t2)));
    ring::lemma_swap(t1, t1, z2, z2);
    lemma_mul_is_commutative(t1, z2);
    assert(tt * (z2 * z2) == n * n);
    ring::lemma_scaled(dd, tt, t2 * t2);
    ring::lemma_swap(t1, t1, t2, t2);
    assert(tt * (dd * (t2 * t2)) == dd * ((t1 * t2) * (t1 * t2)));
    ring::lemma_swap(dd, t1 * t2, dd, t1 * t2);
    lemma_mul_is_associative(dd, dd, (t1 * t2) * (t1 * t2));
    assert(dd * (tt * (dd * (t2 * t2))) == u * u);
    ring::lemma_scaled(2, tt, z2 * t2);
    ring::lemma_swap(t1, t1, z2, t2);
    lemma_mul_is_commutative(t1 * t2, t1 * z2);
    assert(tt * (z2 * t2) == (t1 * t2) * n) by {
        ring::lemma_swap(t1, t1, t2, z2);
        lemma_mul_is_commutative(z2, t2);
    }
    ring::lemma_scaled(2, dd, tt * (z2 * t2));
    lemma_mul_is_associative(dd, t1 * t2, n);
    assert(dd * (tt * (2 * (z2 * t2))) == 2 * (u * n));
    assert(dd * (tt * rv) == dd * (n * n) + u * u + 2 * (u * n));
    // z2^2 lv = v^2 + D n^2 + 2 v n
    let zz = z2 * z2;
    ring::lemma_spread(zz, z1 * z1, dd * tt, 2 * (sign * (z1 * t1)));
    ring::lemma_swap(z2, z2, z1, z1);
    lemma_mul_is_commutative(z1, z2);
    ring::lemma_swap(sign, z1 * z2, sign, z1 * z2);
    ring::lemma_sign(sign, 0);
    lemma_mul_basics((z1 * z2) * (z1 * z2));
    assert(zz * (z1 * z1) == v * v);
    ring::lemma_scaled(dd, zz, tt);
    ring::lemma_swap(z2, z2, t1, t1);
    assert(zz * (dd * tt) == dd * (n * n));
    ring::lemma_scaled(2, zz, sign * (z1 * t1));
    ring::lemma_scaled(sign, zz, z1 * t1);
    ring::lemma_swap(z2, z2, z1, t1);
    lemma_mul_is_associative(sign, z1 * z2, n);
    assert(zz * (2 * (sign * (z1 * t1))) == 2 * (v * n));
}

/// A curve point in the Edwards form: with `i` the root of -1, `(iX)^2 + Y^2 = Z^2 - d (iT)^2`.
proof fn lemma_edwards_form(p: Ext)
    requires
        valid(p),
    ensures
        ({
            let i = sqrt_m1();
            let x = i * p.x;
            let t = i * p.t;
            &&& gf::same(x * x + p.y * p.y, p.z * p.z + -d() * (t * t))
            &&& gf::same(x * p.y, p.z * t)
        }),
{
    let i = sqrt_m1();
    let x = i * p.x;
    let t = i * p.t;
    lemma_constants();
    ring::lemma_swap(i, p.x, i, p.x);
    ring::lemma_swap(i, p.t, i, p.t);
    gf::lemma_same_ops(i * i, -1, p.x * p.x, p.x * p.x);
    gf::lemma_same_ops(i * i, -1, p.t * p.t, p.t * p.t);
    ring::lemma_negated(1, p.x * p.x);
    ring::lemma_negated(1, p.t * p.t);
    lemma_mul_basics(p.x * p.x);
    lemma_mul_basics(p.t * p.t);
    assert(gf::same(x * x, -(p.x * p.x)));
    gf::lemma_same_ops(x * x, -(p.x * p.x), p.y * p.y, p.y * p.y);
    gf::lemma_same_ops(-d(), -d(), t * t, -(p.t * p.t));
    ring::lemma_negated(d(), p.t * p.t);
    gf::lemma_same_ops(p.z * p.z, p.z * p.z, -d() * (t * t), d() * (p.t * p.t));
    lemma_mul_is_associative(i, p.x, p.y);
    ring::lemma_swap3(p.z, i, p.t);
    gf::lemma_same_ops(i, i, p.x * p.y, p.z * p.t);
}

/// An exceptional pair on the Edwards form would make `X2 + Y2` vanish.
proof fn lemma_exception_sum(
    x1: int,
    y1: int,
    z1: int,
    t1: int,
    x2: int,
    y2: int,
    z2: int,
    t2: int,
    sign: int,
)
    requires
        sign == 1 || sign == -1,
        gf::same(x1 * x1 + y1 * y1, z1 * z1 + -d() * (t1 * t1)),
        gf::same(x1 * y1, z1 * t1),
        gf::same(x2 * x2 + y2 * y2, z2 * z2 + -d() * (t2 * t2)),
        gf::same(x2 * y2, z2 * t2),
        gf::same(-d() * (t1 * t2), sign * (z1 * z2)),
        !gf::zero(t1),
    ensures
        gf::zero(x2 + y2),
{
    lemma_exceptional(x1, y1, z1, t1, x2, y2, z2, t2, -d(), sign);
    lemma_minus_d_nonsquare(z2 * (x1 + sign * y1), t1 * (x2 + y2));
    if !gf::zero(x2 + y2) {
        gf::lemma_no_zero_divisors(t1, x2 + y2);
    }
}

/// The Edwards form has no exceptional pairs.
proof fn lemma_no_exception_edwards(
    x1: int,
    y1: int,
    z1: int,
    t1: int,
    x2: int,
    y2: int,
    z2: int,
    t2: int,
    sign: int,
)
    requires
        sign == 1 || sign == -1,
        gf::same(x1 * x1 + y1 * y1, z1 * z1 + -d() * (t1 * t1)),
        gf::same(x1 * y1, z1 * t1),
        gf::same(x2 * x2 + y2 * y2, z2 * z2 + -d() * (t2 * t2)),
        gf::same(x2 * y2, z2 * t2),
        !gf::zero(z1),
        !gf::zero(z2),
    ensures
        !gf::same(-d() * (t1 * t2), sign * (z1 * z2)),
{
    if gf::same(-d() * (t1 * t2), sign * (z1 * z2)) {
        // Neither T1 nor T2 is 0, since Z1 Z2 is not.
        gf::lemma_no_zero_divisors(z1, z2);
        ring::lemma_sign(sign, z1 * z2);
        gf::lemma_negate(z1 * z2, 0);
        if gf::zero(t1) || gf::zero(t2) {
            if gf::zero(t1) {
                gf::lemma_zero_mul(t1, t2);
            } else {
                gf::lemma_zero_mul(t2, t1);
            }
            gf::lemma_zero_mul(t1 * t2, -d());
            assert(false);
        }
        lemma_exception_sum(x1, y1, z1, t1, x2, y2, z2, t2, sign);
        // The same with Y and T negated on both points.
        ring::lemma_negated(y1, y1);
        ring::lemma_negated(y2, y2);
        ring::lemma_negated(t1, t1);
        ring::lemma_negated(t2, t2);
        ring::lemma_negated(t1, t2);
        ring::lemma_negated(x1, y1);
        ring::lemma_negated(x2, y2);
        ring::lemma_negated(z1, t1);
        ring::lemma_negated(z2, t2);
        gf::lemma_negate(x1 * y1, z1 * t1);
        gf::lemma_negate(x2 * y2, z2 * t2);
        gf::lemma_negate(t1, 0);
        lemma_exception_sum(x1, -y1, z1, -t1, x2, -y2, z2, -t2, sign);
        // So X2 + Y2 and X2 - Y2 are both 0, hence so are X2 and Z2 T2.
        gf::lemma_zero_add(x2 + y2, x2 - y2);
        gf::lemma_reduced(2);
        if !gf::zero(x2) {
            gf::lemma_no_zero_divisors(2, x2);
        }
        gf::lemma_zero_mul(x2, y2);
        gf::lemma_no_zero_divisors(z2, t2);
    }
}

/// No exceptional pairs: `d T1 T2` is never plus or minus `Z1 Z2` on curve points.
proof fn lemma_no_exception(p: Ext, q: Ext, sign: int)
    requires
        valid(p),
        valid(q),
        sign == 1 || sign == -1,
    ensures
        !gf::same(d() * (p.t * q.t), sign * (p.z * q.z)),
{
    let i = sqrt_m1();
    lemma_constants();
    lemma_edwards_form(p);
    lemma_edwards_form(q);
    lemma_no_exception_edwards(i * p.x, p.y, p.z, i * p.t, i * q.x, q.y, q.z, i * q.t, sign);
    // -d (iT1)(iT2) = d T1 T2
    let tt = p.t * q.t;
    ring::lemma_swap(i, p.t, i, q.t);
    gf::lemma_same_ops(i * i, -1, tt, tt);
    ring::lemma_negated(1, tt);
    lemma_mul_basics(tt);
    gf::lemma_same_ops(-d(), -d(), (i * p.t) * (i * q.t), -tt);
    ring::lemma_negated(d(), tt);
}

/// The denominators of the addition never vanish on curve points.
pub proof fn lemma_denominators(p: Ext, q: Ext)
    requires
        valid(p),
        valid(q),
    ensures
        !gf::zero(form_f(p, q)),
        !gf::zero(form_g(p, q)),
{
    lemma_no_exception(p, q, 1);
    lemma_no_exception(p, q, -1);
    ring::lemma_sign(1, p.z * q.z);
    ring::lemma_sign(-1, p.z * q.z);
    gf::lemma_same_diff(p.z * q.z, d() * (p.t * q.t));
    gf::lemma_same_diff(d() * (p.t * q.t), -(p.z * q.z));
}

// ---- closure ----

/// The curve equation of the sum, as an identity in the forms: with `a = y^2 - x^2`,
/// `s = x^2 + y^2`, `m = xy` on each point.
proof fn lemma_form_squares(x1: int, y1: int, x2: int, y2: int)
    ensures
        ({
            let e = x1 * y2 + y1 * x2;
            let h = y1 * y2 + x1 * x2;
            let a1 = y1 * y1 - x1 * x1;
            let a2 = y2 * y2 - x2 * x2;
            let s1 = x1 * x1 + y1 * y1;
            let s2 = x2 * x2 + y2 * y2;
            let m1 = x1 * y1;
            let m2 = x2 * y2;
            &&& h * h - e * e == a1 * a2
            &&& h * h + e * e == s1 * s2 + 4 * (m1 * m2)
            &&& e * h == m1 * s2 + m2 * s1
            &&& s1 * s1 == a1 * a1 + 4 * (m1 * m1)
        }),
{
    let xx1 = x1 * x1;
    let yy1 = y1 * y1;
    let xx2 = x2 * x2;
    let yy2 = y2 * y2;
    let m1 = x1 * y1;
    let m2 = x2 * y2;
    // h^2 and e^2
    ring::lemma_squares(y1 * y2, x1 * x2);
    ring::lemma_squares(x1 * y2, y1 * x2);
    ring::lemma_swap(y1, y2, y1, y2);
    ring::lemma_swap(x1, x2, x1, x2);
    ring::lemma_swap(x1, y2, x1, y2);
    ring::lemma_swap(y1, x2, y1, x2);
    ring::lemma_swap(y1, y2, x1, x2);
    ring::lemma_swap(x1, y2, y1, x2);
    lemma_mul_is_commutative(x1, y1);
    lemma_mul_is_commutative(x2, y2);
    assert((y1 * y2) * (x1 * x2) == m1 * m2);
    assert((x1 * y2) * (y1 * x2) == m1 * m2);
    ring::lemma_expand(yy1, xx1, yy2, xx2);
    ring::lemma_expand(xx1, yy1, xx2, yy2);
    // e h
    ring::lemma_expand(x1 * y2, y1 * x2, y1 * y2, x1 * x2);
    ring::lemma_swap(x1, y2, y1, y2);
    ring::lemma_swap(x1, y2, x1, x2);
    ring::lemma_swap(y1, x2, y1, y2);
    ring::lemma_swap(y1, x2, x1, x2);
    ring::lemma_spread(m1, xx2, yy2, 0);
    ring::lemma_spread(m2, xx1, yy1, 0);
    lemma_mul_is_commutative(m2, xx1);
    lemma_mul_is_commutative(m2, yy1);
    // s1^2 = a1^2 + 4 m1^2
    ring::lemma_squares(xx1, yy1);
    ring::lemma_squares(yy1, xx1);
    lemma_mul_is_commutative(xx1, yy1);
    ring::lemma_swap(x1, x1, y1, y1);
}

/// The curve equation in the squares of the coordinates.
proof fn lemma_square_identity(p1: int, p2: int, r1: int, r2: int)
    ensures
        (p1 * p2 + r1 * r2) * ((p1 + r1) * (p2 + r2)) - (p1 * p2 - r1 * r2) * (p1 * p2 - r1 * r2)
            == (p1 * r1) * ((p2 + r2) * (p2 + r2)) + (p2 * r2) * ((p1 + r1) * (p1 + r1)),
{
    let pp = p1 * p2;
    let rr = r1 * r2;
    let u = p1 * r2;
    let v = r1 * p2;
    ring::lemma_expand(p1, r1, p2, r2);
    assert((p1 + r1) * (p2 + r2) == (pp + rr) + (u + v));
    ring::lemma_expand(pp, rr, pp + rr, u + v);
    ring::lemma_spread(pp, pp, rr, 0);
    ring::lemma_spread(rr, pp, rr, 0);
    ring::lemma_spread(pp, u, v, 0);
    ring::lemma_spread(rr, u, v, 0);
    ring::lemma_squares(pp, rr);
    lemma_mul_is_commutative(pp, rr);
    // left side: 4 pp rr + pp u + pp v + rr u + rr v
    ring::lemma_squares(p2, r2);
    ring::lemma_squares(p1, r1);
    let w1 = p1 * r1;
    let w2 = p2 * r2;
    ring::lemma_spread(w1, p2 * p2, 2 * (p2 * r2), r2 * r2);
    ring::lemma_spread(w2, p1 * p1, 2 * (p1 * r1), r1 * r1);
    ring::lemma_scaled(2, w1, w2);
    ring::lemma_scaled(2, w2, w1);
    lemma_mul_is_commutative(w1, w2);
    ring::lemma_swap(p1, r1, p2, r2);
    assert(w1 * w2 == pp * rr);
    ring::lemma_swap(p1, r1, p2, p2);
    assert(w1 * (p2 * p2) == pp * v);
    ring::lemma_swap(p1, r1, r2, r2);
    assert(w1 * (r2 * r2) == u * rr);
    lemma_mul_is_commutative(u, rr);
    ring::lemma_swap(p2, r2, p1, p1);
    lemma_mul_is_commutative(p2, p1);
    lemma_mul_is_commutative(r2, p1);
    assert(w2 * (p1 * p1) == pp * u);
    ring::lemma_swap(p2, r2, r1, r1);
    lemma_mul_is_commutative(p2, r1);
    lemma_mul_is_commutative(r2, r1);
    assert(w2 * (r1 * r1) == v * rr);
    lemma_mul_is_commutative(v, rr);
}

/// Left side of the sum's curve equation, regrouped.
proof fn lemma_sum_left(zz: int, w: int, e: int, h: int)
    ensures
        ({
            let f = zz - w;
            let g = zz + w;
            let k = zz * zz + w * w;
            (g * h) * (g * h) - (e * f) * (e * f) == k * (h * h - e * e) + (2 * (zz * w)) * (h * h
                + e * e)
        }),
{
    let f = zz - w;
    let g = zz + w;
    let k = zz * zz + w * w;
    let m = 2 * (zz * w);
    let hh = h * h;
    let ee = e * e;
    ring::lemma_swap(g, h, g, h);
    ring::lemma_swap(e, f, e, f);
    ring::lemma_squares(zz, w);
    assert(g * g == k + m);
    assert(f * f == k - m);
    ring::lemma_spread(hh, k, m, 0);
    ring::lemma_spread(ee, k, m, 0);
    lemma_mul_is_commutative(ee, f * f);
    ring::lemma_spread(k, hh, ee, 0);
    ring::lemma_spread(m, hh, ee, 0);
}

/// The product part of the sum's curve equation, on equal terms for `m = xy` and `u = zt`.
proof fn lemma_sum_cross(
    m1: int,
    u1: int,
    s1: int,
    b1: int,
    m2: int,
    u2: int,
    s2: int,
    b2: int,
)
    requires
        gf::same(m1, u1),
        gf::same(m2, u2),
        gf::same(s1 * s1, b1 * b1 + 4 * (u1 * u1)),
        gf::same(s2 * s2, b2 * b2 + 4 * (u2 * u2)),
    ensures
        gf::same(
            (m1 * s2 + m2 * s1) * (m1 * s2 + m2 * s1) - 2 * ((u1 * u2) * (s1 * s2 + 4 * (m1 * m2))),
            (u1 * u1) * (b2 * b2) + (u2 * u2) * (b1 * b1),
        ),
{
    let uu = u1 * u2;
    let ss = s1 * s2;
    let n = m1 * s2 + m2 * s1;
    let l = u1 * s2 + u2 * s1;
    // n = l
    gf::lemma_same_ops(m1, u1, s2, s2);
    gf::lemma_same_ops(m2, u2, s1, s1);
    gf::lemma_same_ops(m1 * s2, u1 * s2, m2 * s1, u2 * s1);
    gf::lemma_same_ops(n, l, n, l);
    // l^2 = u1^2 s2^2 + 2 uu ss + u2^2 s1^2
    let q1 = u1 * u1;
    let q2 = u2 * u2;
    ring::lemma_squares(u1 * s2, u2 * s1);
    ring::lemma_swap(u1, s2, u1, s2);
    ring::lemma_swap(u2, s1, u2, s1);
    ring::lemma_swap(u1, s2, u2, s1);
    lemma_mul_is_commutative(s1, s2);
    assert(l * l == q1 * (s2 * s2) + 2 * (uu * ss) + q2 * (s1 * s1));
    gf::lemma_same_ops(q1, q1, s2 * s2, b2 * b2 + 4 * q2);
    gf::lemma_same_ops(q2, q2, s1 * s1, b1 * b1 + 4 * q1);
    gf::lemma_same_ops(q1 * (s2 * s2), q1 * (b2 * b2 + 4 * q2), 2 * (uu * ss), 2 * (uu * ss));
    let l1 = q1 * (b2 * b2 + 4 * q2) + 2 * (uu * ss);
    let l2 = q2 * (b1 * b1 + 4 * q1);
    gf::lemma_same_ops(q1 * (s2 * s2) + 2 * (uu * ss), l1, q2 * (s1 * s1), l2);
    assert(gf::same(n * n, l1 + l2));
    ring::lemma_spread(q1, b2 * b2, 4 * q2, 0);
    ring::lemma_spread(q2, b1 * b1, 4 * q1, 0);
    ring::lemma_scaled(4, q1, q2);
    ring::lemma_scaled(4, q2, q1);
    lemma_mul_is_commutative(q1, q2);
    ring::lemma_swap(u1, u1, u2, u2);
    assert(q1 * q2 == uu * uu);
    // the other product
    gf::lemma_same_ops(m1, u1, m2, u2);
    gf::lemma_same_ops(4, 4, m1 * m2, uu);
    gf::lemma_same_ops(ss, ss, 4 * (m1 * m2), 4 * uu);
    gf::lemma_same_ops(uu, uu, ss + 4 * (m1 * m2), ss + 4 * uu);
    gf::lemma_same_ops(2, 2, uu * (ss + 4 * (m1 * m2)), uu * (ss + 4 * uu));
    ring::lemma_spread(uu, ss, 4 * uu, 0);
    ring::lemma_scaled(4, uu, uu);
    gf::lemma_same_ops(
        n * n,
        l1 + l2,
        2 * (uu * (ss + 4 * (m1 * m2))),
        2 * (uu * (ss + 4 * uu)),
    );
}

/// The sum of curve points satisfies the curve equation.
proof fn lemma_sum_equation(p: Ext, q: Ext)
    requires
        valid(p),
        valid(q),
    ensures
        ({
            let e = form_e(p, q);
            let f = form_f(p, q);
            let g = form_g(p, q);
            let h = form_h(p, q);
            gf::same(
                (g * h) * (g * h) - (e * f) * (e * f),
                (f * g) * (f * g) + d() * ((e * h) * (e * h)),
            )
        }),
{
    let e = form_e(p, q);
    let f = form_f(p, q);
    let g = form_g(p, q);
    let h = form_h(p, q);
    let zz = p.z * q.z;
    let tt = p.t * q.t;
    let w = d() * tt;
    let a1 = p.y * p.y - p.x * p.x;
    let a2 = q.y * q.y - q.x * q.x;
    let s1 = p.x * p.x + p.y * p.y;
    let s2 = q.x * q.x + q.y * q.y;
    let m1 = p.x * p.y;
    let m2 = q.x * q.y;
    let u1 = p.z * p.t;
    let u2 = q.z * q.t;
    let p1 = p.z * p.z;
    let p2 = q.z * q.z;
    let r1 = d() * (p.t * p.t);
    let r2 = d() * (q.t * q.t);
    let b1 = p1 + r1;
    let b2 = p2 + r2;
    let k = zz * zz + w * w;
    lemma_sum_left(zz, w, e, h);
    lemma_form_squares(p.x, p.y, q.x, q.y);
    lemma_form_squares(q.x, q.y, p.x, p.y);
    // s^2 = b^2 + 4 u^2
    gf::lemma_same_ops(a1, b1, a1, b1);
    gf::lemma_same_ops(a2, b2, a2, b2);
    gf::lemma_same_ops(m1, u1, m1, u1);
    gf::lemma_same_ops(m2, u2, m2, u2);
    gf::lemma_same_ops(4, 4, m1 * m1, u1 * u1);
    gf::lemma_same_ops(4, 4, m2 * m2, u2 * u2);
    gf::lemma_same_ops(a1 * a1, b1 * b1, 4 * (m1 * m1), 4 * (u1 * u1));
    gf::lemma_same_ops(a2 * a2, b2 * b2, 4 * (m2 * m2), 4 * (u2 * u2));
    lemma_sum_cross(m1, u1, s1, b1, m2, u2, s2, b2);
    // 2 zz w = 2 d u1 u2
    ring::lemma_scaled(d(), zz, tt);
    ring::lemma_swap(p.z, q.z, p.t, q.t);
    let uu = u1 * u2;
    assert(zz * w == d() * uu);
    let c = s1 * s2 + 4 * (m1 * m2);
    let n = (e * h) * (e * h);
    let tail = (u1 * u1) * (b2 * b2) + (u2 * u2) * (b1 * b1);
    ring::lemma_scaled(2, d() * uu, c);
    lemma_mul_is_associative(d(), uu, c);
    assert((2 * (zz * w)) * c == 2 * (d() * (uu * c)));
    gf::lemma_same_ops(d(), d(), n - 2 * (uu * c), tail);
    ring::lemma_spread(d(), n, 2 * (uu * c), 0);
    ring::lemma_scaled(2, d(), uu * c);
    assert(gf::same(d() * n - (2 * (zz * w)) * c, d() * tail));
    // k a1 a2 = k b1 b2 = (fg)^2 + d tail
    gf::lemma_same_ops(a1, b1, a2, b2);
    gf::lemma_same_ops(k, k, a1 * a2, b1 * b2);
    lemma_square_identity(p1, p2, r1, r2);
    ring::lemma_swap(p.z, q.z, p.z, q.z);
    assert(zz * zz == p1 * p2);
    ring::lemma_swap(d(), tt, d(), tt);
    ring::lemma_swap(p.t, q.t, p.t, q.t);
    ring::lemma_swap(d(), p.t * p.t, d(), q.t * q.t);
    assert(w * w == r1 * r2);
    ring::lemma_squares(zz, w);
    assert(f * g == p1 * p2 - r1 * r2);
    ring::lemma_swap(p.z, p.t, p.z, p.t);
    ring::lemma_swap(q.z, q.t, q.z, q.t);
    ring::lemma_scaled(d(), p1, p.t * p.t);
    ring::lemma_scaled(d(), p2, q.t * q.t);
    assert(d() * (u1 * u1) == p1 * r1);
    assert(d() * (u2 * u2) == p2 * r2);
    lemma_mul_is_associative(d(), u1 * u1, b2 * b2);
    lemma_mul_is_associative(d(), u2 * u2, b1 * b1);
    ring::lemma_spread(d(), (u1 * u1) * (b2 * b2), (u2 * u2) * (b1 * b1), 0);
    let fg = f * g;
    assert(k * (b1 * b2) == fg * fg + d() * tail);
    // together
    gf::lemma_same_ops(
        k * (a1 * a2),
        fg * fg + d() * tail,
        d() * n - (2 * (zz * w)) * c,
        d() * tail,
    );
    gf::lemma_same_ops(
        k * (a1 * a2) - (d() * n - (2 * (zz * w)) * c),
        fg * fg,
        d() * n,
        d() * n,
    );
}

/// Closure and completeness: the unified formula adds any two curve points, equal,
/// opposite or neutral ones included, and gives a curve point.
pub proof fn law_sum_is_valid(p: Ext, q: Ext)
    requires
        valid(p),
        valid(q),
    ensures
        valid(ext_add(p, q)),
{
    let r = ext_add(p, q);
    let e = form_e(p, q);
    let f = form_f(p, q);
    let g = form_g(p, q);
    let h = form_h(p, q);
    lemma_forms(p, q);
    lemma_denominators(p, q);
    gf::lemma_no_zero_divisors(f, g);
    gf::lemma_same_ops(r.x, e * f, r.y, g * h);
    gf::lemma_same_ops(r.z, f * g, r.t, e * h);
    ring::lemma_swap(e, f, g, h);
    lemma_mul_is_commutative(e * h, f * g);
    lemma_sum_equation(p, q);
    gf::lemma_same_ops(r.y, g * h, r.y, g * h);
    gf::lemma_same_ops(r.x, e * f, r.x, e * f);
    gf::lemma_same_ops(r.y * r.y, (g * h) * (g * h), r.x * r.x, (e * f) * (e * f));
    gf::lemma_same_ops(r.z, f * g, r.z, f * g);
    gf::lemma_same_ops(r.t, e * h, r.t, e * h);
    gf::lemma_same_ops(d(), d(), r.t * r.t, (e * h) * (e * h));
    gf::lemma_same_ops(
        r.z * r.z,
        (f * g) * (f * g),
        d() * (r.t * r.t),
        d() * ((e * h) * (e * h)),
    );
}

// ---- affine coordinates ----

/// Affine coordinates scale back to extended ones and satisfy the curve equation.
pub proof fn lemma_affine(p: Ext)
    requires
        valid(p),
    ensures
        ({
            let (x, y) = affine(p);
            &&& gf::same(x * p.z, p.x)
            &&& gf::same(y * p.z, p.y)
            &&& gf::same((x * y) * p.z, p.t)
            &&& on_curve((x, y))
            &&& 0 <= x < radix::prime()
            &&& 0 <= y < radix::prime()
        }),
{
    let (x, y) = affine(p);
    let z = p.z;
    gf::lemma_over(p.x, z);
    gf::lemma_over(p.y, z);
    let m = x * y;
    // z (m z) = (x z)(y z) = X Y = Z T
    gf::lemma_same_ops(x * z, p.x, y * z, p.y);
    ring::lemma_swap(x, z, y, z);
    lemma_mul_is_commutative(m, z * z);
    lemma_mul_is_associative(z, z, m);
    lemma_mul_is_commutative(z, m);
    assert((x * z) * (y * z) == z * (m * z));
    gf::lemma_cancel(z, m * z, p.t);
    // z^2 (y^2 - x^2) = Y^2 - X^2 = Z^2 + d T^2 = z^2 (1 + d m^2)
    let zz = z * z;
    let l = y * y - x * x;
    let r = 1 + d() * (m * m);
    gf::lemma_no_zero_divisors(z, z);
    gf::lemma_same_ops(x * z, p.x, x * z, p.x);
    gf::lemma_same_ops(y * z, p.y, y * z, p.y);
    gf::lemma_same_ops((y * z) * (y * z), p.y * p.y, (x * z) * (x * z), p.x * p.x);
    ring::lemma_swap(x, z, x, z);
    ring::lemma_swap(y, z, y, z);
    ring::lemma_spread(zz, y * y, x * x, 0);
    lemma_mul_is_commutative(zz, x * x);
    lemma_mul_is_commutative(zz, y * y);
    gf::lemma_same_ops(m * z, p.t, m * z, p.t);
    gf::lemma_same_ops(d(), d(), (m * z) * (m * z), p.t * p.t);
    gf::lemma_same_ops(zz, zz, d() * ((m * z) * (m * z)), d() * (p.t * p.t));
    ring::lemma_swap(m, z, m, z);
    ring::lemma_scaled(d(), zz, m * m);
    lemma_mul_is_commutative(zz, m * m);
    ring::lemma_spread(zz, 1, d() * (m * m), 0);
    lemma_mul_basics(zz);
    assert(zz * r == zz + d() * ((m * z) * (m * z)));
    gf::lemma_cancel(zz, l, r);
}

/// The unified formula computes the Edwards addition law.
pub proof fn law_sum_is_affine_sum(p: Ext, q: Ext)
    requires
        valid(p),
        valid(q),
    ensures
        affine(ext_add(p, q)) == add_points(affine(p), affine(q)),
{
    let r = ext_add(p, q);
    let e = form_e(p, q);
    let f = form_f(p, q);
    let g = form_g(p, q);
    let h = form_h(p, q);
    let (x1, y1) = affine(p);
    let (x2, y2) = affine(q);
    let zz = p.z * q.z;
    let m1 = x1 * y1;
    let m2 = x2 * y2;
    let k = d() * (m1 * m2);
    lemma_affine(p);
    lemma_affine(q);
    lemma_forms(p, q);
    lemma_denominators(p, q);
    gf::lemma_no_zero_divisors(p.z, q.z);
    // numerators
    let nx = x1 * y2 + y1 * x2;
    let ny = y1 * y2 + x1 * x2;
    gf::lemma_same_ops(x1 * p.z, p.x, y2 * q.z, q.y);
    gf::lemma_same_ops(y1 * p.z, p.y, x2 * q.z, q.x);
    gf::lemma_same_ops(y1 * p.z, p.y, y2 * q.z, q.y);
    gf::lemma_same_ops(x1 * p.z, p.x, x2 * q.z, q.x);
    ring::lemma_swap(x1, p.z, y2, q.z);
    ring::lemma_swap(y1, p.z, x2, q.z);
    ring::lemma_swap(y1, p.z, y2, q.z);
    ring::lemma_swap(x1, p.z, x2, q.z);
    gf::lemma_same_ops((x1 * y2) * zz, p.x * q.y, (y1 * x2) * zz, p.y * q.x);
    gf::lemma_same_ops((y1 * y2) * zz, p.y * q.y, (x1 * x2) * zz, p.x * q.x);
    ring::lemma_spread(zz, x1 * y2, y1 * x2, 0);
    ring::lemma_spread(zz, y1 * y2, x1 * x2, 0);
    assert(gf::same(nx * zz, e));
    assert(gf::same(ny * zz, h));
    // denominators
    gf::lemma_same_ops(m1 * p.z, p.t, m2 * q.z, q.t);
    ring::lemma_swap(m1, p.z, m2, q.z);
    gf::lemma_same_ops(d(), d(), (m1 * m2) * zz, p.t * q.t);
    lemma_mul_is_associative(d(), m1 * m2, zz);
    gf::lemma_same_ops(zz, zz, k * zz, d() * (p.t * q.t));
    ring::lemma_spread(zz, 1, k, 0);
    lemma_mul_basics(zz);
    assert(gf::same((1 + k) * zz, g));
    assert(gf::same((1 - k) * zz, f));
    if gf::zero(1 + k) {
        gf::lemma_zero_mul(1 + k, zz);
    }
    if gf::zero(1 - k) {
        gf::lemma_zero_mul(1 - k, zz);
    }
    gf::lemma_over_scale(nx, 1 + k, zz);
    gf::lemma_over_same(nx * zz, (1 + k) * zz, e, g);
    gf::lemma_over_scale(ny, 1 - k, zz);
    gf::lemma_over_same(ny * zz, (1 - k) * zz, h, f);
    // x = (e f) / (g f), y = (h g) / (f g)
    lemma_mul_is_commutative(f, g);
    lemma_mul_is_commutative(g, h);
    gf::lemma_over_scale(e, g, f);
    gf::lemma_over_same(r.x, r.z, e * f, g * f);
    gf::lemma_over_scale(h, f, g);
    gf::lemma_over_same(r.y, r.z, h * g, f * g);
}

// ---- laws of the addition ----

pub proof fn lemma_identity_valid()
    ensures
        valid(identity()),
        affine(identity()) == (0int, 1int),
        on_curve((0, 1)),
{
    gf::lemma_reduced(0);
    gf::lemma_reduced(1);
    lemma_mul_basics(d());
    gf::lemma_over_unique(0, 1, 0);
    gf::lemma_over_unique(1, 1, 1);
}

/// Addition is commutative, coordinate for coordinate.
pub proof fn law_sum_commutes(p: Ext, q: Ext)
    ensures
        ext_add(p, q) == ext_add(q, p),
{
    lemma_mul_is_commutative(p.x, q.x);
    lemma_mul_is_commutative(p.y, q.y);
    lemma_mul_is_commutative(p.t, q.t);
    lemma_mul_is_commutative(p.z, q.z);
    lemma_mul_is_commutative(gf::plus(p.x, p.y), gf::plus(q.x, q.y));
}

/// Adding the neutral element changes nothing.
pub proof fn law_identity_is_neutral(p: Ext)
    requires
        valid(p),
    ensures
        affine(ext_add(identity(), p)) == affine(p),
        affine(ext_add(p, identity())) == affine(p),
{
    lemma_identity_valid();
    law_sum_is_affine_sum(identity(), p);
    law_sum_commutes(identity(), p);
    lemma_affine(p);
    let (x, y) = affine(p);
    lemma_neutral_affine(x, y);
}

/// The affine neutral element.
pub proof fn lemma_neutral_affine(x: int, y: int)
    requires
        0 <= x < radix::prime(),
        0 <= y < radix::prime(),
    ensures
        add_points((0, 1), (x, y)) == (x, y),
        add_points((x, y), (0, 1)) == (x, y),
{
    lemma_mul_basics(x);
    lemma_mul_basics(y);
    lemma_mul_basics(x * y);
    lemma_mul_basics(d());
    gf::lemma_reduced(1);
    gf::lemma_reduced(x);
    gf::lemma_reduced(y);
    gf::lemma_over_unique(x, 1, x);
    gf::lemma_over_unique(y, 1, y);
}

/// Doubling the neutral element gives it back, coordinate for coordinate.
pub proof fn law_double_identity()
    ensures
        ext_add(identity(), identity()) == identity(),
{
    gf::lemma_reduced(0);
    gf::lemma_reduced(1);
    lemma_mul_basics(d());
    assert(gf::times(0, 0) == 0 && gf::times(1, 1) == 1 && gf::times(0, d()) == 0);
    assert(gf::plus(0, 1) == 1 && gf::plus(1, 0) == 1);
    assert(gf::minus(1, 0) == 1 && gf::minus(1, 1) == 0);
    assert(gf::times(0, 1) == 0);
}

/// Mixed addition is full addition of the point with `Z = 1`, given `q_dt = d T`.
pub proof fn law_mixed_is_full(p: Ext, q: Ext, q_dt: int)
    requires
        q.z == 1,
        gf::same(q_dt, d() * q.t),
        0 <= p.z < radix::prime(),
    ensures
        ext_add_mixed(p, q.x, q.y, q_dt) == ext_add(p, q),
{
    gf::lemma_reduced(p.z);
    lemma_mul_basics(p.z);
    let tt = gf::times(p.t, q.t);
    gf::lemma_ops(p.t, q.t);
    gf::lemma_same_ops(tt, p.t * q.t, d(), d());
    gf::lemma_same_ops(p.t, p.t, q_dt, d() * q.t);
    lemma_mul_is_associative(p.t, q.t, d());
    lemma_mul_is_commutative(q.t, d());
}

/// The opposite point.
pub open spec fn negate(p: (int, int)) -> (int, int) {
    (gf::minus(0, p.0), p.1)
}

pub proof fn lemma_negate_on_curve(p: (int, int))
    requires
        on_curve(p),
    ensures
        on_curve(negate(p)),
{
    let x = negate(p).0;
    gf::lemma_ops(0, p.0);
    gf::lemma_same_ops(x, -p.0, x, -p.0);
    gf::lemma_same_ops(x, -p.0, p.1, p.1);
    ring::lemma_negated(p.0, p.0);
    ring::lemma_negated(p.0, p.1);
    let m = p.0 * p.1;
    ring::lemma_negated(m, m);
    gf::lemma_same_ops(x * p.1, -m, x * p.1, -m);
    gf::lemma_same_ops(p.1 * p.1, p.1 * p.1, x * x, p.0 * p.0);
    gf::lemma_same_ops(d(), d(), (x * p.1) * (x * p.1), m * m);
    gf::lemma_same_ops(1, 1, d() * ((x * p.1) * (x * p.1)), d() * (m * m));
}

/// The affine denominators never vanish on curve points.
pub proof fn lemma_affine_denominators(p: (int, int), q: (int, int))
    requires
        on_curve(p),
        on_curve(q),
    ensures
        !gf::zero(1 + d() * ((p.0 * p.1) * (q.0 * q.1))),
        !gf::zero(1 - d() * ((p.0 * p.1) * (q.0 * q.1))),
{
    let a = Ext { x: p.0, y: p.1, z: 1, t: p.0 * p.1 };
    let b = Ext { x: q.0, y: q.1, z: 1, t: q.0 * q.1 };
    gf::lemma_reduced(1);
    lemma_mul_basics(p.0 * p.1);
    lemma_mul_basics(q.0 * q.1);
    lemma_denominators(a, b);
}

/// The numerator of the dual formula and that of the unified one are proportional.
proof fn lemma_dual_identity(x1: int, y1: int, x2: int, y2: int)
    requires
        on_curve((x1, y1)),
        on_curve((x2, y2)),
    ensures
        ({
            let m1 = x1 * y1;
            let m2 = x2 * y2;
            gf::same(
                (x1 * y2 - y1 * x2) * (y1 * y2 + x1 * x2),
                (m1 - m2) * (1 - d() * (m1 * m2)),
            )
        }),
{
    let m1 = x1 * y1;
    let m2 = x2 * y2;
    let k = d() * (m1 * m2);
    let a1 = y1 * y1 - x1 * x1;
    let a2 = y2 * y2 - x2 * x2;
    // (x1 y2 - y1 x2)(y1 y2 + x1 x2) = m1 a2 - m2 a1
    ring::lemma_expand(x1 * y2, y1 * x2, y1 * y2, x1 * x2);
    ring::lemma_swap(x1, y2, y1, y2);
    ring::lemma_swap(x1, y2, x1, x2);
    ring::lemma_swap(y1, x2, y1, y2);
    ring::lemma_swap(y1, x2, x1, x2);
    lemma_mul_is_commutative(x1, y1);
    lemma_mul_is_commutative(x2, y2);
    ring::lemma_spread(m1, y2 * y2, x2 * x2, 0);
    ring::lemma_spread(m2, y1 * y1, x1 * x1, 0);
    lemma_mul_is_commutative(m2, x1 * x1);
    lemma_mul_is_commutative(m2, y1 * y1);
    assert((x1 * y2 - y1 * x2) * (y1 * y2 + x1 * x2) == m1 * a2 - m2 * a1);
    // the curve equations
    let b1 = 1 + d() * (m1 * m1);
    let b2 = 1 + d() * (m2 * m2);
    gf::lemma_same_ops(m1, m1, a2, b2);
    gf::lemma_same_ops(m2, m2, a1, b1);
    gf::lemma_same_ops(m1 * a2, m1 * b2, m2 * a1, m2 * b1);
    // m1 b2 - m2 b1 = (m1 - m2)(1 - k)
    ring::lemma_spread(m1, 1, d() * (m2 * m2), 0);
    ring::lemma_spread(m2, 1, d() * (m1 * m1), 0);
    lemma_mul_basics(m1);
    lemma_mul_basics(m2);
    ring::lemma_scaled(d(), m1, m2 * m2);
    ring::lemma_scaled(d(), m2, m1 * m1);
    lemma_mul_is_associative(m1, m2, m2);
    lemma_mul_is_associative(m2, m1, m1);
    lemma_mul_is_commutative(m1, m2);
    lemma_mul_is_associative(d(), m1 * m2, m2);
    lemma_mul_is_associative(d(), m1 * m2, m1);
    ring::lemma_expand(m1, m2, 1, k);
    lemma_mul_is_commutative(m1, k);
    lemma_mul_is_commutative(m2, k);
}

/// The dual formula: `y(P + Q) = (x1 y1 - x2 y2) / (x1 y2 - y1 x2)` wherever its
/// denominator is not 0.
pub proof fn law_dual_sum(p: (int, int), q: (int, int))
    requires
        on_curve(p),
        on_curve(q),
        !gf::zero(p.0 * q.1 - p.1 * q.0),
    ensures
        add_points(p, q).1 == gf::over(p.0 * p.1 - q.0 * q.1, p.0 * q.1 - p.1 * q.0),
{
    let m1 = p.0 * p.1;
    let m2 = q.0 * q.1;
    let k = d() * (m1 * m2);
    let den = p.0 * q.1 - p.1 * q.0;
    let ny = p.1 * q.1 + p.0 * q.0;
    let y = add_points(p, q).1;
    lemma_affine_denominators(p, q);
    lemma_dual_identity(p.0, p.1, q.0, q.1);
    gf::lemma_over(ny, 1 - k);
    // (1 - k) (y den) = ny den = (m1 - m2)(1 - k)
    gf::lemma_same_ops(y * (1 - k), ny, den, den);
    ring::lemma_swap3(1 - k, y, den);
    lemma_mul_is_commutative(y, 1 - k);
    lemma_mul_is_commutative(ny, den);
    lemma_mul_is_commutative(m1 - m2, 1 - k);
    gf::lemma_cancel(1 - k, y * den, m1 - m2);
    gf::lemma_over_unique(m1 - m2, den, y);
    gf::lemma_reduced(y);
}

/// The dual formula for a difference: `y(P - Q) = (x1 y1 + x2 y2) / (x1 y2 + y1 x2)`.
pub proof fn law_dual_difference(p: (int, int), q: (int, int))
    requires
        on_curve(p),
        on_curve(q),
        !gf::zero(p.0 * q.1 + p.1 * q.0),
    ensures
        add_points(p, negate(q)).1 == gf::over(p.0 * p.1 + q.0 * q.1, p.0 * q.1 + p.1 * q.0),
{
    let n = negate(q);
    lemma_negate_on_curve(q);
    gf::lemma_ops(0, q.0);
    gf::lemma_same_ops(p.1, p.1, n.0, -q.0);
    gf::lemma_same_ops(p.0 * q.1, p.0 * q.1, p.1 * n.0, p.1 * -q.0);
    ring::lemma_negated(p.1, q.0);
    ring::lemma_negated(q.0, q.1);
    gf::lemma_same_ops(n.0, -q.0, q.1, q.1);
    gf::lemma_same_ops(p.0 * p.1, p.0 * p.1, n.0 * q.1, -(q.0 * q.1));
    law_dual_sum(p, n);
    gf::lemma_over_same(
        p.0 * p.1 - n.0 * q.1,
        p.0 * q.1 - p.1 * n.0,
        p.0 * p.1 + q.0 * q.1,
        p.0 * q.1 + p.1 * q.0,
    );
}

// ---- scalar multiples and compression ----

/// The multiple `n p` by doubling and adding, from the top bit of `n` down.
pub open spec fn ladder(p: Ext, n: nat) -> Ext
    decreases n,
{
    if n == 0 {
        identity()
    } else {
        let half = ladder(p, n / 2);
        let even = ext_add(half, half);
        if n % 2 == 1 {
            ext_add(even, p)
        } else {
            even
        }
    }
}

/// One bit more of the scalar.
pub proof fn lemma_ladder_step(p: Ext, n: nat)
    ensures
        ladder(p, 2 * n) == ext_add(ladder(p, n), ladder(p, n)),
        ladder(p, 2 * n + 1) == ext_add(ext_add(ladder(p, n), ladder(p, n)), p),
{
    if n == 0 {
        law_double_identity();
    }
    assert((2 * n) / 2 == n && (2 * n + 1) / 2 == n);
}

/// Multiples of a curve point are curve points.
pub proof fn law_multiple_is_valid(p: Ext, n: nat)
    requires
        valid(p),
    ensures
        valid(ladder(p, n)),
    decreases n,
{
    lemma_identity_valid();
    if n > 0 {
        law_multiple_is_valid(p, n / 2);
        let half = ladder(p, n / 2);
        law_sum_is_valid(half, half);
        law_sum_is_valid(ext_add(half, half), p);
    }
}

/// 2^255, the weight of the sign bit.
pub open spec fn sign_weight() -> int {
    0x8000000000000000000000000000000000000000000000000000000000000000int
}

/// The compressed point as a number: `y`, and the parity of `x` in the top bit.
pub open spec fn compressed(p: Ext) -> int {
    affine(p).1 + sign_weight() * (affine(p).0 % 2)
}

/// A compressed point tells the point apart: below the sign bit it is `y`, and the sign bit is
/// the parity of `x`.
pub proof fn law_compressed(p: Ext)
    requires
        valid(p),
    ensures
        compressed(p) % 0x8000000000000000000000000000000000000000000000000000000000000000int
            == affine(p).1,
        compressed(p) / 0x8000000000000000000000000000000000000000000000000000000000000000int
            == affine(p).0 % 2,
{
    let (x, y) = affine(p);
    lemma_affine(p);
    assert(radix::prime() < sign_weight());
    lemma_fundamental_div_mod_converse(compressed(p), sign_weight(), x % 2, y);
}

} // verus!
