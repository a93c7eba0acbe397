//! Points of the curve on limb coordinates: addition, scalar multiples, compression.

use crate::curve;
use crate::bytefield::field_mul_p;
use crate::field;
use crate::field::{fe_add, fe_freeze, fe_from_bytes, fe_mul, fe_one, fe_pack, fe_sub, fe_zero, Fe};
use crate::gf;
use crate::group;
use crate::invert;
use crate::invert::fe_invert;
use crate::radix;
use vstd::arithmetic::div_mod::*;
use vstd::arithmetic::mul::*;
use vstd::prelude::*;

verus! {

/// A point in extended coordinates.
#[derive(Clone, Copy)]
pub struct Ge {
    pub x: Fe,
    pub y: Fe,
    pub z: Fe,
    pub t: Fe,
}

/// Limbs of up to 18 bits: what sums of products can be multiplied again with.
pub open spec fn loose(a: Fe) -> bool {
    field::limbs_at_most(a, 0x4_0000)
}

/// Limbs of up to 19 bits: any two such elements multiply exactly.
pub open spec fn wide(a: Fe) -> bool {
    field::limbs_at_most(a, 0x8_0000)
}

/// The field elements that the coordinates stand for.
pub open spec fn coords(g: Ge) -> curve::Ext {
    curve::Ext {
        x: field::residue(g.x),
        y: field::residue(g.y),
        z: field::residue(g.z),
        t: field::residue(g.t),
    }
}

/// Coordinates that can be computed with.
pub open spec fn usable(g: Ge) -> bool {
    loose(g.x) && loose(g.y) && loose(g.z) && loose(g.t)
}

pub proof fn lemma_carried_loose(a: Fe)
    requires
        field::carried(a),
    ensures
        loose(a),
        field::limbs_at_most(a, 0x1_FFDA),
        wide(a),
{
    invert::lemma_carried_limbs(a);
    assert forall|i: int| 0 <= i < 16 implies #[trigger] a[i] <= 0x4_0000 by {
        assert(a[i] <= 65573);
    }
    assert forall|i: int| 0 <= i < 16 implies #[trigger] a[i] <= 0x1_FFDA by {
        assert(a[i] <= 65573);
    }
}

/// Loose limbs multiply exactly.
pub proof fn lemma_loose_mul(a: Fe, b: Fe)
    requires
        loose(a) || wide(a),
        loose(b) || wide(b),
    ensures
        field::mul_fits(a, b),
        field::mul_exact(a, b),
{
    assert forall|i: int| 0 <= i < 16 implies #[trigger] a[i] <= 0x8_0000 by {}
    assert forall|i: int| 0 <= i < 16 implies #[trigger] b[i] <= 0x8_0000 by {}
    field::lemma_mul_exact(a, b);
}

/// The sum of two loose elements.
pub proof fn lemma_loose_sum(a: Fe, b: Fe, r: Fe)
    requires
        loose(a),
        loose(b),
        forall|i: int| 0 <= i < 16 ==> #[trigger] r[i] == (a[i] + b[i]) % 0x1_0000_0000,
        (forall|i: int| 0 <= i < 16 ==> #[trigger] a[i] + b[i] < 0x1_0000_0000)
            ==> field::fe_value(r) == field::fe_value(a) + field::fe_value(b),
    ensures
        field::limbs_at_most(r, 0x8_0000),
        field::residue(r) == gf::plus(field::residue(a), field::residue(b)),
        field::limbs_at_most(a, 0x2_0000) && field::limbs_at_most(b, 0x2_0000) ==> loose(r),
{
    assert forall|i: int| 0 <= i < 16 implies #[trigger] a[i] + b[i] < 0x1_0000_0000 by {
        assert(a[i] <= 0x4_0000 && b[i] <= 0x4_0000);
    }
    assert forall|i: int| 0 <= i < 16 implies #[trigger] r[i] <= 0x8_0000 by {
        assert(a[i] <= 0x4_0000 && b[i] <= 0x4_0000);
    }
    if field::limbs_at_most(a, 0x2_0000) && field::limbs_at_most(b, 0x2_0000) {
        assert forall|i: int| 0 <= i < 16 implies #[trigger] r[i] <= 0x4_0000 by {
            assert(a[i] <= 0x2_0000 && b[i] <= 0x2_0000);
        }
    }
    lemma_add_mod_noop(field::fe_value(a), field::fe_value(b), radix::prime());
}

/// Subtracting an element with limbs of up to 17 bits.
pub proof fn lemma_loose_difference(a: Fe, b: Fe, r: Fe)
    requires
        field::limbs_at_most(a, 0x6_0000),
        field::limbs_at_most(b, 0x1_FFDA),
        forall|i: int| 0 <= i < 16 ==> #[trigger] r[i] <= a[i] + 0xFFFF,
        field::sub_exact(a, b) ==> field::residue(r) == (field::residue(a) - field::residue(b))
            % radix::prime(),
    ensures
        field::limbs_at_most(r, 0x8_0000),
        field::residue(r) == gf::minus(field::residue(a), field::residue(b)),
        field::limbs_at_most(a, 0x3_0000) ==> loose(r),
        field::carried(a) ==> field::limbs_at_most(r, 0x3_0000),
{
    assert forall|i: int| 0 <= i < 16 implies #[trigger] a[i] <= 0xFFFF_0000 by {
        assert(a[i] <= 0x6_0000);
    }
    field::lemma_sub_exact(a, b);
    assert forall|i: int| 0 <= i < 16 implies #[trigger] r[i] <= 0x8_0000 by {
        assert(a[i] <= 0x6_0000);
    }
    if field::limbs_at_most(a, 0x3_0000) {
        assert forall|i: int| 0 <= i < 16 implies #[trigger] r[i] <= 0x4_0000 by {
            assert(a[i] <= 0x3_0000);
        }
    }
    if field::carried(a) {
        invert::lemma_carried_limbs(a);
        assert forall|i: int| 0 <= i < 16 implies #[trigger] r[i] <= 0x3_0000 by {
            assert(a[i] <= 65573);
        }
    }
}

/// The neutral element.
pub fn ge_identity() -> (r: Ge)
    ensures
        coords(r) == curve::identity(),
        usable(r),
{
    let r: Ge = Ge { x: fe_zero(), y: fe_one(), z: fe_one(), t: fe_zero() };
    proof {
        gf::lemma_reduced(0);
        gf::lemma_reduced(1);
    }
    r
}

/// The curve constant `d`.
pub fn d_const() -> (r: Fe)
    ensures
        field::fe_value(r) == curve::d(),
        field::residue(r) == curve::d(),
        field::digits16(r),
        loose(r),
{
    let r: Fe = [
        0x78a3,
        0x1359,
        0x4dca,
        0x75eb,
        0xd8ab,
        0x4141,
        0x0a4d,
        0x0070,
        0xe898,
        0x7779,
        0x4079,
        0x8cc7,
        0xfe73,
        0x2b6f,
        0x6cee,
        0x5203,
    ];
    proof {
        let s = field::ints(r);
        radix::lemma_eval_next(65536, s, 0, 0x78a3, 0x1int, 0x0int);
        radix::lemma_eval_next(65536, s, 1, 0x1359, 0x10000int, 0x78a3int);
        radix::lemma_eval_next(65536, s, 2, 0x4dca, 0x100000000int, 0x135978a3int);
        radix::lemma_eval_next(65536, s, 3, 0x75eb, 0x1000000000000int, 0x4dca135978a3int);
        radix::lemma_eval_next(65536, s, 4, 0xd8ab, 0x10000000000000000int, 0x75eb4dca135978a3int);
        radix::lemma_eval_next(65536, s, 5, 0x4141, 0x100000000000000000000int, 0xd8ab75eb4dca135978a3int);
        radix::lemma_eval_next(65536, s, 6, 0xa4d, 0x1000000000000000000000000int, 0x4141d8ab75eb4dca135978a3int);
        radix::lemma_eval_next(65536, s, 7, 0x70, 0x10000000000000000000000000000int, 0xa4d4141d8ab75eb4dca135978a3int);
        radix::lemma_eval_next(65536, s, 8, 0xe898, 0x100000000000000000000000000000000int, 0x700a4d4141d8ab75eb4dca135978a3int);
        radix::lemma_eval_next(65536, s, 9, 0x7779, 0x1000000000000000000000000000000000000int, 0xe89800700a4d4141d8ab75eb4dca135978a3int);
        radix::lemma_eval_next(65536, s, 10, 0x4079, 0x10000000000000000000000000000000000000000int, 0x7779e89800700a4d4141d8ab75eb4dca135978a3int);
        radix::lemma_eval_next(65536, s, 11, 0x8cc7, 0x100000000000000000000000000000000000000000000int, 0x40797779e89800700a4d4141d8ab75eb4dca135978a3int);
        radix::lemma_eval_next(65536, s, 12, 0xfe73, 0x1000000000000000000000000000000000000000000000000int, 0x8cc740797779e89800700a4d4141d8ab75eb4dca135978a3int);
        radix::lemma_eval_next(65536, s, 13, 0x2b6f, 0x10000000000000000000000000000000000000000000000000000int, 0xfe738cc740797779e89800700a4d4141d8ab75eb4dca135978a3int);
        radix::lemma_eval_next(65536, s, 14, 0x6cee, 0x100000000000000000000000000000000000000000000000000000000int, 0x2b6ffe738cc740797779e89800700a4d4141d8ab75eb4dca135978a3int);
        radix::lemma_eval_next(65536, s, 15, 0x5203, 0x1000000000000000000000000000000000000000000000000000000000000int, 0x6cee2b6ffe738cc740797779e89800700a4d4141d8ab75eb4dca135978a3int);
        gf::lemma_reduced(curve::d());
    }
    r
}

/// The unified addition; it also doubles and takes the neutral element.
pub fn ge_add(p: &Ge, q: &Ge) -> (r: Ge)
    requires
        usable(*p),
        usable(*q),
    ensures
        coords(r) == curve::ext_add(coords(*p), coords(*q)),
        field::carried(r.x) && field::carried(r.y) && field::carried(r.z) && field::carried(r.t),
        usable(r),
{
    proof {
        lemma_loose_mul(p.x, q.x);
        lemma_loose_mul(p.y, q.y);
        lemma_loose_mul(p.t, q.t);
        lemma_loose_mul(p.z, q.z);
    }
    let a: Fe = fe_mul(&p.x, &q.x);
    let b: Fe = fe_mul(&p.y, &q.y);
    let tt: Fe = fe_mul(&p.t, &q.t);
    let dk: Fe = d_const();
    proof {
        lemma_carried_loose(tt);
        lemma_loose_mul(tt, dk);
    }
    let c: Fe = fe_mul(&tt, &dk);
    let d: Fe = fe_mul(&p.z, &q.z);
    sum_from_parts(&p.x, &p.y, &q.x, &q.y, &a, &b, &c, &d)
}

/// The last stage of the addition: from `A = X1 X2`, `B = Y1 Y2`, `C = d T1 T2` and
/// `D = Z1 Z2` to the sum.
fn sum_from_parts(
    x1: &Fe,
    y1: &Fe,
    x2: &Fe,
    y2: &Fe,
    a: &Fe,
    b: &Fe,
    c: &Fe,
    d: &Fe,
) -> (r: Ge)
    requires
        loose(*x1),
        loose(*y1),
        loose(*x2),
        loose(*y2),
        field::carried(*a),
        field::carried(*b),
        field::carried(*c),
        loose(*d),
    ensures
        ({
            let e = gf::minus(
                gf::minus(
                    gf::times(
                        gf::plus(field::residue(*x1), field::residue(*y1)),
                        gf::plus(field::residue(*x2), field::residue(*y2)),
                    ),
                    field::residue(*a),
                ),
                field::residue(*b),
            );
            let f = gf::minus(field::residue(*d), field::residue(*c));
            let g = gf::plus(field::residue(*d), field::residue(*c));
            let h = gf::plus(field::residue(*b), field::residue(*a));
            &&& field::residue(r.x) == gf::times(e, f)
            &&& field::residue(r.y) == gf::times(g, h)
            &&& field::residue(r.z) == gf::times(f, g)
            &&& field::residue(r.t) == gf::times(e, h)
        }),
        field::carried(r.x) && field::carried(r.y) && field::carried(r.z) && field::carried(r.t),
        usable(r),
{
    let s1: Fe = fe_add(x1, y1);
    let s2: Fe = fe_add(x2, y2);
    proof {
        lemma_loose_sum(*x1, *y1, s1);
        lemma_loose_sum(*x2, *y2, s2);
        field::lemma_mul_exact(s1, s2);
    }
    let m: Fe = fe_mul(&s1, &s2);
    let e1: Fe = fe_sub(&m, a);
    proof {
        lemma_carried_loose(m);
        lemma_carried_loose(*a);
        lemma_carried_loose(*b);
        lemma_carried_loose(*c);
        lemma_weaken(m, 0x4_0000, 0x6_0000);
        lemma_loose_difference(m, *a, e1);
        lemma_weaken(e1, 0x3_0000, 0x6_0000);
    }
    let e: Fe = fe_sub(&e1, b);
    let f: Fe = fe_sub(d, c);
    let g: Fe = fe_add(d, c);
    let h: Fe = fe_add(b, a);
    proof {
        lemma_loose_difference(e1, *b, e);
        lemma_weaken(*d, 0x4_0000, 0x6_0000);
        lemma_loose_difference(*d, *c, f);
        lemma_loose_sum(*d, *c, g);
        lemma_loose_sum(*b, *a, h);
        field::lemma_mul_exact(e, f);
        field::lemma_mul_exact(g, h);
        field::lemma_mul_exact(f, g);
        field::lemma_mul_exact(e, h);
    }
    let r: Ge = Ge { x: fe_mul(&e, &f), y: fe_mul(&g, &h), z: fe_mul(&f, &g), t: fe_mul(&e, &h) };
    proof {
        lemma_carried_loose(r.x);
        lemma_carried_loose(r.y);
        lemma_carried_loose(r.z);
        lemma_carried_loose(r.t);
    }
    r
}

pub proof fn lemma_weaken(a: Fe, lo: int, hi: int)
    requires
        field::limbs_at_most(a, lo),
        lo <= hi,
    ensures
        field::limbs_at_most(a, hi),
{
    assert forall|i: int| 0 <= i < 16 implies #[trigger] a[i] <= hi by {
        assert(a[i] <= lo);
    }
}

/// Twice a point.
pub fn ge_double(p: &Ge) -> (r: Ge)
    requires
        usable(*p),
    ensures
        coords(r) == curve::ext_add(coords(*p), coords(*p)),
        field::carried(r.x) && field::carried(r.y) && field::carried(r.z) && field::carried(r.t),
        usable(r),
{
    ge_add(p, p)
}

/// Adds the affine point `(qx, qy)`, with `q_dt = d qx qy` precomputed.
pub fn ge_add_mixed(p: &Ge, qx: &Fe, qy: &Fe, q_dt: &Fe) -> (r: Ge)
    requires
        usable(*p),
        loose(*qx),
        loose(*qy),
        loose(*q_dt),
    ensures
        coords(r) == curve::ext_add_mixed(
            coords(*p),
            field::residue(*qx),
            field::residue(*qy),
            field::residue(*q_dt),
        ),
        field::carried(r.x) && field::carried(r.y) && field::carried(r.z) && field::carried(r.t),
        usable(r),
{
    proof {
        lemma_loose_mul(p.x, *qx);
        lemma_loose_mul(p.y, *qy);
        lemma_loose_mul(p.t, *q_dt);
    }
    let a: Fe = fe_mul(&p.x, qx);
    let b: Fe = fe_mul(&p.y, qy);
    let c: Fe = fe_mul(&p.t, q_dt);
    sum_from_parts(&p.x, &p.y, qx, qy, &a, &b, &c, &p.z)
}

/// The multiple of `b` by a little-endian scalar: double and add from the top bit.
pub fn ge_scalarmult_base(b: &Ge, scalar: &[u8; 32]) -> (q: Ge)
    requires
        usable(*b),
    ensures
        coords(q) == curve::ladder(coords(*b), radix::le_value(scalar@) as nat),
        usable(q),
{
    let ghost s = radix::byte_ints(scalar@);
    let ghost base = coords(*b);
    let mut q: Ge = ge_identity();
    assert(radix::eval(256, s.skip(32), 0) == 0);
    let mut i: usize = 32;
    while i > 0
        invariant
            i <= 32,
            usable(*b),
            base == coords(*b),
            s == radix::byte_ints(scalar@),
            usable(q),
            radix::eval(256, s.skip(i as int), (32 - i) as nat) >= 0,
            coords(q) == curve::ladder(
                base,
                radix::eval(256, s.skip(i as int), (32 - i) as nat) as nat,
            ),
        decreases i,
    {
        let ghost high = radix::eval(256, s.skip(i as int), (32 - i) as nat);
        i = i - 1;
        let byte: u32 = scalar[i] as u32;
        let mut bit: u32 = 8;
        proof {
            assert(byte >> 8 == 0) by (bit_vector)
                requires
                    byte < 256,
            ;
            assert(radix::weight(2, 0) == 1);
            lemma_mul_basics(high);
        }
        while bit > 0
            invariant
                bit <= 8,
                byte < 256,
                high >= 0,
                usable(*b),
                base == coords(*b),
                usable(q),
                high * radix::weight(2, (8 - bit) as nat) >= 0,
                coords(q) == curve::ladder(
                    base,
                    (high * radix::weight(2, (8 - bit) as nat) + (byte >> bit)) as nat,
                ),
            decreases bit,
        {
            let ghost w = radix::weight(2, (8 - bit) as nat);
            let ghost e = (high * w + (byte >> bit)) as nat;
            bit = bit - 1;
            q = ge_double(&q);
            proof {
                curve::lemma_ladder_step(base, e);
                assert(byte >> bit == 2 * (byte >> ((bit + 1) as u32)) + ((byte >> bit) & 1))
                    by (bit_vector)
                    requires
                        bit < 8,
                        byte < 256,
                ;
                assert((byte >> bit) & 1 == 0 || (byte >> bit) & 1 == 1) by (bit_vector);
                assert(radix::weight(2, (8 - bit) as nat) == 2 * w);
                assert(high * (2 * w) == 2 * (high * w)) by (nonlinear_arith);
            }
            if (byte >> bit) & 1 == 1 {
                q = ge_add(&q, b);
            }
        }
        proof {
            assert(byte >> 0 == byte) by (bit_vector);
            reveal_with_fuel(radix::weight, 9);
            assert(radix::weight(2, 8) == 256);
            let t = s.skip(i as int);
            assert(t.skip(1) =~= s.skip(i + 1));
            radix::lemma_eval_cons(256, t, (31 - i) as nat);
        }
    }
    proof {
        assert(s.skip(0) =~= s);
    }
    q
}

/// A 32-byte number below 2^255 has its top bit free; setting it adds 2^255.
proof fn lemma_top_bit(before: Seq<u8>, after: Seq<u8>, parity: u8)
    requires
        before.len() == 32,
        radix::le_value(before) < radix::prime(),
        parity == 0 || parity == 1,
        after == before.update(31, before[31] | (parity << 7)),
    ensures
        radix::le_value(after) == radix::le_value(before) + curve::sign_weight() * parity,
{
    let s = radix::byte_ints(before);
    let b = before[31];
    let w = radix::weight(256, 31);
    radix::lemma_weight_limits();
    assert(radix::weight(256, 32) == 256 * w);
    radix::lemma_eval_nonneg(256, s, 31);
    assert(radix::eval(256, s, 32) == radix::eval(256, s, 31) + s[31] * w);
    if b >= 128 {
        lemma_mul_inequality(128, b as int, w);
    }
    assert(b | (parity << 7) == b + 128 * parity) by (bit_vector)
        requires
            b < 128,
            parity == 0 || parity == 1,
    ;
    radix::lemma_eval_update(256, s, 31, (b + 128 * parity) as int, 32);
    assert(radix::byte_ints(after) =~= s.update(31, (b + 128 * parity) as int));
    if parity == 0 {
        lemma_mul_basics(w);
    } else {
        assert((b + 128 * parity - s[31]) * w == 128 * w);
    }
}

/// Multiples of 2^16 do not change a parity.
proof fn lemma_parity_of_sum(v: int, low: int, rest: int)
    requires
        v == low + 65536 * rest,
    ensures
        v % 2 == low % 2,
{
}

/// The value of a frozen element has the parity of its lowest limb.
#[verifier::spinoff_prover]
proof fn lemma_parity(f: Fe)
    ensures
        field::fe_value(f) % 2 == f[0] % 2,
{
    let s = field::ints(f);
    let low = s[0];
    let rest = radix::eval(65536, s.skip(1), 15);
    let v = radix::eval(65536, s, 16);
    assert(v == low + 65536 * rest) by {
        radix::lemma_eval_cons(65536, s, 15);
    }
    lemma_parity_of_sum(v, low, rest);
}

/// Packs affine coordinates: the bytes of `y` with the parity of `x` in the top bit.
pub(crate) fn pack_point(x_aff: &Fe, y_aff: &Fe) -> (bytes: [u8; 32])
    requires
        field::carried(*x_aff),
        field::carried(*y_aff),
    ensures
        radix::le_value(bytes@) == field::residue(*y_aff) + curve::sign_weight() * (field::residue(
            *x_aff,
        ) % 2),
{
    let mut bytes: [u8; 32] = fe_pack(y_aff);
    let fx: Fe = fe_freeze(x_aff);
    let parity: u8 = (fx[0] & 1) as u8;
    let ghost before = bytes@;
    proof {
        lemma_carry_room(*x_aff);
        lemma_carry_room(*y_aff);
        gf::lemma_reduced(field::fe_value(*y_aff));
        lemma_parity(fx);
        let v = fx[0];
        assert(v & 1 == v % 2) by (bit_vector);
    }
    bytes[31] = bytes[31] | (parity << 7);
    proof {
        lemma_top_bit(before, bytes@, parity);
    }
    bytes
}

/// Carried limbs have room for carries.
pub proof fn lemma_carry_room(a: Fe)
    requires
        field::carried(a),
    ensures
        field::carry_room(field::ints(a)),
{
    let s = field::ints(a);
    assert forall|i: int| 1 <= i < 16 implies #[trigger] s[i] <= 0xFFFF_0000 by {
        assert(a[i] < 65536);
    }
}

/// The compressed form of a point.
pub fn ge_compress(p: &Ge) -> (bytes: [u8; 32])
    requires
        usable(*p),
    ensures
        radix::le_value(bytes@) == curve::compressed(coords(*p)),
{
    proof {
        lemma_loose_mul(p.z, p.z);
        lemma_weaken(p.z, 0x4_0000, 0x8_0000);
    }
    let z_inv: Fe = fe_invert(&p.z);
    proof {
        lemma_carried_loose(z_inv);
        lemma_loose_mul(p.x, z_inv);
        lemma_loose_mul(p.y, z_inv);
    }
    let x_aff: Fe = fe_mul(&p.x, &z_inv);
    let y_aff: Fe = fe_mul(&p.y, &z_inv);
    pack_point(&x_aff, &y_aff)
}

/// The point with affine coordinates `bx`, `by`, little-endian.
pub fn basepoint(bx: &[u8; 32], by: &[u8; 32]) -> (r: Ge)
    ensures
        coords(r) == (curve::Ext {
            x: radix::le_value(bx@) % radix::prime(),
            y: radix::le_value(by@) % radix::prime(),
            z: 1,
            t: gf::times(radix::le_value(bx@), radix::le_value(by@)),
        }),
        usable(r),
{
    let x: Fe = fe_from_bytes(bx);
    let y: Fe = fe_from_bytes(by);
    let z: Fe = fe_one();
    let t: Fe = fe_from_bytes(&field_mul_p(bx, by));
    proof {
        gf::lemma_reduced(1);
        gf::lemma_reduced(radix::le_value(bx@) * radix::le_value(by@));
        lemma_digits_loose(x);
        lemma_digits_loose(y);
        lemma_digits_loose(t);
    }
    Ge { x, y, z, t }
}

proof fn lemma_digits_loose(a: Fe)
    requires
        field::digits16(a),
    ensures
        loose(a),
{
    assert forall|i: int| 0 <= i < 16 implies #[trigger] a[i] <= 0x4_0000 by {
        assert(a[i] < 65536);
    }
}

/// An affine point with the product of its coordinates.
#[derive(Clone, Copy)]
pub struct Affine {
    pub x: Fe,
    pub y: Fe,
    pub xy: Fe,
}

/// Coordinates that can be computed with, and subtracted.
pub open spec fn usable_affine(a: Affine) -> bool {
    &&& field::limbs_at_most(a.x, 0x1_FFDA)
    &&& field::limbs_at_most(a.y, 0x1_FFDA)
    &&& field::limbs_at_most(a.xy, 0x1_FFDA)
}

/// The point that the coordinates stand for.
pub open spec fn point(a: Affine) -> (int, int) {
    (field::residue(a.x), field::residue(a.y))
}

/// The affine coordinates of a point.
pub fn affine_from_ge(p: &Ge) -> (r: Affine)
    requires
        usable(*p),
    ensures
        point(r) == curve::affine(coords(*p)),
        field::residue(r.xy) == gf::times(point(r).0, point(r).1),
        usable_affine(r),
{
    proof {
        lemma_loose_mul(p.z, p.z);
        lemma_weaken(p.z, 0x4_0000, 0x8_0000);
    }
    let zinv: Fe = fe_invert(&p.z);
    proof {
        lemma_carried_loose(zinv);
    }
    affine_from_ge_zinv(p, &zinv)
}

/// The affine coordinates of a point, given the inverse of `Z`.
pub fn affine_from_ge_zinv(p: &Ge, zinv: &Fe) -> (r: Affine)
    requires
        usable(*p),
        loose(*zinv),
    ensures
        field::residue(r.x) == gf::times(field::residue(p.x), field::residue(*zinv)),
        field::residue(r.y) == gf::times(field::residue(p.y), field::residue(*zinv)),
        field::residue(r.xy) == gf::times(field::residue(r.x), field::residue(r.y)),
        usable_affine(r),
{
    proof {
        lemma_loose_mul(p.x, *zinv);
        lemma_loose_mul(p.y, *zinv);
    }
    let x: Fe = fe_mul(&p.x, zinv);
    let y: Fe = fe_mul(&p.y, zinv);
    proof {
        invert::lemma_carried_exact(x, y);
    }
    let xy: Fe = fe_mul(&x, &y);
    proof {
        lemma_carried_loose(x);
        lemma_carried_loose(y);
        lemma_carried_loose(xy);
    }
    Affine { x, y, xy }
}

/// Adding, doubling and multiplying by a scalar are those of the curve's group, and the packed
/// form is `y` with the parity of `x` on top.
pub proof fn law_points(
    p: Ge,
    q: Ge,
    sum: Ge,
    double: Ge,
    scalar: [u8; 32],
    multiple: Ge,
    packed: [u8; 32],
)
    requires
        curve::valid(coords(p)),
        curve::valid(coords(q)),
        call_ensures(ge_add, (&p, &q), sum),
        call_ensures(ge_double, (&p,), double),
        call_ensures(ge_scalarmult_base, (&p, &scalar), multiple),
        call_ensures(ge_compress, (&p,), packed),
    ensures
        curve::affine(coords(sum)) == curve::add_points(
            curve::affine(coords(p)),
            curve::affine(coords(q)),
        ),
        curve::affine(coords(double)) == curve::add_points(
            curve::affine(coords(p)),
            curve::affine(coords(p)),
        ),
        curve::affine(coords(multiple)) == group::multiple(
            curve::affine(coords(p)),
            radix::le_value(scalar@) as nat,
        ),
        radix::le_value(packed@)
            % 0x8000000000000000000000000000000000000000000000000000000000000000int
            == curve::affine(coords(p)).1,
        radix::le_value(packed@)
            / 0x8000000000000000000000000000000000000000000000000000000000000000int
            == curve::affine(coords(p)).0 % 2,
{
    curve::law_sum_is_affine_sum(coords(p), coords(q));
    curve::law_sum_is_affine_sum(coords(p), coords(p));
    group::law_ladder_is_multiple(coords(p), radix::le_value(scalar@) as nat);
    curve::law_compressed(coords(p));
}

} // verus!
