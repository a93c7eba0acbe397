//! Field and curve edge cases.

use ovds::batch::{batch_candidate_ys, batch_compress_current, batch_invert, vector_division};
use ovds::bytefield::{field_mul_p, limbs16_to_ref, ref_add, ref_mul, ref_pow, P_BYTES};
use ovds::edwards::{
    affine_from_ge, basepoint, d_const, ge_add, ge_compress, ge_double, ge_identity,
    ge_scalarmult_base, Ge,
};
use ovds::field::{
    fe_add, fe_carry, fe_freeze, fe_from_bytes, fe_mul, fe_one, fe_pack, fe_sq, fe_sub, fe_zero, Fe,
};
use ovds::gpu::{BX_LE, BY_LE};
use ovds::invert::fe_invert;

fn small(n: u8) -> [u8; 32] {
    let mut b = [0u8; 32];
    b[0] = n;
    b
}

fn base() -> Ge {
    basepoint(&BX_LE, &BY_LE)
}

fn negated(p: &Ge) -> Ge {
    Ge {
        x: fe_freeze(&fe_sub(&fe_zero(), &p.x)),
        y: p.y,
        z: p.z,
        t: fe_freeze(&fe_sub(&fe_zero(), &p.t)),
    }
}

#[test]
fn products_near_the_top_of_the_range() {
    // (2^256 - 1)^2 = 37^2 mod p, since 2^256 = 38.
    let top = [0xFFu8; 32];
    let mut want = [0u8; 32];
    want[..2].copy_from_slice(&1369u16.to_le_bytes());
    assert_eq!(field_mul_p(&top, &top), want);
    assert_eq!(field_mul_p(&P_BYTES, &top), [0u8; 32]);
    assert_eq!(field_mul_p(&small(7), &small(6)), small(42));
    assert_eq!(ref_mul(&small(7), &small(6)), small(42));
}

#[test]
fn base_point_has_y_four_fifths() {
    assert_eq!(field_mul_p(&small(5), &BY_LE), small(4));
    assert_eq!(BX_LE[0] % 2, 0);
}

#[test]
fn sums_and_powers() {
    let mut minus_one = P_BYTES;
    minus_one[0] -= 1;
    assert_eq!(ref_add(&minus_one, &small(1)), [0u8; 32]);
    assert_eq!(ref_add(&minus_one, &small(3)), small(2));
    assert_eq!(ref_pow(&small(2), &small(5)), small(32));
    assert_eq!(ref_pow(&small(9), &small(0)), small(1));
}

fn times_squared(a: &Fe, n: u32) -> Fe {
    let mut r = *a;
    for _ in 0..n {
        r = fe_sq(&r);
    }
    r
}

#[test]
fn inversion_is_a_fixed_chain() {
    // Limbs of 2^23 lose a carry when they are squared; the chain goes on with what is left.
    for limb in [0u32, 1, 0xffff, 0x8_0000, 1 << 23, 1 << 25] {
        let mut z = fe_zero();
        for i in 0..16 {
            z[i] = limb;
        }
        let z9 = fe_mul(&z, &times_squared(&z, 3));
        let z11 = fe_mul(&fe_sq(&z), &z9);
        let e5 = fe_mul(&z9, &fe_sq(&z11));
        let e10 = fe_mul(&e5, &times_squared(&e5, 5));
        let e20 = fe_mul(&times_squared(&e10, 10), &e10);
        let e40 = fe_mul(&times_squared(&e20, 20), &e20);
        let e50 = fe_mul(&times_squared(&e40, 10), &e10);
        let e100 = fe_mul(&times_squared(&e50, 50), &e50);
        let e200 = fe_mul(&times_squared(&e100, 100), &e100);
        let e250 = fe_mul(&times_squared(&e200, 50), &e50);
        assert_eq!(fe_invert(&z), fe_mul(&times_squared(&e250, 5), &z11));
    }
}

#[test]
fn inverses() {
    assert_eq!(fe_pack(&fe_invert(&fe_zero())), [0u8; 32]);
    assert_eq!(fe_pack(&fe_invert(&fe_one())), small(1));
    let seven = fe_from_bytes(&small(7));
    assert_eq!(fe_pack(&fe_mul(&seven, &fe_invert(&seven))), small(1));
    let all = batch_invert(&[seven, fe_one(), fe_from_bytes(&small(9))]);
    assert_eq!(fe_pack(&all[0]), fe_pack(&fe_invert(&seven)));
    assert_eq!(fe_pack(&all[1]), small(1));
    let spoilt = batch_invert(&[seven, fe_zero()]);
    assert_eq!(fe_pack(&spoilt[0]), [0u8; 32]);
}

#[test]
fn one_zero_denominator_spoils_a_batch() {
    let a = fe_from_bytes(&small(6));
    let b = fe_from_bytes(&small(3));
    let good = vector_division(&[a, b], &[b, a]);
    assert_eq!(fe_pack(&good[0]), small(2));
    let bad = vector_division(&[a, b], &[b, fe_zero()]);
    assert_eq!(fe_pack(&bad[0]), [0u8; 32]);
}

#[test]
fn carries_keep_the_value() {
    let mut wide = fe_zero();
    wide[0] = 0x3_0005;
    wide[15] = 0x1_0002;
    assert_eq!(fe_pack(&fe_carry(&wide)), fe_pack(&wide));
    assert_eq!(limbs16_to_ref(&wide), fe_pack(&wide));
    let a = fe_from_bytes(&small(200));
    let b = fe_from_bytes(&small(100));
    assert_eq!(fe_pack(&fe_add(&a, &b))[..2], [44, 1]);
    assert_eq!(fe_pack(&fe_sub(&a, &b)), small(100));
}

#[test]
fn points_form_a_group() {
    let b = base();
    let p = ge_scalarmult_base(&b, &small(77));
    let q = ge_scalarmult_base(&b, &small(5));
    let r = ge_scalarmult_base(&b, &small(200));
    assert_eq!(
        ge_compress(&ge_add(&ge_add(&p, &q), &r)),
        ge_compress(&ge_add(&p, &ge_add(&q, &r)))
    );
    assert_eq!(ge_compress(&ge_add(&p, &q)), ge_compress(&ge_add(&q, &p)));
    assert_eq!(ge_compress(&ge_add(&p, &ge_identity())), ge_compress(&p));
    assert_eq!(ge_compress(&ge_add(&p, &negated(&p))), ge_compress(&ge_identity()));
    assert_eq!(ge_compress(&ge_double(&p)), ge_compress(&ge_add(&p, &p)));
    assert_eq!(ge_compress(&ge_add(&p, &q)), ge_compress(&ge_scalarmult_base(&b, &small(82))));
}

#[test]
fn walk_passes_through_the_next_scalars() {
    let b = base();
    let d_tb = fe_mul(&b.t, &d_const());
    let start = ge_scalarmult_base(&b, &small(100));
    let keys = batch_compress_current(&start, &b, &d_tb, 5);
    for (i, key) in keys.iter().enumerate() {
        let want = ge_compress(&ge_scalarmult_base(&b, &small(100 + i as u8)));
        assert_eq!(*key, want, "step {}", i);
    }
    assert!(batch_compress_current(&start, &b, &d_tb, 0).is_empty());
}

#[test]
fn candidates_go_both_ways() {
    let b = base();
    let center = affine_from_ge(&ge_scalarmult_base(&b, &small(100)));
    let offsets = [
        affine_from_ge(&ge_scalarmult_base(&b, &small(3))),
        affine_from_ge(&ge_scalarmult_base(&b, &small(40))),
    ];
    let ys = batch_candidate_ys(&center, &offsets);
    for (i, n) in [103u8, 140, 97, 60].iter().enumerate() {
        let mut want = ge_compress(&ge_scalarmult_base(&b, &small(*n)));
        want[31] &= 0x7F;
        assert_eq!(fe_pack(&ys[i]), want);
    }
}
