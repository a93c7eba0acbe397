use curve25519_dalek::edwards::EdwardsPoint;
use curve25519_dalek::scalar::Scalar;
use ovds::batch::{
    batch_candidate_ys, batch_candidate_ys_proj, batch_compress_current, vector_division,
    vector_division_leftfold,
};
use ovds::bytefield::{
    field_mul_p, geq_p, limbs16_to_ref, reduce_once, ref_mul, ref_pow, sub_p, P_BYTES,
};
use ovds::edwards::{
    affine_from_ge, basepoint, d_const, ge_add, ge_add_mixed, ge_compress, ge_double, ge_identity,
    ge_scalarmult_base, Affine, Ge,
};
use ovds::field::{
    fe_add, fe_freeze, fe_from_bytes, fe_mul, fe_one, fe_pack, fe_sq, fe_sub, fe_zero, Fe,
};
use ovds::gpu::{BX_LE, BY_LE};
use ovds::invert::fe_invert;

fn rand_reduced(seed: u64) -> ([u8; 32], Fe) {
    // simple LCG to fill bytes, then reduce mod p
    let mut s = seed;
    let mut bytes = [0u8; 32];
    for b in bytes.iter_mut() {
        s = s
            .wrapping_mul(6364136223846793005)
            .wrapping_add(1442695040888963407);
        *b = (s >> 33) as u8;
    }
    bytes[31] &= 0x7F; // keep < 2^255, likely < p
    let mut r = bytes;
    for _ in 0..2 {
        if geq_p(&r) {
            sub_p(&mut r);
        }
    }
    (r, fe_from_bytes(&r))
}

#[test]
fn pack_roundtrip() {
    for seed in 0..50 {
        let (bytes, fe) = rand_reduced(seed);
        assert_eq!(fe_pack(&fe), bytes, "pack roundtrip seed {seed}");
    }
}

#[test]
fn limbs_to_ref_matches_pack() {
    for seed in 0..50 {
        let (bytes, fe) = rand_reduced(seed);
        assert_eq!(limbs16_to_ref(&fe), bytes, "limbs_to_ref seed {seed}");
    }
}

#[test]
fn mul_matches_ref() {
    for seed in 0..100 {
        let (ab, a) = rand_reduced(seed);
        let (bb, b) = rand_reduced(seed.wrapping_add(777));
        let got = limbs16_to_ref(&fe_mul(&a, &b));
        let want = ref_mul(&ab, &bb);
        assert_eq!(got, want, "fe_mul seed {seed}\n a={ab:02x?}\n b={bb:02x?}");
    }
}

#[test]
fn add_matches_ref() {
    for seed in 0..100 {
        let (ab, a) = rand_reduced(seed);
        let (bb, b) = rand_reduced(seed.wrapping_add(13));
        let got = limbs16_to_ref(&fe_add(&a, &b));
        let want = {
            let mut o = ab;
            let mut carry = 0u16;
            for i in 0..32 {
                let v = o[i] as u16 + bb[i] as u16 + carry;
                o[i] = (v & 0xFF) as u8;
                carry = v >> 8;
            }
            reduce_once(&mut o, carry);
            o
        };
        assert_eq!(got, want, "fe_add seed {seed}");
    }
}

#[test]
fn sub_matches_ref() {
    for seed in 0..100 {
        let (ab, a) = rand_reduced(seed);
        let (bb, b) = rand_reduced(seed.wrapping_add(99));
        let got = limbs16_to_ref(&fe_sub(&a, &b));
        // ref: (a - b) mod p = (a + p - b) mod p
        let want = ref_mul(&ref_sub(&ab, &bb), &{
            let mut o = [0u8; 32];
            o[0] = 1;
            o
        });
        assert_eq!(got, want, "fe_sub seed {seed}");
    }
}

fn ref_sub(a: &[u8; 32], b: &[u8; 32]) -> [u8; 32] {
    // a - b mod p
    let mut o = [0u8; 32];
    let mut borrow = 0i16;
    for i in 0..32 {
        let v = a[i] as i16 - b[i] as i16 - borrow;
        if v < 0 {
            o[i] = (v + 256) as u8;
            borrow = 1;
        } else {
            o[i] = v as u8;
            borrow = 0;
        }
    }
    if borrow == 1 {
        // add p
        let mut carry = 0u16;
        for i in 0..32 {
            let v = o[i] as u16 + P_BYTES[i] as u16 + carry;
            o[i] = (v & 0xFF) as u8;
            carry = v >> 8;
        }
    }
    o
}

#[test]
fn invert_matches_ref() {
    // p - 2
    let mut pm2 = P_BYTES;
    pm2[0] = pm2[0].wrapping_sub(2); // 0xED - 2 = 0xEB
    for seed in 1..20 {
        let (ab, a) = rand_reduced(seed);
        let got = limbs16_to_ref(&fe_invert(&a));
        let want = ref_pow(&ab, &pm2);
        assert_eq!(got, want, "fe_invert seed {seed}");
        // sanity: a * inv(a) == 1
        let prod = ref_mul(&ab, &got);
        let mut one = [0u8; 32];
        one[0] = 1;
        assert_eq!(prod, one, "a*inv(a) seed {seed}");
    }
}


fn canonical_basepoint() -> [u8; 32] {
    // Ed25519 basepoint compression: LE 0x58 then 0x66 in all other bytes.
    let mut b = [0x66u8; 32];
    b[0] = 0x58;
    b
}

#[test]
fn basepoint_compresses_correctly() {
    let bp = basepoint(&BX_LE, &BY_LE);
    assert_eq!(ge_compress(&bp), canonical_basepoint());
}

#[test]
fn basepoint_t_is_xy() {
    // T must equal X*Y mod p (since Z=1). Independent check via field_mul_p.
    let bp = basepoint(&BX_LE, &BY_LE);
    let xy = field_mul_p(&BX_LE, &BY_LE);
    assert_eq!(fe_pack(&bp.t), xy);
}

#[test]
fn ge_double_identity_is_identity() {
    let id = ge_identity();
    let dd = ge_double(&id);
    assert_eq!(ge_compress(&dd), ge_compress(&id), "2*identity != identity");
}

#[test]
fn ge_add_identity_is_noop() {
    let bp = basepoint(&BX_LE, &BY_LE);
    let id = ge_identity();
    let sum = ge_add(&id, &bp);
    assert_eq!(ge_compress(&sum), canonical_basepoint(), "id + B != B");
}

#[test]
fn ge_add_bb_matches_dalek() {
    // 2B via addition only (uses T).
    let bp = basepoint(&BX_LE, &BY_LE);
    let two_b = ge_add(&bp, &bp);
    let expected = EdwardsPoint::mul_base(&Scalar::from(2u64)).compress().0;
    assert_eq!(ge_compress(&two_b), expected, "B+B mismatch");
}

#[test]
fn ge_double_matches_dalek() {
    let bp = basepoint(&BX_LE, &BY_LE);
    let two_b = ge_double(&bp);
    let two = Scalar::from(2u64);
    let expected = EdwardsPoint::mul_base(&two).compress().0;
    assert_eq!(ge_compress(&two_b), expected, "2B mismatch");
}

#[test]
fn ge_add_matches_dalek() {
    let bp = basepoint(&BX_LE, &BY_LE);
    // 3B = 2B + B
    let three_b = ge_add(&ge_double(&bp), &bp);
    let expected = EdwardsPoint::mul_base(&Scalar::from(3u64)).compress().0;
    assert_eq!(ge_compress(&three_b), expected, "3B mismatch");
}

#[test]
fn ge_add_mixed_matches_full_add_and_dalek() {
    // The walk step P + B done with the mixed add must equal the full ge_add
    // and dalek for every step. dTb = d * T_B.
    let bp = basepoint(&BX_LE, &BY_LE);
    let d_tb = fe_mul(&bp.t, &d_const());
    let mut p_full = basepoint(&BX_LE, &BY_LE);
    let mut p_mixed = basepoint(&BX_LE, &BY_LE);
    for k in 2u64..=20 {
        p_full = ge_add(&p_full, &bp);
        p_mixed = ge_add_mixed(&p_mixed, &bp.x, &bp.y, &d_tb);
        let c_full = ge_compress(&p_full);
        let c_mixed = ge_compress(&p_mixed);
        assert_eq!(c_mixed, c_full, "mixed != full at {k}B");
        let expected = EdwardsPoint::mul_base(&Scalar::from(k)).compress().0;
        assert_eq!(c_mixed, expected, "mixed {k}B mismatch vs dalek");
    }
}

#[test]
fn add_to_doubled_identity() {
    let bp = basepoint(&BX_LE, &BY_LE);
    let dbl_id = ge_double(&ge_identity());
    // (0,-1,-1,0) + B should still be B.
    let sum = ge_add(&dbl_id, &bp);
    assert_eq!(ge_compress(&sum), canonical_basepoint(), "dbl_id + B != B");
    // doubling the non-canonical identity should still compress to identity
    let dd = ge_double(&dbl_id);
    assert_eq!(
        ge_compress(&dd),
        ge_compress(&ge_identity()),
        "double(dbl_id) != identity"
    );
}

#[test]
fn sq_of_sum_of_2p_reps() {
    // X = 2p, Y = 2p+1.  X+Y = 4p+1 ≡ 1.  (X+Y)^2 must be 1.
    let mut x = [0xFFFFu32; 16];
    x[0] = 0xFFDA;
    let mut y = [0xFFFFu32; 16];
    y[0] = 0xFFDB;
    let s = fe_add(&x, &y); // limbs ~0x1FFFE
    let sq = fe_mul(&s, &s);
    let mut one = [0u8; 32];
    one[0] = 1;
    assert_eq!(limbs16_to_ref(&sq), one, "(4p+1)^2 should be 1");
}

#[test]
fn mul_of_2p_inputs() {
    let mut two_p = [0xFFFFu32; 16];
    two_p[0] = 0xFFDA;
    // 2p * 2p === 0
    assert_eq!(limbs16_to_ref(&fe_mul(&two_p, &two_p)), [0u8; 32], "2p*2p");
    // 2p * (2p+1) === 0
    let mut two_p1 = two_p;
    two_p1[0] = 0xFFDB;
    assert_eq!(
        limbs16_to_ref(&fe_mul(&two_p, &two_p1)),
        [0u8; 32],
        "2p*(2p+1)"
    );
    // freezing first should also give 0
    let fz = fe_freeze(&two_p);
    assert_eq!(limbs16_to_ref(&fe_mul(&fz, &fz)), [0u8; 32], "freeze(2p)^2");
}

#[test]
fn freeze_reduces_multiples_of_p() {
    // 2p = [0xFFDA, 0xFFFF*15] must freeze to 0.
    let mut two_p = [0xFFFFu32; 16];
    two_p[0] = 0xFFDA;
    assert_eq!(fe_pack(&two_p), [0u8; 32], "2p should pack to 0");
    // p itself = [0xFFED, 0xFFFF*14, 0x7FFF]
    let mut p = [0xFFFFu32; 16];
    p[0] = 0xFFED;
    p[15] = 0x7FFF;
    assert_eq!(fe_pack(&p), [0u8; 32], "p should pack to 0");
}

#[test]
fn mul_of_zerorep_is_zero() {
    // E = (1 - 0) - 1 represented unreduced, times 1, must be 0.
    let one = fe_one();
    let zero = fe_zero();
    let inner = fe_sub(&one, &zero); // ~1, unreduced
    let e = fe_sub(&inner, &one); // ~0, unreduced (= 2^257-76)
    assert_eq!(limbs16_to_ref(&e), [0u8; 32], "e value should be 0 mod p");
    let prod = fe_mul(&e, &one);
    assert_eq!(limbs16_to_ref(&prod), [0u8; 32], "0 * 1 should be 0");
    assert_eq!(fe_pack(&prod), [0u8; 32], "0*1 packs to 0");
}

#[test]
fn manual_256_doublings_then_add() {
    // Regression: the incomplete "hwcd-3" doubling drifted the neutral
    // element off-curve after a few doublings. With the complete formula,
    // doubling the identity 256 times must stay the identity, and adding B
    // then yields B (this is the leading-zero-bits path of scalarmult).
    let bp = basepoint(&BX_LE, &BY_LE);
    let id_c = ge_compress(&ge_identity());
    let mut q = ge_identity();
    for n in 0..256 {
        q = ge_double(&q);
        assert_eq!(ge_compress(&q), id_c, "after {} doublings Q drifted", n + 1);
    }
    let q = ge_add(&q, &bp);
    assert_eq!(
        ge_compress(&q),
        canonical_basepoint(),
        "256x double then +B != B"
    );
}

#[test]
fn scalarmult_small_scalars() {
    let bp = basepoint(&BX_LE, &BY_LE);
    for k in 1u64..6 {
        let mut sc = [0u8; 32];
        sc[0] = k as u8;
        let q = ge_scalarmult_base(&bp, &sc);
        let expected = EdwardsPoint::mul_base(&Scalar::from(k)).compress().0;
        assert_eq!(ge_compress(&q), expected, "scalarmult by {k}");
    }
}

#[test]
fn scalarmult_matches_dalek() {
    let bp = basepoint(&BX_LE, &BY_LE);
    for seed in 1u64..8 {
        let mut sc = [0u8; 32];
        sc[0] = (seed * 37) as u8;
        sc[1] = (seed * 11) as u8;
        sc[8] = seed as u8;
        let q = ge_scalarmult_base(&bp, &sc);
        let expected = EdwardsPoint::mul_base(&Scalar::from_bytes_mod_order(sc))
            .compress()
            .0;
        assert_eq!(ge_compress(&q), expected, "scalarmult seed {seed}");
    }
}

// Canonical byte-based field ops for a reference point double.
fn fr_sub(a: &[u8; 32], b: &[u8; 32]) -> [u8; 32] {
    let mut o = [0u8; 32];
    let mut borrow = 0i16;
    for i in 0..32 {
        let v = a[i] as i16 - b[i] as i16 - borrow;
        if v < 0 {
            o[i] = (v + 256) as u8;
            borrow = 1;
        } else {
            o[i] = v as u8;
            borrow = 0;
        }
    }
    if borrow == 1 {
        let mut carry = 0u16;
        for i in 0..32 {
            let v = o[i] as u16 + P_BYTES[i] as u16 + carry;
            o[i] = (v & 0xFF) as u8;
            carry = v >> 8;
        }
    }
    o
}
fn fr_add(a: &[u8; 32], b: &[u8; 32]) -> [u8; 32] {
    let mut o = [0u8; 32];
    let mut carry = 0u16;
    for i in 0..32 {
        let v = a[i] as u16 + b[i] as u16 + carry;
        o[i] = (v & 0xFF) as u8;
        carry = v >> 8;
    }
    reduce_once(&mut o, carry);
    o
}
fn fr_neg(a: &[u8; 32]) -> [u8; 32] {
    fr_sub(&[0u8; 32], a)
}

#[test]
fn reference_double_matches_dalek() {
    // Compute 2B using only canonical byte ops + the verified field_mul_p.
    // This decides whether the HWCD formula itself is correct.
    let m = |a: &[u8; 32], b: &[u8; 32]| field_mul_p(a, b);
    let x = BX_LE;
    let y = BY_LE;
    let z = {
        let mut o = [0u8; 32];
        o[0] = 1;
        o
    };
    let two = {
        let mut o = [0u8; 32];
        o[0] = 2;
        o
    };
    let a = m(&x, &x);
    let b = m(&y, &y);
    let c = m(&m(&z, &z), &two);
    let d = fr_neg(&a);
    let xy = fr_add(&x, &y);
    let e = fr_sub(&fr_sub(&m(&xy, &xy), &a), &b);
    let g = fr_add(&d, &b);
    let f = fr_sub(&g, &c);
    let h = fr_sub(&d, &b);
    let x3 = m(&e, &f);
    let y3 = m(&g, &h);
    let z3 = m(&f, &g);
    let z_inv = ref_pow(&z3, &{
        let mut pm2 = P_BYTES;
        pm2[0] = pm2[0].wrapping_sub(2);
        pm2
    });
    let x_aff = m(&x3, &z_inv);
    let y_aff = m(&y3, &z_inv);
    let mut comp = y_aff;
    comp[31] |= (x_aff[0] & 1) << 7;
    let expected = EdwardsPoint::mul_base(&Scalar::from(2u64)).compress().0;
    assert_eq!(comp, expected, "reference HWCD double != dalek 2B");
}

#[test]
fn mul_at_2_18() {
    // fe_mul with limbs around 2^18 (the regime ge_double's E,F,H reach).
    let big: Fe = [0x3FFFF; 16];
    let got = limbs16_to_ref(&fe_mul(&big, &big));
    let r = limbs16_to_ref(&big);
    let want = ref_mul(&r, &r);
    assert_eq!(got, want, "fe_mul at 2^18 limbs");
}

#[test]
fn mul_handles_unreduced_inputs() {
    // feed sums (unreduced, limbs up to ~2^17) into fe_mul
    for seed in 0..50 {
        let (ab, a) = rand_reduced(seed);
        let (bb, b) = rand_reduced(seed.wrapping_add(5));
        let asum = fe_add(&a, &a); // 2a, unreduced
        let bsum = fe_add(&b, &b); // 2b
        let got = limbs16_to_ref(&fe_mul(&asum, &bsum));
        let two = {
            let mut o = [0u8; 32];
            o[0] = 2;
            o
        };
        let want = ref_mul(&ref_mul(&ab, &two), &ref_mul(&bb, &two));
        assert_eq!(got, want, "fe_mul unreduced seed {seed}");
    }
}

// ---- y-only additive walk ----

#[test]
fn vector_division_matches_naive() {
    let mut xs = Vec::new();
    let mut ys = Vec::new();
    for seed in 0..20u64 {
        xs.push(rand_reduced(seed).1);
        ys.push(rand_reduced(seed.wrapping_add(500)).1);
    }
    let got = vector_division(&xs, &ys);
    for i in 0..xs.len() {
        let want = fe_mul(&xs[i], &fe_invert(&ys[i]));
        assert_eq!(fe_pack(&got[i]), fe_pack(&want), "vec div idx {i}");
    }
}

fn dalek_y(k: &Scalar) -> [u8; 32] {
    let mut c = EdwardsPoint::mul_base(k).compress().0;
    c[31] &= 0x7F; // strip x-sign; y-only
    c
}

fn affine_offsets(bp: &Ge, half: usize) -> Vec<Affine> {
    // offsets[j] = (j+1)*B in affine coords
    let mut offsets = Vec::with_capacity(half);
    let mut acc = bp.clone();
    for _ in 0..half {
        offsets.push(affine_from_ge(&acc));
        acc = ge_add(&acc, bp);
    }
    offsets
}

#[test]
fn leftfold_division_matches() {
    let mut xs = Vec::new();
    let mut ys = Vec::new();
    for seed in 0..40u64 {
        xs.push(rand_reduced(seed).1);
        ys.push(rand_reduced(seed.wrapping_add(900)).1);
    }
    let a = vector_division(&xs, &ys);
    let b = vector_division_leftfold(&xs, &ys);
    for i in 0..xs.len() {
        assert_eq!(fe_pack(&a[i]), fe_pack(&b[i]), "leftfold vs harris idx {i}");
    }
}

#[test]
fn y_only_proj_matches_dalek() {
    // Exact kernel algorithm: projective/extended center + dual formula +
    // left-fold division, validated against dalek for +/-32 offsets.
    let bp = basepoint(&BX_LE, &BY_LE);
    let half = 32usize;
    let offsets = affine_offsets(&bp, half);
    let s0: u64 = 1000;
    let mut s0b = [0u8; 32];
    s0b[..8].copy_from_slice(&s0.to_le_bytes());
    let center = ge_scalarmult_base(&bp, &s0b);
    let ys = batch_candidate_ys_proj(&center, &offsets);
    let s0s = Scalar::from(s0);
    for o in 0..half {
        let m = Scalar::from((o as u64) + 1);
        assert_eq!(
            fe_pack(&ys[2 * o]),
            dalek_y(&(s0s + m)),
            "proj plus offset {}",
            o + 1
        );
        assert_eq!(
            fe_pack(&ys[2 * o + 1]),
            dalek_y(&(s0s - m)),
            "proj minus offset {}",
            o + 1
        );
    }
}

#[test]
fn y_only_walk_matches_dalek() {
    let bp = basepoint(&BX_LE, &BY_LE);
    let half = 32usize;
    let offsets = affine_offsets(&bp, half);
    let s0: u64 = 1000;
    let mut s0b = [0u8; 32];
    s0b[..8].copy_from_slice(&s0.to_le_bytes());
    let center = affine_from_ge(&ge_scalarmult_base(&bp, &s0b));
    let ys = batch_candidate_ys(&center, &offsets);
    let s0s = Scalar::from(s0);
    for j in 0..half {
        let m = Scalar::from((j as u64) + 1);
        assert_eq!(
            fe_pack(&ys[j]),
            dalek_y(&(s0s + m)),
            "y(P + {}B) mismatch",
            j + 1
        );
        assert_eq!(
            fe_pack(&ys[half + j]),
            dalek_y(&(s0s - m)),
            "y(P - {}B) mismatch",
            j + 1
        );
    }
}

#[test]
fn y_only_matches_current_compress_low_bytes() {
    // The y-only path must agree with the full-compress path on all bytes
    // except the x-sign bit (byte 31, bit 7), which y-only does not set.
    let bp = basepoint(&BX_LE, &BY_LE);
    let d_tb = fe_mul(&bp.t, &d_const());
    let s0: u64 = 555;
    let mut s0b = [0u8; 32];
    s0b[..8].copy_from_slice(&s0.to_le_bytes());
    let center_ge = ge_scalarmult_base(&bp, &s0b);
    let cur = batch_compress_current(&center_ge, &bp, &d_tb, 9);
    let half = 8usize;
    let offsets = affine_offsets(&bp, half);
    let center_aff = affine_from_ge(&center_ge);
    let ys = batch_candidate_ys(&center_aff, &offsets);
    for j in 0..half {
        let mut want = cur[j + 1]; // current candidate at offset (j+1)*B
        want[31] &= 0x7F;
        assert_eq!(fe_pack(&ys[j]), want, "y-only vs current at +{}B", j + 1);
    }
}

#[test]
fn fe_sq_matches_mul() {
    // The dedicated squaring sums the same products as a*a (cross terms
    // doubled), through the identical fold/pack tail, so it must produce
    // bit-identical limbs to fe_mul(a, a) for reduced and unreduced inputs.
    for seed in 0..100 {
        let (_, a) = rand_reduced(seed);
        assert_eq!(fe_sq(&a), fe_mul(&a, &a), "fe_sq reduced seed {seed}");
        let asum = fe_add(&a, &a); // 2a, unreduced (limbs ~2^17)
        assert_eq!(
            fe_sq(&asum),
            fe_mul(&asum, &asum),
            "fe_sq unreduced seed {seed}"
        );
    }
}
