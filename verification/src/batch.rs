//! Many divisions at the price of one inversion, and the candidate batches built on
//! them.

use crate::curve;
use crate::edwards;
use crate::edwards::{ge_add_mixed, pack_point, Affine, Ge};
use crate::field;
use crate::field::{fe_add, fe_mul, fe_one, fe_sub, fe_zero, Fe};
use crate::gf;
use crate::group;
use crate::invert::fe_invert;
use crate::radix;
use crate::ring;
use vstd::arithmetic::div_mod::*;
use vstd::arithmetic::mul::*;
use vstd::prelude::*;

verus! {

/// Every one of the first `n` elements can be multiplied.
pub open spec fn all_wide(s: Seq<Fe>, n: nat) -> bool {
    forall|i: int| 0 <= i < n ==> edwards::wide(#[trigger] s[i])
}

/// The field elements that the first `n` entries stand for.
pub open spec fn residues(s: Seq<Fe>, n: nat) -> Seq<int> {
    Seq::new(n, |i: int| field::residue(s[i]))
}

/// No element is 0.
pub open spec fn all_nonzero(s: Seq<int>) -> bool {
    forall|i: int| 0 <= i < s.len() ==> #[trigger] s[i] != 0
}

/// Every element is reduced.
pub open spec fn all_reduced(s: Seq<int>) -> bool {
    forall|i: int| 0 <= i < s.len() ==> 0 <= #[trigger] s[i] < radix::prime()
}

/// The product of the first `n` elements.
pub open spec fn running_product(s: Seq<int>, n: nat) -> int
    decreases n,
{
    if n == 0 {
        1
    } else {
        gf::times(running_product(s, (n - 1) as nat), s[n - 1])
    }
}

/// What a batch division gives at index `i`: the quotient, or 0 everywhere once any
/// denominator is 0.
pub open spec fn batch_quotient(num: Seq<int>, den: Seq<int>, i: int) -> int {
    if all_nonzero(den) {
        gf::over(num[i], den[i])
    } else {
        0
    }
}

proof fn lemma_product_range(s: Seq<int>, n: nat)
    ensures
        0 <= running_product(s, n) < radix::prime(),
{
    if n > 0 {
        gf::lemma_reduced(running_product(s, (n - 1) as nat) * s[n - 1]);
    }
}

proof fn lemma_residues_reduced(s: Seq<Fe>, n: nat)
    ensures
        all_reduced(residues(s, n)),
{
    assert forall|i: int| 0 <= i < n implies 0 <= #[trigger] residues(s, n)[i] < radix::prime() by {
        gf::lemma_reduced(field::fe_value(s[i]));
    }
}

/// The product is 0 exactly when a factor is.
proof fn lemma_product_zero(s: Seq<int>, n: nat)
    requires
        n <= s.len(),
        all_reduced(s),
    ensures
        running_product(s, n) != 0 <==> all_nonzero(s.take(n as int)),
        running_product(s, n) != 0 <==> !gf::zero(running_product(s, n)),
    decreases n,
{
    lemma_product_range(s, n);
    gf::lemma_reduced(running_product(s, n));
    let pre = s.take(n as int);
    if n > 0 {
        let m = (n - 1) as nat;
        lemma_product_zero(s, m);
        lemma_product_range(s, m);
        let a = running_product(s, m);
        let b = s[n - 1];
        assert(0 <= b < radix::prime());
        gf::lemma_reduced(a);
        gf::lemma_reduced(b);
        gf::lemma_ops(a, b);
        let short = s.take(m as int);
        if !gf::zero(a) && !gf::zero(b) {
            gf::lemma_no_zero_divisors(a, b);
            assert forall|i: int| 0 <= i < n implies #[trigger] pre[i] != 0 by {
                if i < m {
                    assert(short[i] != 0);
                }
            }
        } else if gf::zero(a) {
            gf::lemma_zero_mul(a, b);
            let i = choose|i: int| 0 <= i < m && short[i] == 0;
            assert(pre[i] == 0);
        } else {
            gf::lemma_zero_mul(b, a);
            assert(pre[n - 1] == 0);
        }
    }
}

/// The state of the backward pass before index `i`: the inverse of the product of the
/// first `i + 1` denominators, or 0 where the whole product is 0.
spec fn backward(t: int, den: Seq<int>, i: int) -> bool {
    if all_nonzero(den) {
        gf::same(t * running_product(den, (i + 1) as nat), 1)
    } else {
        t == 0
    }
}

/// The pass starts from the inverse of the whole product.
proof fn lemma_backward_start(t: int, den: Seq<int>)
    requires
        all_reduced(den),
        t == gf::inverse(running_product(den, den.len())),
    ensures
        backward(t, den, den.len() - 1),
{
    lemma_product_zero(den, den.len());
    assert(den.take(den.len() as int) =~= den);
    gf::lemma_inverse(running_product(den, den.len()));
    lemma_mul_is_commutative(t, running_product(den, den.len()));
}

/// One step of the backward pass: the quotient at `i`, and the state for `i - 1`.
proof fn lemma_backward_step(num: Seq<int>, den: Seq<int>, i: int, t: int)
    requires
        0 <= i < den.len(),
        all_reduced(den),
        backward(t, den, i),
    ensures
        gf::times(gf::times(running_product(den, i as nat), num[i]), t) == batch_quotient(
            num,
            den,
            i,
        ),
        gf::times(t, gf::times(running_product(den, i as nat), num[i])) == batch_quotient(
            num,
            den,
            i,
        ),
        backward(gf::times(t, den[i]), den, i - 1),
{
    let p = running_product(den, i as nat);
    let q = running_product(den, (i + 1) as nat);
    let x = num[i];
    let y = den[i];
    let u = gf::times(p, x);
    lemma_mul_is_commutative(u, t);
    gf::lemma_reduced(0);
    if all_nonzero(den) {
        gf::lemma_ops(p, y);
        gf::lemma_ops(p, x);
        gf::lemma_ops(t, u);
        gf::lemma_ops(t, y);
        // t q = t (p y) = 1
        gf::lemma_same_ops(t, t, q, p * y);
        // (t u) y = t (p x) y = (t (p y)) x = x
        gf::lemma_same_ops(t, t, u, p * x);
        gf::lemma_same_ops(gf::times(t, u), t * (p * x), y, y);
        ring::lemma_swap3(p, x, y);
        lemma_mul_is_associative(t, p * x, y);
        lemma_mul_is_associative(t, p * y, x);
        gf::lemma_same_ops(t * (p * y), 1, x, x);
        lemma_mul_basics(x);
        gf::lemma_reduced(y);
        assert(!gf::zero(y));
        gf::lemma_over_unique(x, y, gf::times(t, u));
        gf::lemma_reduced(t * u);
        // (t y) p = t (p y) = 1
        gf::lemma_same_ops(gf::times(t, y), t * y, p, p);
        lemma_mul_is_associative(t, y, p);
        lemma_mul_is_commutative(y, p);
        gf::lemma_reduced(1);
    } else {
        lemma_mul_basics(u);
        lemma_mul_basics(y);
    }
}

/// Simultaneous division `x[i] / y[i]` with one inversion. If any denominator is 0, all
/// results are 0.
pub fn vector_division(x: &[Fe], y: &[Fe]) -> (u: Vec<Fe>)
    requires
        1 <= x@.len() <= y@.len(),
        all_wide(x@, x@.len()),
        all_wide(y@, x@.len()),
    ensures
        u@.len() == x@.len(),
        forall|i: int|
            0 <= i < u@.len() ==> field::residue(#[trigger] u@[i]) == batch_quotient(
                residues(x@, x@.len()),
                residues(y@, x@.len()),
                i,
            ),
        forall|i: int| 0 <= i < u@.len() ==> field::carried(#[trigger] u@[i]),
{
    let n: usize = x.len();
    let ghost nums = residues(x@, n as nat);
    let ghost dens = residues(y@, n as nat);
    proof {
        lemma_residues_reduced(y@, n as nat);
    }
    let mut u: Vec<Fe> = Vec::new();
    u.push(fe_zero());
    let mut py: Fe = y[0];
    proof {
        assert(edwards::wide(y@[0]));
        gf::lemma_reduced(field::fe_value(y@[0]));
        reveal_with_fuel(running_product, 2);
        lemma_mul_basics(field::residue(y@[0]));
    }
    for i in 1..n
        invariant
            n == x@.len(),
            nums == residues(x@, n as nat),
            dens == residues(y@, n as nat),
            all_reduced(dens),
            1 <= n <= y@.len(),
            all_wide(x@, n as nat),
            all_wide(y@, n as nat),
            u@.len() == i,
            edwards::wide(py),
            field::residue(py) == running_product(dens, i as nat),
            forall|k: int|
                1 <= k < i ==> field::residue(#[trigger] u@[k]) == gf::times(
                    running_product(dens, k as nat),
                    nums[k],
                ) && field::carried(u@[k]),
    {
        proof {
            assert(edwards::wide(x@[i as int]) && edwards::wide(y@[i as int]));
            edwards::lemma_loose_mul(py, x@[i as int]);
            edwards::lemma_loose_mul(py, y@[i as int]);
        }
        let ui: Fe = fe_mul(&py, &x[i]);
        u.push(ui);
        py = fe_mul(&py, &y[i]);
        proof {
            edwards::lemma_carried_loose(py);
        }
    }
    proof {
        edwards::lemma_loose_mul(py, py);
        assert(field::limbs_at_most(py, 0x8_0000)) by {
            assert forall|i: int| 0 <= i < 16 implies #[trigger] py[i] <= 0x8_0000 by {}
        }
    }
    let mut py_inv: Fe = fe_invert(&py);
    proof {
        lemma_backward_start(field::residue(py_inv), dens);
        edwards::lemma_carried_loose(py_inv);
    }
    let mut i: usize = n;
    while i > 1
        invariant
            n == x@.len(),
            nums == residues(x@, n as nat),
            dens == residues(y@, n as nat),
            all_reduced(dens),
            1 <= i <= n <= y@.len(),
            all_wide(x@, n as nat),
            all_wide(y@, n as nat),
            u@.len() == n,
            edwards::wide(py_inv),
            backward(field::residue(py_inv), dens, i - 1),
            forall|k: int|
                1 <= k < i ==> field::residue(#[trigger] u@[k]) == gf::times(
                    running_product(dens, k as nat),
                    nums[k],
                ) && field::carried(u@[k]),
            forall|k: int|
                i <= k < n ==> field::residue(#[trigger] u@[k]) == batch_quotient(nums, dens, k) && field::carried(u@[k]),
        decreases i,
    {
        i = i - 1;
        let ui: Fe = u[i];
        proof {
            assert(edwards::wide(y@[i as int]));
            edwards::lemma_carried_loose(ui);
            edwards::lemma_loose_mul(py_inv, ui);
            edwards::lemma_loose_mul(py_inv, y@[i as int]);
            lemma_backward_step(nums, dens, i as int, field::residue(py_inv));
        }
        let q: Fe = fe_mul(&py_inv, &ui);
        u.set(i, q);
        py_inv = fe_mul(&py_inv, &y[i]);
        proof {
            edwards::lemma_carried_loose(py_inv);
        }
    }
    proof {
        assert(edwards::wide(x@[0]));
        edwards::lemma_loose_mul(py_inv, x@[0]);
        let t = field::residue(py_inv);
        let r = field::residue(x@[0]);
        lemma_backward_step(nums, dens, 0, t);
        lemma_mul_basics(r);
        gf::lemma_reduced(field::fe_value(x@[0]));
    }
    let q0: Fe = fe_mul(&py_inv, &x[0]);
    u.set(0, q0);
    u
}

/// The same division as a uniform left fold, which also takes an empty slice.
pub fn vector_division_leftfold(xnum: &[Fe], yden: &[Fe]) -> (out: Vec<Fe>)
    requires
        xnum@.len() <= yden@.len(),
        all_wide(xnum@, xnum@.len()),
        all_wide(yden@, xnum@.len()),
    ensures
        out@.len() == xnum@.len(),
        forall|i: int|
            0 <= i < out@.len() ==> field::residue(#[trigger] out@[i]) == batch_quotient(
                residues(xnum@, xnum@.len()),
                residues(yden@, xnum@.len()),
                i,
            ),
        forall|i: int| 0 <= i < out@.len() ==> field::carried(#[trigger] out@[i]),
{
    let n: usize = xnum.len();
    let ghost nums = residues(xnum@, n as nat);
    let ghost dens = residues(yden@, n as nat);
    proof {
        lemma_residues_reduced(yden@, n as nat);
    }
    let mut u: Vec<Fe> = Vec::new();
    let mut py: Fe = fe_one();
    proof {
        gf::lemma_reduced(1);
    }
    for i in 0..n
        invariant
            n == xnum@.len(),
            nums == residues(xnum@, n as nat),
            dens == residues(yden@, n as nat),
            all_reduced(dens),
            n <= yden@.len(),
            all_wide(xnum@, n as nat),
            all_wide(yden@, n as nat),
            u@.len() == i,
            edwards::wide(py),
            field::residue(py) == running_product(dens, i as nat),
            forall|k: int|
                0 <= k < i ==> field::residue(#[trigger] u@[k]) == gf::times(
                    running_product(dens, k as nat),
                    nums[k],
                ) && field::carried(u@[k]),
    {
        proof {
            assert(edwards::wide(xnum@[i as int]) && edwards::wide(yden@[i as int]));
            edwards::lemma_loose_mul(py, xnum@[i as int]);
            edwards::lemma_loose_mul(py, yden@[i as int]);
        }
        let ui: Fe = fe_mul(&py, &xnum[i]);
        u.push(ui);
        py = fe_mul(&py, &yden[i]);
        proof {
            edwards::lemma_carried_loose(py);
        }
    }
    proof {
        edwards::lemma_loose_mul(py, py);
        assert(field::limbs_at_most(py, 0x8_0000)) by {
            assert forall|i: int| 0 <= i < 16 implies #[trigger] py[i] <= 0x8_0000 by {}
        }
    }
    let mut t: Fe = fe_invert(&py);
    proof {
        lemma_backward_start(field::residue(t), dens);
        edwards::lemma_carried_loose(t);
    }
    let mut i: usize = n;
    while i > 0
        invariant
            n == xnum@.len(),
            nums == residues(xnum@, n as nat),
            dens == residues(yden@, n as nat),
            all_reduced(dens),
            0 <= i <= n <= yden@.len(),
            all_wide(xnum@, n as nat),
            all_wide(yden@, n as nat),
            u@.len() == n,
            edwards::wide(t),
            backward(field::residue(t), dens, i - 1),
            forall|k: int|
                0 <= k < i ==> field::residue(#[trigger] u@[k]) == gf::times(
                    running_product(dens, k as nat),
                    nums[k],
                ) && field::carried(u@[k]),
            forall|k: int|
                i <= k < n ==> field::residue(#[trigger] u@[k]) == batch_quotient(nums, dens, k) && field::carried(u@[k]),
        decreases i,
    {
        i = i - 1;
        let ui: Fe = u[i];
        proof {
            assert(edwards::wide(yden@[i as int]));
            edwards::lemma_carried_loose(ui);
            edwards::lemma_loose_mul(ui, t);
            edwards::lemma_loose_mul(t, yden@[i as int]);
            lemma_backward_step(nums, dens, i as int, field::residue(t));
        }
        let q: Fe = fe_mul(&ui, &t);
        u.set(i, q);
        t = fe_mul(&t, &yden[i]);
        proof {
            edwards::lemma_carried_loose(t);
        }
    }
    u
}

/// Inverts every element with one inversion. If any element is 0, all results are 0.
pub fn batch_invert(zs: &[Fe]) -> (out: Vec<Fe>)
    requires
        all_wide(zs@, zs@.len()),
    ensures
        out@.len() == zs@.len(),
        forall|i: int|
            0 <= i < out@.len() ==> field::residue(#[trigger] out@[i]) == if all_nonzero(residues(zs@, zs@.len())) {
                gf::inverse(field::residue(zs@[i]))
            } else {
                0
            },
        forall|i: int| 0 <= i < out@.len() ==> field::carried(#[trigger] out@[i]),
{
    let n: usize = zs.len();
    let mut ones: Vec<Fe> = Vec::new();
    let one: Fe = fe_one();
    for i in 0..n
        invariant
            ones@.len() == i,
            edwards::wide(one),
            forall|k: int| 0 <= k < i ==> #[trigger] ones@[k] == one,
    {
        ones.push(one);
    }
    proof {
        assert(all_wide(ones@, n as nat));
    }
    let out: Vec<Fe> = vector_division_leftfold(ones.as_slice(), zs);
    proof {
        gf::lemma_reduced(1);
        assert forall|i: int| 0 <= i < out@.len() implies field::residue(#[trigger] out@[i])
            == if all_nonzero(residues(zs@, zs@.len())) {
            gf::inverse(field::residue(zs@[i]))
        } else {
            0
        } by {
            assert(ones@[i] == one);
            let v = gf::inverse(field::residue(zs@[i]));
            lemma_mul_basics(v);
            gf::lemma_inverse(field::residue(zs@[i]));
            gf::lemma_reduced(v);
        }
    }
    out
}

// ---- candidates ----

/// Every offset can be computed with.
pub open spec fn all_usable(offsets: Seq<Affine>) -> bool {
    forall|i: int| 0 <= i < offsets.len() ==> edwards::usable_affine(#[trigger] offsets[i])
}

/// Numerators of the dual formula: the sums first, the differences after them.
pub open spec fn affine_numerators(pa: Affine, offsets: Seq<Affine>) -> Seq<int> {
    let half = offsets.len();
    Seq::new(
        2 * half,
        |i: int|
            if i < half {
                gf::minus(field::residue(pa.xy), field::residue(offsets[i].xy))
            } else {
                gf::plus(field::residue(pa.xy), field::residue(offsets[i - half].xy))
            },
    )
}

/// Denominators of the dual formula, in the same order.
pub open spec fn affine_denominators(pa: Affine, offsets: Seq<Affine>) -> Seq<int> {
    let half = offsets.len();
    Seq::new(
        2 * half,
        |i: int|
            {
                let off = offsets[if i < half {
                    i
                } else {
                    i - half
                }];
                let x1y2 = gf::times(field::residue(pa.x), field::residue(off.y));
                let y1x2 = gf::times(field::residue(pa.y), field::residue(off.x));
                if i < half {
                    gf::minus(x1y2, y1x2)
                } else {
                    gf::plus(x1y2, y1x2)
                }
            },
    )
}

/// The `y` coordinates of `pa + offsets[j]`, then of `pa - offsets[j]`, by the dual
/// formula and one batch division.
pub fn batch_candidate_ys(pa: &Affine, offsets: &[Affine]) -> (ys: Vec<Fe>)
    requires
        offsets@.len() >= 1,
        2 * offsets@.len() <= usize::MAX,
        edwards::usable_affine(*pa),
        all_usable(offsets@),
    ensures
        ys@.len() == 2 * offsets@.len(),
        forall|i: int|
            0 <= i < ys@.len() ==> field::residue(#[trigger] ys@[i]) == batch_quotient(
                affine_numerators(*pa, offsets@),
                affine_denominators(*pa, offsets@),
                i,
            ),
        forall|i: int| 0 <= i < ys@.len() ==> field::carried(#[trigger] ys@[i]),
{
    let half: usize = offsets.len();
    let mut ynum: Vec<Fe> = Vec::new();
    let mut yden: Vec<Fe> = Vec::new();
    let mut ynum_minus: Vec<Fe> = Vec::new();
    let mut yden_minus: Vec<Fe> = Vec::new();
    let ghost nums = affine_numerators(*pa, offsets@);
    let ghost dens = affine_denominators(*pa, offsets@);
    for j in 0..half
        invariant
            half == offsets@.len(),
            edwards::usable_affine(*pa),
            all_usable(offsets@),
            nums == affine_numerators(*pa, offsets@),
            dens == affine_denominators(*pa, offsets@),
            ynum@.len() == j,
            yden@.len() == j,
            ynum_minus@.len() == j,
            yden_minus@.len() == j,
            forall|k: int|
                0 <= k < j ==> field::residue(#[trigger] ynum@[k]) == nums[k] && edwards::wide(
                    ynum@[k],
                ),
            forall|k: int|
                0 <= k < j ==> field::residue(#[trigger] yden@[k]) == dens[k] && edwards::wide(
                    yden@[k],
                ),
            forall|k: int|
                0 <= k < j ==> field::residue(#[trigger] ynum_minus@[k]) == nums[half + k]
                    && edwards::wide(ynum_minus@[k]),
            forall|k: int|
                0 <= k < j ==> field::residue(#[trigger] yden_minus@[k]) == dens[half + k]
                    && edwards::wide(yden_minus@[k]),
    {
        let off: &Affine = &offsets[j];
        proof {
            assert(edwards::usable_affine(offsets@[j as int]));
            lemma_affine_wide(*pa);
            lemma_affine_wide(*off);
            field::lemma_mul_exact(pa.x, off.y);
            field::lemma_mul_exact(pa.y, off.x);
        }
        let x1y2: Fe = fe_mul(&pa.x, &off.y);
        let y1x2: Fe = fe_mul(&pa.y, &off.x);
        let n_sum: Fe = fe_sub(&pa.xy, &off.xy);
        let d_sum: Fe = fe_sub(&x1y2, &y1x2);
        let n_diff: Fe = fe_add(&pa.xy, &off.xy);
        let d_diff: Fe = fe_add(&x1y2, &y1x2);
        proof {
            edwards::lemma_carried_loose(x1y2);
            edwards::lemma_carried_loose(y1x2);
            edwards::lemma_weaken(pa.xy, 0x1_FFDA, 0x6_0000);
            edwards::lemma_weaken(x1y2, 0x1_FFDA, 0x6_0000);
            edwards::lemma_loose_difference(pa.xy, off.xy, n_sum);
            edwards::lemma_loose_difference(x1y2, y1x2, d_sum);
            edwards::lemma_weaken(pa.xy, 0x1_FFDA, 0x4_0000);
            edwards::lemma_weaken(off.xy, 0x1_FFDA, 0x4_0000);
            edwards::lemma_loose_sum(pa.xy, off.xy, n_diff);
            edwards::lemma_loose_sum(x1y2, y1x2, d_diff);
        }
        ynum.push(n_sum);
        yden.push(d_sum);
        ynum_minus.push(n_diff);
        yden_minus.push(d_diff);
    }
    ynum.append(&mut ynum_minus);
    yden.append(&mut yden_minus);
    proof {
        assert forall|i: int| 0 <= i < 2 * half implies #[trigger] residues(
            ynum@,
            2 * half as nat,
        )[i] == nums[i] by {
            if i >= half {
                let k = i - half;
                assert(half + k == i);
            }
        }
        assert forall|i: int| 0 <= i < 2 * half implies #[trigger] residues(
            yden@,
            2 * half as nat,
        )[i] == dens[i] by {
            if i >= half {
                let k = i - half;
                assert(half + k == i);
            }
        }
        assert(residues(ynum@, 2 * half as nat) =~= nums);
        assert(residues(yden@, 2 * half as nat) =~= dens);
    }
    vector_division(ynum.as_slice(), yden.as_slice())
}

proof fn lemma_affine_wide(a: Affine)
    requires
        edwards::usable_affine(a),
    ensures
        edwards::wide(a.x),
        edwards::wide(a.y),
        edwards::wide(a.xy),
{
    edwards::lemma_weaken(a.x, 0x1_FFDA, 0x8_0000);
    edwards::lemma_weaken(a.y, 0x1_FFDA, 0x8_0000);
    edwards::lemma_weaken(a.xy, 0x1_FFDA, 0x8_0000);
}

/// Numerators of the dual formula on an extended centre, sum and difference in turn.
pub open spec fn proj_numerators(center: Ge, offsets: Seq<Affine>) -> Seq<int> {
    Seq::new(
        2 * offsets.len(),
        |i: int|
            {
                let c = gf::times(field::residue(offsets[i / 2].xy), field::residue(center.z));
                if i % 2 == 0 {
                    gf::minus(field::residue(center.t), c)
                } else {
                    gf::plus(field::residue(center.t), c)
                }
            },
    )
}

/// Denominators of the dual formula on an extended centre, in the same order.
pub open spec fn proj_denominators(center: Ge, offsets: Seq<Affine>) -> Seq<int> {
    Seq::new(
        2 * offsets.len(),
        |i: int|
            {
                let a = gf::times(field::residue(center.x), field::residue(offsets[i / 2].y));
                let b = gf::times(field::residue(center.y), field::residue(offsets[i / 2].x));
                if i % 2 == 0 {
                    gf::minus(a, b)
                } else {
                    gf::plus(a, b)
                }
            },
    )
}

/// Numerator and denominator of the dual formula for the sum, and for the difference.
fn proj_terms(center: &Ge, off: &Affine) -> (r: (Fe, Fe, Fe, Fe))
    requires
        edwards::usable(*center),
        edwards::usable_affine(*off),
    ensures
        ({
            let c = gf::times(field::residue(off.xy), field::residue(center.z));
            let a = gf::times(field::residue(center.x), field::residue(off.y));
            let b = gf::times(field::residue(center.y), field::residue(off.x));
            &&& field::residue(r.0) == gf::minus(field::residue(center.t), c)
            &&& field::residue(r.1) == gf::minus(a, b)
            &&& field::residue(r.2) == gf::plus(field::residue(center.t), c)
            &&& field::residue(r.3) == gf::plus(a, b)
        }),
        edwards::wide(r.0) && edwards::wide(r.1) && edwards::wide(r.2) && edwards::wide(r.3),
{
    proof {
        lemma_affine_wide(*off);
        edwards::lemma_loose_mul(off.xy, center.z);
        edwards::lemma_loose_mul(center.x, off.y);
        edwards::lemma_loose_mul(center.y, off.x);
    }
    let c: Fe = fe_mul(&off.xy, &center.z);
    let a: Fe = fe_mul(&center.x, &off.y);
    let b: Fe = fe_mul(&center.y, &off.x);
    let n_sum: Fe = fe_sub(&center.t, &c);
    let d_sum: Fe = fe_sub(&a, &b);
    let n_diff: Fe = fe_add(&center.t, &c);
    let d_diff: Fe = fe_add(&a, &b);
    proof {
        edwards::lemma_carried_loose(a);
        edwards::lemma_carried_loose(b);
        edwards::lemma_carried_loose(c);
        edwards::lemma_weaken(center.t, 0x4_0000, 0x6_0000);
        edwards::lemma_weaken(a, 0x1_FFDA, 0x6_0000);
        edwards::lemma_loose_difference(center.t, c, n_sum);
        edwards::lemma_loose_difference(a, b, d_sum);
        edwards::lemma_loose_sum(center.t, c, n_diff);
        edwards::lemma_loose_sum(a, b, d_diff);
    }
    (n_sum, d_sum, n_diff, d_diff)
}

/// The `y` coordinates of `center + offsets[o]` at index `2 o` and of
/// `center - offsets[o]` at `2 o + 1`, with no inversion for the centre.
pub fn batch_candidate_ys_proj(center: &Ge, offsets: &[Affine]) -> (ys: Vec<Fe>)
    requires
        2 * offsets@.len() <= usize::MAX,
        edwards::usable(*center),
        all_usable(offsets@),
    ensures
        ys@.len() == 2 * offsets@.len(),
        forall|i: int|
            0 <= i < ys@.len() ==> field::residue(#[trigger] ys@[i]) == batch_quotient(
                proj_numerators(*center, offsets@),
                proj_denominators(*center, offsets@),
                i,
            ),
        forall|i: int| 0 <= i < ys@.len() ==> field::carried(#[trigger] ys@[i]),
{
    let half: usize = offsets.len();
    let mut xnum: Vec<Fe> = Vec::new();
    let mut yden: Vec<Fe> = Vec::new();
    let ghost nums = proj_numerators(*center, offsets@);
    let ghost dens = proj_denominators(*center, offsets@);
    for o in 0..half
        invariant
            half == offsets@.len(),
            2 * half <= usize::MAX,
            edwards::usable(*center),
            all_usable(offsets@),
            nums == proj_numerators(*center, offsets@),
            dens == proj_denominators(*center, offsets@),
            xnum@.len() == 2 * o,
            yden@.len() == 2 * o,
            forall|k: int|
                0 <= k < 2 * o ==> field::residue(#[trigger] xnum@[k]) == nums[k] && edwards::wide(
                    xnum@[k],
                ),
            forall|k: int|
                0 <= k < 2 * o ==> field::residue(#[trigger] yden@[k]) == dens[k] && edwards::wide(
                    yden@[k],
                ),
    {
        proof {
            assert(edwards::usable_affine(offsets@[o as int]));
            let k = 2 * o as int;
            assert(k / 2 == o && k % 2 == 0);
            assert((k + 1) / 2 == o && (k + 1) % 2 == 1);
        }
        let (n_sum, d_sum, n_diff, d_diff) = proj_terms(center, &offsets[o]);
        xnum.push(n_sum);
        yden.push(d_sum);
        xnum.push(n_diff);
        yden.push(d_diff);
    }
    proof {
        assert(residues(xnum@, 2 * half as nat) =~= nums);
        assert(residues(yden@, 2 * half as nat) =~= dens);
    }
    vector_division_leftfold(xnum.as_slice(), yden.as_slice())
}

/// The point after `i` mixed additions.
pub open spec fn walk(p0: curve::Ext, bx: int, by: int, d_tb: int, i: nat) -> curve::Ext
    decreases i,
{
    if i == 0 {
        p0
    } else {
        curve::ext_add_mixed(walk(p0, bx, by, d_tb, (i - 1) as nat), bx, by, d_tb)
    }
}

/// The first `k` steps of the walk have `Z` other than 0.
pub open spec fn walk_regular(p0: curve::Ext, bx: int, by: int, d_tb: int, k: nat) -> bool {
    forall|i: int| 0 <= i < k ==> (#[trigger] walk(p0, bx, by, d_tb, i as nat)).z != 0
}

/// Candidates `p0 + i b` for `i` below `k`, compressed, by an additive walk and one
/// batch inversion. If any of them has `Z = 0`, all results are 0.
pub fn batch_compress_current(p0: &Ge, b: &Ge, d_tb: &Fe, k: usize) -> (out: Vec<[u8; 32]>)
    requires
        edwards::usable(*p0),
        edwards::usable(*b),
        edwards::loose(*d_tb),
    ensures
        out@.len() == k,
        ({
            let start = edwards::coords(*p0);
            let bx = field::residue(b.x);
            let by = field::residue(b.y);
            let dt = field::residue(*d_tb);
            forall|i: int|
                0 <= i < k ==> radix::le_value((#[trigger] out@[i])@) == if walk_regular(
                    start,
                    bx,
                    by,
                    dt,
                    k as nat,
                ) {
                    curve::compressed(walk(start, bx, by, dt, i as nat))
                } else {
                    0
                }
        }),
{
    let ghost start = edwards::coords(*p0);
    let ghost bx = field::residue(b.x);
    let ghost by = field::residue(b.y);
    let ghost dt = field::residue(*d_tb);
    let mut xs: Vec<Fe> = Vec::new();
    let mut ys: Vec<Fe> = Vec::new();
    let mut zs: Vec<Fe> = Vec::new();
    let mut p: Ge = *p0;
    for i in 0..k
        invariant
            start == edwards::coords(*p0),
            bx == field::residue(b.x),
            by == field::residue(b.y),
            dt == field::residue(*d_tb),
            edwards::usable(*b),
            edwards::loose(*d_tb),
            edwards::usable(p),
            edwards::coords(p) == walk(start, bx, by, dt, i as nat),
            xs@.len() == i,
            ys@.len() == i,
            zs@.len() == i,
            forall|j: int|
                0 <= j < i ==> field::residue(#[trigger] xs@[j]) == walk(start, bx, by, dt, j as nat).x
                    && edwards::loose(xs@[j]),
            forall|j: int|
                0 <= j < i ==> field::residue(#[trigger] ys@[j]) == walk(start, bx, by, dt, j as nat).y
                    && edwards::loose(ys@[j]),
            forall|j: int|
                0 <= j < i ==> field::residue(#[trigger] zs@[j]) == walk(start, bx, by, dt, j as nat).z
                    && edwards::wide(zs@[j]),
    {
        xs.push(p.x);
        ys.push(p.y);
        zs.push(p.z);
        proof {
            edwards::lemma_weaken(p.z, 0x4_0000, 0x8_0000);
        }
        p = ge_add_mixed(&p, &b.x, &b.y, d_tb);
    }
    let zinvs: Vec<Fe> = batch_invert(zs.as_slice());
    let ghost regular = walk_regular(start, bx, by, dt, k as nat);
    proof {
        let rs = residues(zs@, k as nat);
        if regular {
            assert forall|i: int| 0 <= i < rs.len() implies #[trigger] rs[i] != 0 by {
                assert(field::residue(zs@[i]) == walk(start, bx, by, dt, i as nat).z);
            }
        } else {
            let j = choose|j: int| 0 <= j < k && (#[trigger] walk(start, bx, by, dt, j as nat)).z == 0;
            assert(field::residue(zs@[j]) == 0);
            assert(rs[j] == 0);
        }
        assert(all_nonzero(rs) == regular);
    }
    let mut out: Vec<[u8; 32]> = Vec::new();
    for i in 0..k
        invariant
            xs@.len() == k,
            ys@.len() == k,
            zs@.len() == k,
            zinvs@.len() == k,
            out@.len() == i,
            forall|j: int|
                0 <= j < k ==> field::residue(#[trigger] xs@[j]) == walk(start, bx, by, dt, j as nat).x
                    && edwards::loose(xs@[j]),
            forall|j: int|
                0 <= j < k ==> field::residue(#[trigger] ys@[j]) == walk(start, bx, by, dt, j as nat).y
                    && edwards::loose(ys@[j]),
            forall|j: int|
                0 <= j < k ==> field::residue(#[trigger] zs@[j]) == walk(start, bx, by, dt, j as nat).z,
            forall|j: int|
                0 <= j < k ==> field::residue(#[trigger] zinvs@[j]) == if regular {
                    gf::inverse(field::residue(zs@[j]))
                } else {
                    0
                },
            forall|j: int| 0 <= j < k ==> field::carried(#[trigger] zinvs@[j]),
            forall|j: int|
                0 <= j < i ==> radix::le_value((#[trigger] out@[j])@) == if regular {
                    curve::compressed(walk(start, bx, by, dt, j as nat))
                } else {
                    0
                },
    {
        proof {
            edwards::lemma_carried_loose(zinvs@[i as int]);
            edwards::lemma_loose_mul(xs@[i as int], zinvs@[i as int]);
            edwards::lemma_loose_mul(ys@[i as int], zinvs@[i as int]);
        }
        let x_aff: Fe = fe_mul(&xs[i], &zinvs[i]);
        let y_aff: Fe = fe_mul(&ys[i], &zinvs[i]);
        let bytes: [u8; 32] = pack_point(&x_aff, &y_aff);
        proof {
            if !regular {
                lemma_mul_basics(field::residue(xs@[i as int]));
                lemma_mul_basics(field::residue(ys@[i as int]));
                gf::lemma_reduced(0);
            }
        }
        out.push(bytes);
    }
    out
}

// ---- laws ----

/// An affine point on the curve whose stored product is that of its coordinates.
pub open spec fn sound_affine(a: Affine) -> bool {
    &&& curve::on_curve(edwards::point(a))
    &&& field::residue(a.xy) == gf::times(field::residue(a.x), field::residue(a.y))
}

/// Where no denominator vanishes, `batch_candidate_ys` gives the `y` of the sums and the
/// differences on the curve.
pub proof fn law_candidates_are_sums(pa: Affine, offsets: Seq<Affine>, j: int)
    requires
        sound_affine(pa),
        0 <= j < offsets.len(),
        sound_affine(offsets[j]),
        all_nonzero(affine_denominators(pa, offsets)),
    ensures
        ({
            let nums = affine_numerators(pa, offsets);
            let dens = affine_denominators(pa, offsets);
            let p = edwards::point(pa);
            let q = edwards::point(offsets[j]);
            &&& batch_quotient(nums, dens, j) == curve::add_points(p, q).1
            &&& batch_quotient(nums, dens, offsets.len() + j) == curve::add_points(
                p,
                curve::negate(q),
            ).1
        }),
{
    let half = offsets.len();
    let nums = affine_numerators(pa, offsets);
    let dens = affine_denominators(pa, offsets);
    let p = edwards::point(pa);
    let q = edwards::point(offsets[j]);
    let m1 = field::residue(pa.xy);
    let m2 = field::residue(offsets[j].xy);
    let u = gf::times(p.0, q.1);
    let v = gf::times(p.1, q.0);
    assert(dens[j] != 0 && dens[half + j] != 0);
    assert(dens[j] == gf::minus(u, v) && dens[half + j] == gf::plus(u, v));
    gf::lemma_ops(p.0, p.1);
    gf::lemma_ops(q.0, q.1);
    gf::lemma_ops(p.0, q.1);
    gf::lemma_ops(p.1, q.0);
    gf::lemma_ops(u, v);
    gf::lemma_ops(m1, m2);
    gf::lemma_same_ops(m1, p.0 * p.1, m2, q.0 * q.1);
    gf::lemma_same_ops(u, p.0 * q.1, v, p.1 * q.0);
    gf::lemma_reduced(u - v);
    gf::lemma_reduced(u + v);
    curve::law_dual_sum(p, q);
    curve::law_dual_difference(p, q);
    gf::lemma_over_same(nums[j], dens[j], p.0 * p.1 - q.0 * q.1, p.0 * q.1 - p.1 * q.0);
    gf::lemma_over_same(
        nums[half + j],
        dens[half + j],
        p.0 * p.1 + q.0 * q.1,
        p.0 * q.1 + p.1 * q.0,
    );
}

/// The same for an extended centre: `batch_candidate_ys_proj` gives the `y` of the sums
/// at even and of the differences at odd indices.
pub proof fn law_proj_candidates_are_sums(center: Ge, offsets: Seq<Affine>, o: int)
    requires
        curve::valid(edwards::coords(center)),
        0 <= o < offsets.len(),
        sound_affine(offsets[o]),
        all_nonzero(proj_denominators(center, offsets)),
    ensures
        ({
            let nums = proj_numerators(center, offsets);
            let dens = proj_denominators(center, offsets);
            let p = curve::affine(edwards::coords(center));
            let q = edwards::point(offsets[o]);
            &&& batch_quotient(nums, dens, 2 * o) == curve::add_points(p, q).1
            &&& batch_quotient(nums, dens, 2 * o + 1) == curve::add_points(p, curve::negate(q)).1
        }),
{
    let nums = proj_numerators(center, offsets);
    let dens = proj_denominators(center, offsets);
    let c = edwards::coords(center);
    let p = curve::affine(c);
    let q = edwards::point(offsets[o]);
    let m2 = field::residue(offsets[o].xy);
    let k = 2 * o;
    assert(k / 2 == o && k % 2 == 0);
    assert((k + 1) / 2 == o && (k + 1) % 2 == 1);
    assert(dens[k] != 0 && dens[k + 1] != 0);
    let w = gf::times(m2, c.z);
    let u = gf::times(c.x, q.1);
    let v = gf::times(c.y, q.0);
    curve::lemma_affine(c);
    gf::lemma_ops(q.0, q.1);
    gf::lemma_ops(m2, c.z);
    gf::lemma_ops(c.x, q.1);
    gf::lemma_ops(c.y, q.0);
    gf::lemma_ops(u, v);
    gf::lemma_ops(c.t, w);
    gf::lemma_reduced(u - v);
    gf::lemma_reduced(u + v);
    // Scale the affine formula by Z.
    let z = c.z;
    let m1 = p.0 * p.1;
    let mq = q.0 * q.1;
    gf::lemma_same_ops(m2, mq, z, z);
    gf::lemma_same_ops(m1 * z, c.t, mq * z, w);
    gf::lemma_same_ops(p.0 * z, c.x, q.1, q.1);
    gf::lemma_same_ops(p.1 * z, c.y, q.0, q.0);
    ring::lemma_swap3(p.0, z, q.1);
    ring::lemma_swap3(p.1, z, q.0);
    gf::lemma_same_ops((p.0 * q.1) * z, u, (p.1 * q.0) * z, v);
    ring::lemma_spread(z, m1, mq, 0);
    ring::lemma_spread(z, p.0 * q.1, p.1 * q.0, 0);
    let ns = m1 - mq;
    let ds = p.0 * q.1 - p.1 * q.0;
    let nd = m1 + mq;
    let dd = p.0 * q.1 + p.1 * q.0;
    assert(gf::same(ns * z, nums[k]) && gf::same(ds * z, dens[k]));
    assert(gf::same(nd * z, nums[k + 1]) && gf::same(dd * z, dens[k + 1]));
    gf::lemma_reduced(dens[k]);
    gf::lemma_reduced(dens[k + 1]);
    if gf::zero(ds) {
        gf::lemma_zero_mul(ds, z);
    }
    if gf::zero(dd) {
        gf::lemma_zero_mul(dd, z);
    }
    gf::lemma_over_scale(ns, ds, z);
    gf::lemma_over_same(ns * z, ds * z, nums[k], dens[k]);
    gf::lemma_over_scale(nd, dd, z);
    gf::lemma_over_same(nd * z, dd * z, nums[k + 1], dens[k + 1]);
    curve::law_dual_sum(p, q);
    curve::law_dual_difference(p, q);
}

/// Each step of the walk adds the base point on the curve, and no step has `Z = 0`.
pub proof fn law_walk_adds(p0: curve::Ext, b: curve::Ext, d_tb: int, i: nat)
    requires
        curve::valid(p0),
        0 <= p0.z < radix::prime(),
        curve::valid(b),
        b.z == 1,
        gf::same(d_tb, curve::d() * b.t),
    ensures
        curve::valid(walk(p0, b.x, b.y, d_tb, i)),
        0 < walk(p0, b.x, b.y, d_tb, i).z < radix::prime(),
        curve::affine(walk(p0, b.x, b.y, d_tb, i + 1)) == curve::add_points(
            curve::affine(walk(p0, b.x, b.y, d_tb, i)),
            curve::affine(b),
        ),
    decreases i,
{
    if i > 0 {
        let prev = walk(p0, b.x, b.y, d_tb, (i - 1) as nat);
        law_walk_adds(p0, b, d_tb, (i - 1) as nat);
        curve::law_mixed_is_full(prev, b, d_tb);
        curve::law_sum_is_valid(prev, b);
    }
    let cur = walk(p0, b.x, b.y, d_tb, i);
    assert(0 <= cur.z < radix::prime()) by {
        if i > 0 {
            lemma_mixed_reduced(walk(p0, b.x, b.y, d_tb, (i - 1) as nat), b.x, b.y, d_tb);
        }
    }
    gf::lemma_reduced(cur.z);
    curve::law_mixed_is_full(cur, b, d_tb);
    curve::law_sum_is_affine_sum(cur, b);
    assert(walk(p0, b.x, b.y, d_tb, i + 1) == curve::ext_add_mixed(cur, b.x, b.y, d_tb));
}

proof fn lemma_mixed_reduced(p: curve::Ext, qx: int, qy: int, q_dt: int)
    ensures
        0 <= curve::ext_add_mixed(p, qx, qy, q_dt).z < radix::prime(),
{
    let c = gf::times(p.t, q_dt);
    gf::lemma_reduced(gf::minus(p.z, c) * gf::plus(p.z, c));
}

/// After `i` steps the walk stands at the start plus `i` times the base point.
pub proof fn law_walk_is_multiple(p0: curve::Ext, b: curve::Ext, d_tb: int, i: nat)
    requires
        curve::valid(p0),
        0 <= p0.z < radix::prime(),
        curve::valid(b),
        b.z == 1,
        gf::same(d_tb, curve::d() * b.t),
    ensures
        curve::affine(walk(p0, b.x, b.y, d_tb, i)) == curve::add_points(
            curve::affine(p0),
            group::multiple(curve::affine(b), i),
        ),
    decreases i,
{
    let a = curve::affine(p0);
    let q = curve::affine(b);
    curve::lemma_affine(p0);
    curve::lemma_affine(b);
    if i == 0 {
        group::law_group(a);
    } else {
        let prev = (i - 1) as nat;
        law_walk_is_multiple(p0, b, d_tb, prev);
        law_walk_adds(p0, b, d_tb, prev);
        group::law_multiple_is_point(q, prev);
        group::law_sum_associates(a, group::multiple(q, prev), q);
    }
}

/// A walk that starts at the point of a scalar passes through those of the scalars that
/// follow: what it finds after `i` steps is the public key of the scalar plus `i`.
pub proof fn law_walk_follows_scalars(b: curve::Ext, d_tb: int, scalar: nat, i: nat)
    requires
        curve::valid(b),
        b.z == 1,
        gf::same(d_tb, curve::d() * b.t),
    ensures
        ({
            let start = curve::ladder(b, scalar);
            let end = curve::ladder(b, scalar + i);
            let stop = walk(start, b.x, b.y, d_tb, i);
            &&& curve::affine(stop) == curve::affine(end)
            &&& curve::compressed(stop) == curve::compressed(end)
        }),
{
    let start = curve::ladder(b, scalar);
    curve::law_multiple_is_valid(b, scalar);
    assert(0 <= start.z < radix::prime()) by {
        gf::lemma_reduced(1);
        if scalar > 0 {
            let half = curve::ladder(b, scalar / 2);
            let even = curve::ext_add(half, half);
            lemma_sum_reduced(half, half);
            lemma_sum_reduced(even, b);
        }
    }
    law_walk_is_multiple(start, b, d_tb, i);
    group::law_ladder_is_multiple(b, i);
    group::law_scalars_add(b, scalar, i);
}

/// The `Z` of a sum is reduced.
proof fn lemma_sum_reduced(p: curve::Ext, q: curve::Ext)
    ensures
        0 <= curve::ext_add(p, q).z < radix::prime(),
{
    let c = gf::times(gf::times(p.t, q.t), curve::d());
    let dd = gf::times(p.z, q.z);
    gf::lemma_reduced(gf::minus(dd, c) * gf::plus(dd, c));
}

/// The `y` of a point is its compressed form without the sign bit.
pub proof fn lemma_compressed_y(p: curve::Ext)
    requires
        curve::valid(p),
    ensures
        curve::compressed(p) % curve::sign_weight() == curve::affine(p).1,
{
    let (x, y) = curve::affine(p);
    curve::lemma_affine(p);
    assert(radix::prime() < curve::sign_weight());
    lemma_fundamental_div_mod_converse(
        curve::compressed(p),
        curve::sign_weight(),
        x % 2,
        y,
    );
}

/// Both ways of generating candidates agree: where no denominator vanishes, the candidate
/// for the offset `i B` is the key that the walk finds after `i` steps, but for the sign
/// bit.
pub proof fn law_candidates_match_walk(
    pa: Affine,
    offsets: Seq<Affine>,
    j: int,
    p0: curve::Ext,
    b: curve::Ext,
    d_tb: int,
    i: nat,
)
    requires
        curve::valid(p0),
        0 <= p0.z < radix::prime(),
        curve::valid(b),
        b.z == 1,
        gf::same(d_tb, curve::d() * b.t),
        sound_affine(pa),
        edwards::point(pa) == curve::affine(p0),
        0 <= j < offsets.len(),
        sound_affine(offsets[j]),
        edwards::point(offsets[j]) == group::multiple(curve::affine(b), i),
        all_nonzero(affine_denominators(pa, offsets)),
    ensures
        batch_quotient(affine_numerators(pa, offsets), affine_denominators(pa, offsets), j)
            == curve::compressed(walk(p0, b.x, b.y, d_tb, i)) % curve::sign_weight(),
{
    law_candidates_are_sums(pa, offsets, j);
    law_walk_is_multiple(p0, b, d_tb, i);
    law_walk_adds(p0, b, d_tb, i);
    lemma_compressed_y(walk(p0, b.x, b.y, d_tb, i));
}

/// Around the point of a scalar, the candidates for the offset `i B` are the `y` of the
/// scalar plus `i` and of the scalar minus `i`.
pub proof fn law_candidates_are_multiples(
    pa: Affine,
    offsets: Seq<Affine>,
    j: int,
    b: curve::Ext,
    scalar: nat,
    i: nat,
)
    requires
        curve::valid(b),
        i <= scalar,
        sound_affine(pa),
        edwards::point(pa) == curve::affine(curve::ladder(b, scalar)),
        0 <= j < offsets.len(),
        sound_affine(offsets[j]),
        edwards::point(offsets[j]) == curve::affine(curve::ladder(b, i)),
        all_nonzero(affine_denominators(pa, offsets)),
    ensures
        ({
            let nums = affine_numerators(pa, offsets);
            let dens = affine_denominators(pa, offsets);
            &&& batch_quotient(nums, dens, j) == curve::affine(curve::ladder(b, scalar + i)).1
            &&& batch_quotient(nums, dens, offsets.len() + j) == curve::affine(
                curve::ladder(b, (scalar - i) as nat),
            ).1
        }),
{
    law_candidates_are_sums(pa, offsets, j);
    group::law_scalars_add(b, scalar, i);
}

/// The same for an extended centre.
pub proof fn law_proj_candidates_are_multiples(
    center: Ge,
    offsets: Seq<Affine>,
    o: int,
    b: curve::Ext,
    scalar: nat,
    i: nat,
)
    requires
        curve::valid(b),
        i <= scalar,
        curve::valid(edwards::coords(center)),
        curve::affine(edwards::coords(center)) == curve::affine(curve::ladder(b, scalar)),
        0 <= o < offsets.len(),
        sound_affine(offsets[o]),
        edwards::point(offsets[o]) == curve::affine(curve::ladder(b, i)),
        all_nonzero(proj_denominators(center, offsets)),
    ensures
        ({
            let nums = proj_numerators(center, offsets);
            let dens = proj_denominators(center, offsets);
            &&& batch_quotient(nums, dens, 2 * o) == curve::affine(
                curve::ladder(b, scalar + i),
            ).1
            &&& batch_quotient(nums, dens, 2 * o + 1) == curve::affine(
                curve::ladder(b, (scalar - i) as nat),
            ).1
        }),
{
    law_proj_candidates_are_sums(center, offsets, o);
    group::law_scalars_add(b, scalar, i);
}

// ---- what the batch functions come to ----

/// Dividing all at once is dividing one by one: while no denominator is 0 in the field, every
/// quotient times its denominator is its numerator; once any is 0, all quotients are 0.
pub proof fn law_division(x: &[Fe], y: &[Fe], u: Vec<Fe>, i: int)
    requires
        x@.len() <= y@.len(),
        call_ensures(vector_division, (x, y), u) || call_ensures(vector_division_leftfold, (x, y), u),
        0 <= i < x@.len(),
    ensures
        u@.len() == x@.len(),
        (forall|j: int| 0 <= j < x@.len() ==> field::residue(#[trigger] y@[j]) != 0) ==> gf::times(
            field::residue(u@[i]),
            field::residue(y@[i]),
        ) == field::residue(x@[i]),
        (exists|j: int| 0 <= j < x@.len() && field::residue(#[trigger] y@[j]) == 0)
            ==> field::residue(u@[i]) == 0,
{
    let n = x@.len();
    let nums = residues(x@, n);
    let dens = residues(y@, n);
    lemma_residues_reduced(x@, n);
    lemma_residues_reduced(y@, n);
    if forall|j: int| 0 <= j < n ==> field::residue(#[trigger] y@[j]) != 0 {
        assert forall|j: int| 0 <= j < dens.len() implies #[trigger] dens[j] != 0 by {
            assert(field::residue(y@[j]) != 0);
        }
        assert(all_nonzero(dens));
        assert(0 <= dens[i] < radix::prime());
        assert(0 <= nums[i] < radix::prime());
        gf::lemma_reduced(dens[i]);
        gf::lemma_reduced(nums[i]);
        gf::lemma_over(nums[i], dens[i]);
    }
    if exists|j: int| 0 <= j < n && field::residue(#[trigger] y@[j]) == 0 {
        let j = choose|j: int| 0 <= j < n && field::residue(#[trigger] y@[j]) == 0;
        assert(dens[j] == 0);
    }
}

/// Inverting all at once: every inverse times its element is 1, or all are 0 once any element
/// is.
pub proof fn law_inverses(zs: &[Fe], out: Vec<Fe>, i: int)
    requires
        call_ensures(batch_invert, (zs,), out),
        0 <= i < zs@.len(),
    ensures
        out@.len() == zs@.len(),
        (forall|j: int| 0 <= j < zs@.len() ==> field::residue(#[trigger] zs@[j]) != 0) ==> gf::times(
            field::residue(out@[i]),
            field::residue(zs@[i]),
        ) == 1,
        (exists|j: int| 0 <= j < zs@.len() && field::residue(#[trigger] zs@[j]) == 0)
            ==> field::residue(out@[i]) == 0,
{
    let n = zs@.len();
    let s = residues(zs@, n);
    lemma_residues_reduced(zs@, n);
    if forall|j: int| 0 <= j < n ==> field::residue(#[trigger] zs@[j]) != 0 {
        assert forall|j: int| 0 <= j < s.len() implies #[trigger] s[j] != 0 by {
            assert(field::residue(zs@[j]) != 0);
        }
        assert(all_nonzero(s));
        assert(0 <= s[i] < radix::prime());
        gf::lemma_inverse(s[i]);
        lemma_mul_is_commutative(s[i], gf::inverse(s[i]));
    }
    if exists|j: int| 0 <= j < n && field::residue(#[trigger] zs@[j]) == 0 {
        let j = choose|j: int| 0 <= j < n && field::residue(#[trigger] zs@[j]) == 0;
        assert(s[j] == 0);
    }
}

/// The candidates of a walk from the point of a scalar are the public keys of the scalars that
/// follow, every one of them, however many are asked for.
pub proof fn law_walk_gives_keys(
    p0: Ge,
    b: Ge,
    d_tb: Fe,
    k: usize,
    out: Vec<[u8; 32]>,
    scalar: nat,
    i: int,
)
    requires
        call_ensures(batch_compress_current, (&p0, &b, &d_tb, k), out),
        curve::valid(edwards::coords(b)),
        edwards::coords(b).z == 1,
        field::residue(d_tb) == gf::times(curve::d(), field::residue(b.t)),
        edwards::coords(p0) == curve::ladder(edwards::coords(b), scalar),
        0 <= i < k,
    ensures
        out@.len() == k,
        radix::le_value(out@[i]@) == curve::compressed(
            curve::ladder(edwards::coords(b), scalar + i as nat),
        ),
{
    let start = edwards::coords(p0);
    let base = edwards::coords(b);
    let dt = field::residue(d_tb);
    curve::law_multiple_is_valid(base, scalar);
    gf::lemma_ops(curve::d(), base.t);
    assert(gf::same(dt, curve::d() * base.t));
    gf::lemma_reduced(field::fe_value(p0.z));
    assert forall|j: int| 0 <= j < k implies (#[trigger] walk(start, base.x, base.y, dt, j as nat)).z
        != 0 by {
        law_walk_adds(start, base, dt, j as nat);
    }
    assert(walk_regular(start, base.x, base.y, dt, k as nat));
    law_walk_follows_scalars(base, dt, scalar, i as nat);
}

/// Around an affine centre the candidates are the `y` of the centre plus and minus each offset.
pub proof fn law_candidate_sums(pa: Affine, offsets: &[Affine], ys: Vec<Fe>, j: int)
    requires
        call_ensures(batch_candidate_ys, (&pa, offsets), ys),
        sound_affine(pa),
        forall|k: int| 0 <= k < offsets@.len() ==> sound_affine(#[trigger] offsets@[k]),
        forall|k: int|
            0 <= k < offsets@.len() ==> ({
                let p = edwards::point(pa);
                let q = edwards::point(#[trigger] offsets@[k]);
                gf::times(p.0, q.1) != gf::times(p.1, q.0) && gf::plus(
                    gf::times(p.0, q.1),
                    gf::times(p.1, q.0),
                ) != 0
            }),
        0 <= j < offsets@.len(),
    ensures
        ys@.len() == 2 * offsets@.len(),
        field::residue(ys@[j]) == curve::add_points(
            edwards::point(pa),
            edwards::point(offsets@[j]),
        ).1,
        field::residue(ys@[offsets@.len() + j]) == curve::add_points(
            edwards::point(pa),
            curve::negate(edwards::point(offsets@[j])),
        ).1,
{
    let n = offsets@.len() as int;
    let dens = affine_denominators(pa, offsets@);
    assert forall|i: int| 0 <= i < dens.len() implies #[trigger] dens[i] != 0 by {
        let k = if i < n {
            i
        } else {
            i - n
        };
        let p = edwards::point(pa);
        let q = edwards::point(offsets@[k]);
        lemma_difference_zero(gf::times(p.0, q.1), gf::times(p.1, q.0));
    }
    assert(all_nonzero(dens));
    assert(sound_affine(offsets@[j]));
    law_candidates_are_sums(pa, offsets@, j);
}

/// Reduced numbers with difference 0 are equal.
proof fn lemma_difference_zero(a: int, b: int)
    requires
        0 <= a < radix::prime(),
        0 <= b < radix::prime(),
    ensures
        gf::minus(a, b) == 0 ==> a == b,
{
    if (a - b) % radix::prime() == 0 {
        lemma_fundamental_div_mod(a - b, radix::prime());
        let q = (a - b) / radix::prime();
        assert(q == 0) by (nonlinear_arith)
            requires
                a - b == radix::prime() * q,
                -radix::prime() < a - b < radix::prime(),
                radix::prime() > 0,
        ;
    }
}

/// Around an extended centre the candidates are the `y` of the centre plus and minus each
/// offset, in turn.
pub proof fn law_proj_candidate_sums(center: Ge, offsets: &[Affine], ys: Vec<Fe>, o: int)
    requires
        call_ensures(batch_candidate_ys_proj, (&center, offsets), ys),
        curve::valid(edwards::coords(center)),
        forall|k: int| 0 <= k < offsets@.len() ==> sound_affine(#[trigger] offsets@[k]),
        forall|k: int|
            0 <= k < offsets@.len() ==> ({
                let c = edwards::coords(center);
                let q = edwards::point(#[trigger] offsets@[k]);
                gf::times(c.x, q.1) != gf::times(c.y, q.0) && gf::plus(
                    gf::times(c.x, q.1),
                    gf::times(c.y, q.0),
                ) != 0
            }),
        0 <= o < offsets@.len(),
    ensures
        ys@.len() == 2 * offsets@.len(),
        field::residue(ys@[2 * o]) == curve::add_points(
            curve::affine(edwards::coords(center)),
            edwards::point(offsets@[o]),
        ).1,
        field::residue(ys@[2 * o + 1]) == curve::add_points(
            curve::affine(edwards::coords(center)),
            curve::negate(edwards::point(offsets@[o])),
        ).1,
{
    let dens = proj_denominators(center, offsets@);
    let c = edwards::coords(center);
    assert forall|i: int| 0 <= i < dens.len() implies #[trigger] dens[i] != 0 by {
        let q = edwards::point(offsets@[i / 2]);
        lemma_difference_zero(gf::times(c.x, q.1), gf::times(c.y, q.0));
    }
    assert(all_nonzero(dens));
    assert(sound_affine(offsets@[o]));
    law_proj_candidates_are_sums(center, offsets@, o);
}

/// Once one of the sums or differences has no such quotient, all candidates are 0.
pub proof fn law_degenerate_candidates(
    pa: Affine,
    center: Ge,
    offsets: &[Affine],
    ys: Vec<Fe>,
    proj: Vec<Fe>,
    k: int,
    i: int,
)
    requires
        call_ensures(batch_candidate_ys, (&pa, offsets), ys),
        call_ensures(batch_candidate_ys_proj, (&center, offsets), proj),
        0 <= k < offsets@.len(),
        0 <= i < 2 * offsets@.len(),
    ensures
        ({
            let p = edwards::point(pa);
            let q = edwards::point(offsets@[k]);
            gf::times(p.0, q.1) == gf::times(p.1, q.0) || gf::plus(
                gf::times(p.0, q.1),
                gf::times(p.1, q.0),
            ) == 0
        }) ==> field::residue(ys@[i]) == 0,
        ({
            let c = edwards::coords(center);
            let q = edwards::point(offsets@[k]);
            gf::times(c.x, q.1) == gf::times(c.y, q.0) || gf::plus(
                gf::times(c.x, q.1),
                gf::times(c.y, q.0),
            ) == 0
        }) ==> field::residue(proj@[i]) == 0,
{
    let n = offsets@.len() as int;
    let p = edwards::point(pa);
    let c = edwards::coords(center);
    let q = edwards::point(offsets@[k]);
    let dens = affine_denominators(pa, offsets@);
    let pdens = proj_denominators(center, offsets@);
    lemma_small_mod(0, radix::prime() as nat);
    assert(dens[k] == gf::minus(gf::times(p.0, q.1), gf::times(p.1, q.0)));
    assert(dens[n + k] == gf::plus(gf::times(p.0, q.1), gf::times(p.1, q.0)));
    assert((2 * k) / 2 == k && (2 * k + 1) / 2 == k);
    assert(pdens[2 * k] == gf::minus(gf::times(c.x, q.1), gf::times(c.y, q.0)));
    assert(pdens[2 * k + 1] == gf::plus(gf::times(c.x, q.1), gf::times(c.y, q.0)));
}

} // verus!
