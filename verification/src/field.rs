//! Arithmetic modulo 2^255 - 19 on sixteen 16-bit limbs held in `u32`.
//!
//! Limbs may run past 16 bits between operations; `fe_carry` brings them back and
//! `fe_freeze` reaches the unique reduced form.

use crate::product;
use crate::radix;
use vstd::arithmetic::div_mod::*;
use vstd::arithmetic::mul::*;
use vstd::prelude::*;

verus! {

/// A field element: limb `i` has weight 2^(16 i).
pub type Fe = [u32; 16];

/// The limbs of `a` as integers.
pub open spec fn ints(a: Fe) -> Seq<int> {
    Seq::new(16, |i: int| a[i] as int)
}

/// The integer that the limbs of `a` stand for, not yet reduced.
pub open spec fn fe_value(a: Fe) -> int {
    radix::eval(65536, ints(a), 16)
}

/// The field element that `a` stands for: its value modulo the prime.
pub open spec fn residue(a: Fe) -> int {
    fe_value(a) % radix::prime()
}

/// Every limb of `a` is at most `bound`.
pub open spec fn limbs_at_most(a: Fe, bound: int) -> bool {
    forall|i: int| 0 <= i < 16 ==> #[trigger] a[i] <= bound
}

/// Limbs as a carry or a product leaves them: 16 bits each, but for a few units
/// over in limb 0, and a value below 2^256.
pub open spec fn carried(a: Fe) -> bool {
    &&& a[0] <= 65573
    &&& forall|i: int| 1 <= i < 16 ==> #[trigger] a[i] < 65536
    &&& fe_value(a) < radix::two256()
}

proof fn lemma_u32_split(v: u32)
    ensures
        v & 0xFFFF == v % 65536,
        v >> 16 == v / 65536,
{
    assert(v & 0xFFFF == v % 65536) by (bit_vector);
    assert(v >> 16 == v / 65536) by (bit_vector);
}

pub fn fe_zero() -> (r: Fe)
    ensures
        r@ == Seq::new(16, |i: int| 0u32),
        fe_value(r) == 0,
{
    let r: Fe = [0u32; 16];
    proof {
        radix::lemma_eval_zero(65536, ints(r), 16);
    }
    r
}

pub fn fe_one() -> (r: Fe)
    ensures
        r@ == Seq::new(16, |i: int| if i == 0 { 1u32 } else { 0u32 }),
        fe_value(r) == 1,
{
    let mut r: Fe = [0u32; 16];
    let ghost z = ints(r);
    r[0] = 1;
    proof {
        radix::lemma_eval_zero(65536, z, 16);
        radix::lemma_eval_update(65536, z, 0, 1, 16);
        assert(ints(r) =~= z.update(0, 1));
        assert(radix::weight(65536, 0) == 1);
    }
    r
}

/// Limb-wise sum, wrapping in each limb; where no limb wraps the values add up.
pub fn fe_add(a: &Fe, b: &Fe) -> (r: Fe)
    ensures
        forall|i: int| 0 <= i < 16 ==> #[trigger] r[i] == (a[i] + b[i]) % 0x1_0000_0000,
        (forall|i: int| 0 <= i < 16 ==> #[trigger] a[i] + b[i] < 0x1_0000_0000)
            ==> fe_value(r) == fe_value(*a) + fe_value(*b),
{
    let mut r: Fe = [0u32; 16];
    for i in 0..16usize
        invariant
            forall|k: int| 0 <= k < i ==> #[trigger] r[k] == (a[k] + b[k]) % 0x1_0000_0000,
    {
        r[i] = a[i].wrapping_add(b[i]);
    }
    proof {
        if forall|i: int| 0 <= i < 16 ==> #[trigger] a[i] + b[i] < 0x1_0000_0000 {
            assert forall|i: int| 0 <= i < 16 implies ints(r)[i] == ints(*a)[i] + ints(*b)[i] by {
                assert(a[i] + b[i] < 0x1_0000_0000);
            }
            radix::lemma_eval_add(65536, ints(*a), ints(*b), ints(r), 16);
        }
    }
    r
}

// ---- carrying ----

/// What limb `i` holds once the limbs below it have passed their overflow on:
/// its own digit plus the incoming carry, in 32 bits.
pub open spec fn ripple(s: Seq<int>, i: nat) -> int
    decreases i,
{
    if i == 0 {
        s[0]
    } else {
        (s[i as int] + ripple(s, (i - 1) as nat) / 65536) % 0x1_0000_0000
    }
}

/// One sweep of carries from limb 0 to limb 15; what leaves the top comes back at
/// limb 0 times 38, since 2^256 is 38 modulo the prime.
pub open spec fn carry_sweep(s: Seq<int>) -> Seq<int> {
    Seq::new(
        16,
        |i: int|
            ripple(s, i as nat) % 65536 + if i == 0 {
                38 * (ripple(s, 15) / 65536)
            } else {
                0
            },
    )
}

/// The limbs after two sweeps.
pub open spec fn carry_limbs(s: Seq<int>) -> Seq<int> {
    carry_sweep(carry_sweep(s))
}

/// The sequence holds 32-bit limbs.
pub open spec fn u32_digits(s: Seq<int>) -> bool {
    &&& s.len() == 16
    &&& forall|i: int| 0 <= i < 16 ==> 0 <= #[trigger] s[i] < 0x1_0000_0000
}

/// No limb wraps when the carry from the limb below is added.
pub open spec fn carry_room(s: Seq<int>) -> bool {
    &&& u32_digits(s)
    &&& forall|i: int| 1 <= i < 16 ==> #[trigger] s[i] <= 0xFFFF_0000
}

proof fn lemma_ripple_range(s: Seq<int>, i: nat)
    requires
        u32_digits(s),
        i < 16,
    ensures
        0 <= ripple(s, i) < 0x1_0000_0000,
    decreases i,
{
    if i > 0 {
        lemma_ripple_range(s, (i - 1) as nat);
    }
}

/// Partial carries keep the value of the digits swept so far.
proof fn lemma_ripple_value(s: Seq<int>, n: nat)
    requires
        carry_room(s),
        1 <= n <= 16,
    ensures
        radix::eval(65536, s, n) == radix::eval(65536, Seq::new(16, |i: int| ripple(s, i as nat) % 65536), n)
            + (ripple(s, (n - 1) as nat) / 65536) * radix::weight(65536, n),
    decreases n,
{
    let d = Seq::new(16, |i: int| ripple(s, i as nat) % 65536);
    let m = (n - 1) as nat;
    let w = radix::weight(65536, m);
    let v = ripple(s, m);
    lemma_ripple_range(s, m);
    assert(radix::weight(65536, n) == 65536 * w);
    assert(v == 65536 * (v / 65536) + v % 65536);
    assert((v / 65536) * (65536 * w) + (v % 65536) * w == v * w) by (nonlinear_arith)
        requires
            v == 65536 * (v / 65536) + v % 65536,
    ;
    if m == 0 {
        assert(radix::eval(65536, s, 0) == 0 && radix::eval(65536, d, 0) == 0);
    } else {
        lemma_ripple_value(s, m);
        let c = ripple(s, (m - 1) as nat) / 65536;
        lemma_ripple_range(s, (m - 1) as nat);
        assert(0 <= c < 65536);
        assert(s[m as int] <= 0xFFFF_0000);
        assert(v == s[m as int] + c);
        lemma_mul_is_distributive_add_other_way(w, s[m as int], c);
    }
}

/// A sweep keeps the value modulo the prime and leaves limbs above limb 0 in 16 bits.
pub proof fn lemma_carry_sweep(s: Seq<int>)
    requires
        carry_room(s),
    ensures
        ({
            let t = carry_sweep(s);
            let top = ripple(s, 15) / 65536;
            &&& 0 <= top < 65536
            &&& radix::eval(65536, t, 16) == radix::eval(65536, s, 16) - 2 * radix::prime() * top
            &&& 0 <= radix::eval(65536, s, 16) - top * radix::two256() < radix::two256()
            &&& radix::eval(65536, t, 16) == radix::eval(65536, s, 16) - top * radix::two256() + 38 * top
            &&& 38 * top <= t[0] <= 65535 + 38 * top
            &&& forall|i: int| 1 <= i < 16 ==> 0 <= #[trigger] t[i] < 65536
        }),
{
    let t = carry_sweep(s);
    let top = ripple(s, 15) / 65536;
    let d = Seq::new(16, |i: int| ripple(s, i as nat) % 65536);
    lemma_ripple_range(s, 15);
    lemma_ripple_value(s, 16);
    radix::lemma_weight_limits();
    assert(t =~= d.update(0, d[0] + 38 * top));
    radix::lemma_eval_update(65536, d, 0, d[0] + 38 * top, 16);
    assert(radix::weight(65536, 0) == 1);
    radix::lemma_eval_bound(65536, d, 16);
    product::lemma_fold_identity(top);
}

/// A sweep leaves limbs above limb 0 in 16 bits, whatever it started from.
proof fn lemma_sweep_range(s: Seq<int>)
    requires
        u32_digits(s),
    ensures
        0 <= carry_sweep(s)[0] <= 65535 * 39,
        forall|i: int| 1 <= i < 16 ==> 0 <= #[trigger] carry_sweep(s)[i] < 65536,
{
    lemma_ripple_range(s, 15);
}

/// A second sweep keeps the value modulo the prime and leaves carried limbs.
proof fn lemma_second_sweep(u: Seq<int>)
    requires
        u.len() == 16,
        0 <= u[0] <= 65535 * 39,
        forall|i: int| 1 <= i < 16 ==> 0 <= #[trigger] u[i] < 65536,
    ensures
        ({
            let t = carry_sweep(u);
            &&& radix::eval(65536, t, 16) % radix::prime() == radix::eval(65536, u, 16)
                % radix::prime()
            &&& radix::eval(65536, u, 16) < radix::two256() ==> radix::eval(65536, t, 16)
                == radix::eval(65536, u, 16) && t[0] < 65536
            &&& 0 <= radix::eval(65536, t, 16) < radix::two256()
            &&& 0 <= t[0] <= 65573
            &&& forall|i: int| 1 <= i < 16 ==> 0 <= #[trigger] t[i] < 65536
        }),
{
    lemma_carry_sweep(u);
    let t = carry_sweep(u);
    let top = ripple(u, 15) / 65536;
    radix::lemma_weight_limits();
    // The swept limbs are below 2^256 but for the excess in limb 0.
    let u0 = u.update(0, 0);
    assert forall|i: int| 0 <= i < 16 implies 0 <= #[trigger] u0[i] < 65536 by {}
    radix::lemma_eval_bound(65536, u0, 16);
    radix::lemma_eval_update(65536, u, 0, 0, 16);
    assert(radix::weight(65536, 0) == 1);
    assert(radix::eval(65536, u, 16) < radix::two256() + 65536 * 39);
    assert(top <= 1) by {
        if top >= 2 {
            lemma_mul_inequality(2, top, radix::two256());
        }
    }
    assert(top == 0 || top == 1);
    radix::lemma_eval_nonneg(65536, t, 16);
    let p = radix::prime();
    lemma_mod_multiples_vanish(-2 * top, radix::eval(65536, u, 16), p);
    assert(p * (-2 * top) == -(2 * p * top)) by (nonlinear_arith);
}

/// Two sweeps leave carried limbs, and keep the value modulo the prime where no limb
/// wraps.
pub proof fn lemma_carry_limbs(s: Seq<int>)
    requires
        u32_digits(s),
    ensures
        ({
            let t = carry_limbs(s);
            &&& carry_room(s) ==> radix::eval(65536, t, 16) % radix::prime() == radix::eval(
                65536,
                s,
                16,
            ) % radix::prime()
            &&& 0 <= radix::eval(65536, t, 16) < radix::two256()
            &&& 0 <= t[0] <= 65573
            &&& forall|i: int| 1 <= i < 16 ==> 0 <= #[trigger] t[i] < 65536
        }),
{
    lemma_sweep_range(s);
    lemma_second_sweep(carry_sweep(s));
    if carry_room(s) {
        lemma_carry_sweep(s);
        let top = ripple(s, 15) / 65536;
        let p = radix::prime();
        lemma_mod_multiples_vanish(-2 * top, radix::eval(65536, s, 16), p);
        assert(p * (-2 * top) == -(2 * p * top)) by (nonlinear_arith);
    }
}

fn carry_once(a: &Fe) -> (r: Fe)
    ensures
        ints(r) == carry_sweep(ints(*a)),
{
    let ghost s = ints(*a);
    let mut r: Fe = *a;
    for i in 0..15usize
        invariant
            s == ints(*a),
            forall|k: int| 0 <= k < i ==> #[trigger] r[k] == ripple(s, k as nat) % 65536,
            r[i as int] == ripple(s, i as nat),
            forall|k: int| i < k < 16 ==> #[trigger] r[k] == a[k],
    {
        let v: u32 = r[i];
        proof {
            lemma_u32_split(v);
        }
        r[i] = v & 0xFFFF;
        r[i + 1] = r[i + 1].wrapping_add(v >> 16);
        assert(s[i + 1] == a[i + 1]);
    }
    let v15: u32 = r[15];
    proof {
        lemma_u32_split(v15);
    }
    r[15] = v15 & 0xFFFF;
    proof {
        assert(r[0] == ripple(s, 0) % 65536);
    }
    r[0] = r[0].wrapping_add(38 * (v15 >> 16));
    assert(ints(r) =~= carry_sweep(s));
    r
}

/// Two sweeps of carries. The result is carried, and where every limb has room for an
/// incoming carry the residue is kept.
pub fn fe_carry(a: &Fe) -> (r: Fe)
    ensures
        ints(r) == carry_limbs(ints(*a)),
        carried(r),
        carry_room(ints(*a)) ==> residue(r) == residue(*a),
{
    let t: Fe = carry_once(a);
    let r: Fe = carry_once(&t);
    proof {
        lemma_carry_limbs(ints(*a));
        assert forall|i: int| 1 <= i < 16 implies #[trigger] r[i] < 65536 by {
            assert(ints(r)[i] == r[i]);
        }
        assert(ints(r)[0] == r[0]);
    }
    r
}

// ---- products ----

/// The sixteen columns left once those of weight 2^256 and up are folded down times 38.
pub open spec fn folded(c: Seq<int>) -> Seq<int> {
    product::folded(16, c)
}

/// The 31 columns of the product of `a` and `b`.
pub open spec fn columns(a: Seq<int>, b: Seq<int>) -> Seq<int> {
    product::columns(16, a, b)
}

/// The carry into column `k` when the columns below it are cut to 16 bits.
pub open spec fn carry_in(c: Seq<int>, k: nat) -> int
    decreases k,
{
    if k == 0 {
        0
    } else {
        (c[k - 1] + carry_in(c, (k - 1) as nat)) / 65536
    }
}

/// Columns that can be carried without leaving 64 bits.
pub open spec fn columns_fit(c: Seq<int>) -> bool {
    forall|k: int|
        0 <= k < 16 ==> (#[trigger] folded(c)[k]) + carry_in(folded(c), k as nat) <= u64::MAX
}

/// The product of `a` and `b` can be accumulated in 64-bit columns.
pub open spec fn mul_fits(a: Fe, b: Fe) -> bool {
    columns_fit(columns(ints(a), ints(b)))
}

/// The carry out of the top column, brought down times 38, stays in limb 0.
pub open spec fn fold_fits(c: Seq<int>) -> bool {
    folded(c)[0] % 65536 + 38 * carry_in(folded(c), 16) < 0x1_0000_0000
}

/// The product of `a` and `b` also folds back into 32-bit limbs, so that it is the
/// field product.
pub open spec fn mul_exact(a: Fe, b: Fe) -> bool {
    mul_fits(a, b) && fold_fits(columns(ints(a), ints(b)))
}

/// The columns as limbs: 16-bit digits, with the carry out of the top added at limb 0
/// times 38, and past 32 bits at limb 1.
pub open spec fn spread_limbs(c: Seq<int>) -> Seq<int> {
    let f = folded(c);
    let low = (f[0] % 65536) + 38 * carry_in(f, 16);
    Seq::new(
        16,
        |k: int|
            if k == 0 {
                low % 0x1_0000_0000
            } else {
                (f[k] + carry_in(f, k as nat)) % 65536 + if k == 1 {
                    low / 0x1_0000_0000
                } else {
                    0
                }
            },
    )
}

/// The limbs of a column-wise product: spread, then two carry sweeps.
pub open spec fn reduced_limbs(c: Seq<int>) -> Seq<int> {
    carry_limbs(spread_limbs(c))
}

proof fn lemma_carry_in_range(f: Seq<int>, k: nat)
    requires
        f.len() == 16,
        k <= 16,
        forall|i: int| 0 <= i < 16 ==> 0 <= #[trigger] f[i],
        forall|i: int| 0 <= i < 16 ==> (#[trigger] f[i]) + carry_in(f, i as nat) <= u64::MAX,
    ensures
        0 <= carry_in(f, k) < 0x1_0000_0000_0000,
    decreases k,
{
    if k > 0 {
        lemma_carry_in_range(f, (k - 1) as nat);
        assert(f[k - 1] + carry_in(f, (k - 1) as nat) <= u64::MAX);
    }
}

/// Cutting columns to digits keeps their value, with the last carry on top.
proof fn lemma_carry_in_value(f: Seq<int>, n: nat)
    requires
        n <= 16,
        f.len() == 16,
    ensures
        radix::eval(65536, f, n) == radix::eval(
            65536,
            Seq::new(16, |k: int| (f[k] + carry_in(f, k as nat)) % 65536),
            n,
        ) + carry_in(f, n) * radix::weight(65536, n),
    decreases n,
{
    if n > 0 {
        let m = (n - 1) as nat;
        lemma_carry_in_value(f, m);
        let w = radix::weight(65536, m);
        let c = carry_in(f, m);
        let v = f[m as int] + c;
        assert(v == 65536 * (v / 65536) + v % 65536);
        assert((v / 65536) * (65536 * w) + (v % 65536) * w == f[m as int] * w + c * w)
            by (nonlinear_arith)
            requires
                v == 65536 * (v / 65536) + v % 65536,
                v == f[m as int] + c,
        ;
    } else {
        lemma_mul_basics(radix::weight(65536, 0));
    }
}

proof fn lemma_columns_nonneg(a: Seq<int>, b: Seq<int>)
    requires
        u32_digits(a),
        u32_digits(b),
    ensures
        forall|k: int| 0 <= k < 31 ==> 0 <= #[trigger] columns(a, b)[k],
{
    assert forall|k: int| 0 <= k < 31 implies 0 <= #[trigger] columns(a, b)[k] by {
        product::lemma_column_rows_monotone(16, a, b, k, 16, 16);
    }
}

/// The reduced limbs of fitting columns are carried; where the fold fits, they keep
/// the value modulo the prime.
proof fn lemma_reduced_limbs(c: Seq<int>)
    requires
        c.len() == 31,
        forall|i: int| 0 <= i < 31 ==> 0 <= #[trigger] c[i],
        columns_fit(c),
    ensures
        ({
            let t = reduced_limbs(c);
            &&& fold_fits(c) ==> radix::eval(65536, t, 16) % radix::prime() == radix::eval(
                65536,
                c,
                31,
            ) % radix::prime()
            &&& 0 <= radix::eval(65536, t, 16) < radix::two256()
            &&& 0 <= t[0] <= 65573
            &&& forall|i: int| 1 <= i < 16 ==> 0 <= #[trigger] t[i] < 65536
        }),
{
    let f = folded(c);
    let d = Seq::new(16, |k: int| (f[k] + carry_in(f, k as nat)) % 65536);
    let top = carry_in(f, 16);
    let low = f[0] % 65536 + 38 * top;
    assert(carry_in(f, 0) == 0);
    assert forall|i: int| 0 <= i < 16 implies 0 <= #[trigger] f[i] by {}
    lemma_carry_in_range(f, 16);
    let spread = spread_limbs(c);
    assert(carry_room(spread));
    lemma_carry_limbs(spread);
    if fold_fits(c) {
        lemma_carry_in_value(f, 16);
        assert(spread =~= d.update(0, d[0] + 38 * top));
        radix::lemma_eval_update(65536, d, 0, d[0] + 38 * top, 16);
        assert(radix::weight(65536, 0) == 1);
        radix::lemma_weight_limits();
        product::lemma_folded_value(65536, 16, c);
        product::lemma_fold_identity(top);
        lemma_mod_multiples_vanish(2 * top, radix::eval(65536, spread, 16), radix::prime());
        assert(radix::prime() * (2 * top) == 2 * radix::prime() * top) by (nonlinear_arith);
    }
}

/// A product that is exact is the field product.
pub proof fn lemma_product(a: Fe, b: Fe, r: Fe)
    requires
        mul_exact(a, b),
        ints(r) == reduced_limbs(columns(ints(a), ints(b))),
    ensures
        residue(r) == (residue(a) * residue(b)) % radix::prime(),
{
    let c = columns(ints(a), ints(b));
    lemma_columns_nonneg(ints(a), ints(b));
    lemma_reduced_limbs(c);
    product::lemma_columns_value(65536, 16, ints(a), ints(b));
    lemma_mul_mod_noop(fe_value(a), fe_value(b), radix::prime());
}

proof fn lemma_carry_in_bound(f: Seq<int>, k: nat, bound: int)
    requires
        f.len() == 16,
        k <= 16,
        bound >= 0,
        forall|i: int| 0 <= i < 16 ==> 0 <= #[trigger] f[i] <= bound,
    ensures
        0 <= carry_in(f, k) <= bound / 32768,
    decreases k,
{
    if k > 0 {
        lemma_carry_in_bound(f, (k - 1) as nat, bound);
    }
}

/// Any limbs at all fit a product with limbs of up to 17 bits.
pub proof fn lemma_mul_small_fits(a: Fe, b: Fe)
    requires
        limbs_at_most(b, 0x2_0000),
    ensures
        mul_fits(a, b),
{
    let x = ints(a);
    let y = ints(b);
    let c = columns(x, y);
    let f = folded(c);
    let bound: int = 39int * 0x20_0000_0000_0000;
    assert forall|k: int| 0 <= k < 31 implies 0 <= #[trigger] c[k] <= 0x20_0000_0000_0000 by {
        product::lemma_column_rows_bound(16, x, 0x1_0000_0000, y, 0x2_0000, k, 16);
    }
    assert forall|k: int| 0 <= k < 16 implies 0 <= #[trigger] f[k] <= bound by {
        assert(0 <= c[k] <= 0x20_0000_0000_0000);
        if k < 15 {
            assert(0 <= c[k + 16] <= 0x20_0000_0000_0000);
        }
    }
    assert forall|k: int| 0 <= k < 16 implies (#[trigger] folded(c)[k]) + carry_in(
        folded(c),
        k as nat,
    ) <= u64::MAX by {
        assert(0 <= f[k] <= bound);
        lemma_carry_in_bound(f, k as nat, bound);
    }
}

/// Limbs of up to 2^19 always multiply exactly.
pub proof fn lemma_mul_exact(a: Fe, b: Fe)
    requires
        limbs_at_most(a, 0x8_0000),
        limbs_at_most(b, 0x8_0000),
    ensures
        mul_fits(a, b),
        mul_exact(a, b),
{
    let x = ints(a);
    let y = ints(b);
    let c = columns(x, y);
    let f = folded(c);
    assert forall|k: int| 0 <= k < 31 implies 0 <= #[trigger] c[k] <= 0x400_0000_0000 by {
        product::lemma_column_rows_bound(16, x, 0x8_0000, y, 0x8_0000, k, 16);
    }
    assert forall|k: int| 0 <= k < 16 implies 0 <= #[trigger] f[k] <= 39 * 0x400_0000_0000 by {
        assert(0 <= c[k] <= 0x400_0000_0000);
        if k < 15 {
            assert(0 <= c[k + 16] <= 0x400_0000_0000);
        }
    }
    assert forall|k: int| 0 <= k < 16 implies (#[trigger] folded(c)[k]) + carry_in(
        folded(c),
        k as nat,
    ) <= u64::MAX by {
        assert(0 <= f[k] <= 39 * 0x400_0000_0000);
        lemma_carry_in_bound(f, k as nat, 39int * 0x400_0000_0000);
    }
    lemma_carry_in_bound(f, 15, 39int * 0x400_0000_0000);
    assert(f[15] == c[15]);
    assert(0 <= c[15] <= 0x400_0000_0000);
    assert(carry_in(f, 16) == (f[15] + carry_in(f, 15)) / 65536);
}

/// The columns of the schoolbook product of `a` and `b`.
fn product_columns(a: &Fe, b: &Fe) -> (t: [u64; 31])
    requires
        mul_fits(*a, *b),
    ensures
        forall|k: int| 0 <= k < 31 ==> #[trigger] t[k] == columns(ints(*a), ints(*b))[k],
{
    let ghost x = ints(*a);
    let ghost y = ints(*b);
    let mut t: [u64; 31] = [0u64; 31];
    for i in 0..16usize
        invariant
            x == ints(*a),
            y == ints(*b),
            mul_fits(*a, *b),
            forall|k: int| 0 <= k < 31 ==> #[trigger] t[k] == product::column_rows(16, x, y, k, i as nat),
    {
        for j in 0..16usize
            invariant
                0 <= i < 16,
                x == ints(*a),
                y == ints(*b),
                mul_fits(*a, *b),
                forall|k: int|
                    0 <= k < 31 ==> #[trigger] t[k] == product::column_rows(16, x, y, k, i as nat) + if 0 <= k
                        - i < j {
                        product::row_term(16, x, y, k, i as int)
                    } else {
                        0
                    },
        {
            proof {
                let k = i + j;
                assert(x[i as int] == a[i as int] && y[j as int] == b[j as int]);
                assert(t[k] == product::column_rows(16, x, y, k, i as nat));
                assert(product::column_rows(16, x, y, k, (i + 1) as nat) == t[k] + a[i as int] * b[j as int]);
                lemma_column_fits(x, y, k, (i + 1) as nat);
                lemma_mul_upper_bound(a[i as int] as int, 0xFFFF_FFFF, b[j as int] as int, 0xFFFF_FFFF);
                lemma_mul_nonnegative(a[i as int] as int, b[j as int] as int);
            }
            t[i + j] = t[i + j] + (a[i] as u64) * (b[j] as u64);
        }
    }
    t
}

/// Every partial column of a fitting product is a 64-bit number.
proof fn lemma_column_fits(a: Seq<int>, b: Seq<int>, k: int, n: nat)
    requires
        u32_digits(a),
        u32_digits(b),
        columns_fit(columns(a, b)),
        0 <= k < 31,
        n <= 16,
    ensures
        0 <= product::column_rows(16, a, b, k, n) <= u64::MAX,
        k >= 16 ==> 38 * product::column_rows(16, a, b, k, n) <= u64::MAX,
{
    let c = columns(a, b);
    let f = folded(c);
    lemma_columns_nonneg(a, b);
    product::lemma_column_rows_monotone(16, a, b, k, n, 16);
    let j = if k < 16 {
        k
    } else {
        k - 16
    };
    assert(c[j] >= 0);
    assert(c[k] >= 0);
    if j < 15 {
        assert(c[j + 16] >= 0);
    }
    assert forall|i: int| 0 <= i < 16 implies 0 <= #[trigger] f[i] by {
        assert(c[i] >= 0);
        if i < 15 {
            assert(c[i + 16] >= 0);
        }
    }
    lemma_carry_in_range(f, j as nat);
    assert(f[j] + carry_in(f, j as nat) <= u64::MAX);
}

proof fn lemma_u64_split(v: u64)
    ensures
        v & 0xFFFF == v % 65536,
        v >> 16 == v / 65536,
        v & 0xFFFF_FFFF == v % 0x1_0000_0000,
        v >> 32 == v / 0x1_0000_0000,
{
    assert(v & 0xFFFF == v % 65536) by (bit_vector);
    assert(v >> 16 == v / 65536) by (bit_vector);
    assert(v & 0xFFFF_FFFF == v % 0x1_0000_0000) by (bit_vector);
    assert(v >> 32 == v / 0x1_0000_0000) by (bit_vector);
}

/// Folds the upper columns down and carries the rest into limbs.
fn reduce_columns(t: [u64; 31], Ghost(c): Ghost<Seq<int>>) -> (r: Fe)
    requires
        c.len() == 31,
        forall|k: int| 0 <= k < 31 ==> #[trigger] t[k] == c[k],
        columns_fit(c),
    ensures
        ints(r) == reduced_limbs(c),
        carried(r),
{
    let ghost f = folded(c);
    let mut t: [u64; 31] = t;
    proof {
        assert forall|i: int| 0 <= i < 31 implies 0 <= #[trigger] c[i] by {
            assert(t[i] == c[i]);
        }
        assert forall|i: int| 0 <= i < 16 implies 0 <= #[trigger] f[i] by {
            assert(c[i] >= 0);
            if i < 15 {
                assert(c[i + 16] >= 0);
            }
        }
    }
    for i in 0..15usize
        invariant
            c.len() == 31,
            f == folded(c),
            columns_fit(c),
            forall|k: int| 0 <= k < 16 ==> 0 <= #[trigger] f[k],
            forall|k: int| 0 <= k < i ==> #[trigger] t[k] == f[k],
            forall|k: int| i <= k < 31 ==> #[trigger] t[k] == c[k],
    {
        proof {
            assert(t[i as int] == c[i as int]);
            assert(t[i + 16] == c[i + 16]);
            assert(f[i as int] == c[i as int] + 38 * c[i + 16]);
            lemma_carry_in_range(f, i as nat);
            assert(f[i as int] + carry_in(f, i as nat) <= u64::MAX);
        }
        t[i] = t[i] + 38 * t[i + 16];
    }
    assert(t[15] == f[15]);
    let mut r: Fe = [0u32; 16];
    let mut carry: u64 = 0;
    for i in 0..16usize
        invariant
            c.len() == 31,
            f == folded(c),
            columns_fit(c),
            forall|k: int| 0 <= k < 16 ==> 0 <= #[trigger] f[k],
            forall|k: int| 0 <= k < 16 ==> #[trigger] t[k] == f[k],
            carry == carry_in(f, i as nat),
            forall|k: int|
                0 <= k < i ==> #[trigger] r[k] == (f[k] + carry_in(f, k as nat)) % 65536,
    {
        assert(f[i as int] + carry_in(f, i as nat) <= u64::MAX);
        let v: u64 = t[i] + carry;
        proof {
            lemma_u64_split(v);
        }
        r[i] = (v & 0xFFFF) as u32;
        carry = v >> 16;
    }
    proof {
        lemma_carry_in_range(f, 16);
        assert(carry_in(f, 0) == 0);
        assert(r[0] == f[0] % 65536);
    }
    let prod: u64 = 38u64 * carry;
    proof {
        lemma_u64_split(prod);
    }
    let r0_new: u64 = r[0] as u64 + (prod & 0xFFFF_FFFF);
    proof {
        lemma_u64_split(r0_new);
    }
    let ghost low = f[0] % 65536 + 38 * carry_in(f, 16);
    let ghost before = r;
    r[0] = (r0_new & 0xFFFF_FFFF) as u32;
    let r0_carry: u32 = (r0_new >> 32) as u32;
    r[1] = r[1].wrapping_add((prod >> 32) as u32).wrapping_add(r0_carry);
    let out: Fe = fe_carry(&r);
    proof {
        assert(low == before[0] + prod);
        assert(before[1] < 65536);
        assert(r[0] == low % 0x1_0000_0000);
        assert(r[1] == before[1] + low / 0x1_0000_0000);
        assert(ints(r) =~= spread_limbs(c));
    }
    out
}

/// The product of `a` and `b`: schoolbook columns, folded with 2^256 = 38 and carried.
/// It is the field product while the carry out of the top, times 38, stays in 32 bits,
/// as it does for limbs of up to 2^19.
pub fn fe_mul(a: &Fe, b: &Fe) -> (r: Fe)
    requires
        mul_fits(*a, *b),
    ensures
        ints(r) == reduced_limbs(columns(ints(*a), ints(*b))),
        carried(r),
        mul_exact(*a, *b) ==> residue(r) == (residue(*a) * residue(*b)) % radix::prime(),
{
    let t: [u64; 31] = product_columns(a, b);
    let r: Fe = reduce_columns(t, Ghost(columns(ints(*a), ints(*b))));
    proof {
        if mul_exact(*a, *b) {
            lemma_product(*a, *b, r);
        }
    }
    r
}

// ---- squares ----

/// What row `i` of the squaring adds to column `k`: the square on the diagonal, and
/// each cross product once, doubled.
pub open spec fn square_term(a: Seq<int>, k: int, i: int) -> int {
    if k - i == i {
        a[i] * a[i]
    } else if i < k - i < 16 {
        2 * (a[i] * a[k - i])
    } else {
        0
    }
}

/// Column `k` of the squaring after the first `n` rows.
pub open spec fn square_rows(a: Seq<int>, k: int, n: nat) -> int
    decreases n,
{
    if n == 0 {
        0
    } else {
        square_rows(a, k, (n - 1) as nat) + square_term(a, k, n - 1)
    }
}

/// The products of column `k` whose first factor has the smaller index, for the
/// first `n` rows.
spec fn lower_rows(a: Seq<int>, k: int, n: nat) -> int
    decreases n,
{
    if n == 0 {
        0
    } else {
        lower_rows(a, k, (n - 1) as nat) + if n - 1 < k - (n - 1) < 16 {
            a[n - 1] * a[k - (n - 1)]
        } else {
            0
        }
    }
}

/// The products of column `k` whose first factor has the larger index, for the
/// first `n` rows.
spec fn upper_rows(a: Seq<int>, k: int, n: nat) -> int
    decreases n,
{
    if n == 0 {
        0
    } else {
        upper_rows(a, k, (n - 1) as nat) + if 0 <= k - (n - 1) < n - 1 {
            a[n - 1] * a[k - (n - 1)]
        } else {
            0
        }
    }
}

spec fn clip16(z: int) -> nat {
    if z < 0 {
        0
    } else if z > 16 {
        16
    } else {
        z as nat
    }
}

proof fn lemma_square_split(a: Seq<int>, k: int, n: nat)
    requires
        0 <= k < 31,
        n <= 16,
    ensures
        square_rows(a, k, n) + upper_rows(a, k, n) == product::column_rows(16, a, a, k, n) + lower_rows(a, k, n),
    decreases n,
{
    if n > 0 {
        lemma_square_split(a, k, (n - 1) as nat);
    }
}

/// Rows below `m` pair up with the rows above `k - m`.
proof fn lemma_mirror(a: Seq<int>, k: int, m: nat)
    requires
        0 <= k < 31,
        m <= 16,
    ensures
        lower_rows(a, k, m) == upper_rows(a, k, 16) - upper_rows(a, k, clip16(k - m + 1)),
    decreases m,
{
    if m == 0 {
        if k + 1 < 16 {
            lemma_upper_beyond(a, k, 16);
        }
    } else {
        let i = m - 1;
        lemma_mirror(a, k, i as nat);
        let j = k - i;
        if 0 <= j < 16 {
            lemma_mul_is_commutative(a[i], a[j]);
            assert(clip16(j + 1) == j + 1);
            assert(clip16(j) == j);
        }
    }
}

/// Rows past `k` add nothing to column `k`.
proof fn lemma_upper_beyond(a: Seq<int>, k: int, n: nat)
    requires
        0 <= k < n <= 16,
    ensures
        upper_rows(a, k, n) == upper_rows(a, k, (k + 1) as nat),
    decreases n,
{
    if n > k + 1 {
        lemma_upper_beyond(a, k, (n - 1) as nat);
    }
}

/// Rows far below `k` add nothing above the diagonal.
proof fn lemma_upper_before(a: Seq<int>, k: int, n: nat)
    requires
        n == 0 || n <= k - 15,
        n <= 16,
    ensures
        upper_rows(a, k, n) == 0,
    decreases n,
{
    if n > 0 {
        lemma_upper_before(a, k, (n - 1) as nat);
    }
}

/// The squaring has the columns of the product of `a` with itself.
proof fn lemma_square_columns(a: Seq<int>, k: int)
    requires
        0 <= k < 31,
    ensures
        square_rows(a, k, 16) == columns(a, a)[k],
{
    lemma_square_split(a, k, 16);
    lemma_mirror(a, k, 16);
    lemma_upper_before(a, k, clip16(k - 15));
}

proof fn lemma_square_monotone(a: Seq<int>, k: int, n: nat, m: nat)
    requires
        u32_digits(a),
        n <= m <= 16,
    ensures
        0 <= square_rows(a, k, n) <= square_rows(a, k, m),
    decreases m,
{
    if m > 0 {
        let i = m - 1;
        lemma_mul_nonnegative(a[i], a[i]);
        if i < k - i < 16 {
            lemma_mul_nonnegative(a[i], a[k - i]);
        }
        if n < m {
            lemma_square_monotone(a, k, n, (m - 1) as nat);
        } else {
            lemma_square_monotone(a, k, (m - 1) as nat, (m - 1) as nat);
        }
    }
}

proof fn lemma_square_fits(a: Seq<int>, k: int, n: nat)
    requires
        u32_digits(a),
        columns_fit(columns(a, a)),
        0 <= k < 31,
        n <= 16,
    ensures
        0 <= square_rows(a, k, n) <= u64::MAX,
{
    lemma_square_monotone(a, k, n, 16);
    lemma_square_columns(a, k);
    lemma_column_fits(a, a, k, 16);
}

/// The columns of the square of `a`, each cross product computed once and doubled.
fn square_columns(a: &Fe) -> (t: [u64; 31])
    requires
        mul_fits(*a, *a),
    ensures
        forall|k: int| 0 <= k < 31 ==> #[trigger] t[k] == columns(ints(*a), ints(*a))[k],
{
    let ghost x = ints(*a);
    let mut t: [u64; 31] = [0u64; 31];
    for i in 0..16usize
        invariant
            x == ints(*a),
            mul_fits(*a, *a),
            forall|k: int| 0 <= k < 31 ==> #[trigger] t[k] == square_rows(x, k, i as nat),
    {
        proof {
            let k = i + i;
            assert(x[i as int] == a[i as int]);
            assert(t[k] == square_rows(x, k, i as nat));
            assert(square_rows(x, k, (i + 1) as nat) == t[k] + a[i as int] * a[i as int]);
            lemma_square_fits(x, k, (i + 1) as nat);
            lemma_square_fits(x, k, i as nat);
        }
        t[i + i] = t[i + i] + (a[i] as u64) * (a[i] as u64);
        for j in (i + 1)..16usize
            invariant
                0 <= i < 16,
                x == ints(*a),
                mul_fits(*a, *a),
                forall|k: int|
                    0 <= k < 31 ==> #[trigger] t[k] == square_rows(x, k, i as nat) + if 0 <= k - i
                        < j {
                        square_term(x, k, i as int)
                    } else {
                        0
                    },
        {
            proof {
                let k = i + j;
                assert(x[i as int] == a[i as int] && x[j as int] == a[j as int]);
                assert(t[k] == square_rows(x, k, i as nat));
                assert(square_rows(x, k, (i + 1) as nat) == t[k] + 2 * (a[i as int] * a[j as int]));
                lemma_square_fits(x, k, (i + 1) as nat);
                lemma_square_fits(x, k, i as nat);
                lemma_mul_is_associative(2, a[i as int] as int, a[j as int] as int);
                lemma_mul_nonnegative(a[i as int] as int, a[j as int] as int);
            }
            t[i + j] = t[i + j] + 2 * (a[i] as u64) * (a[j] as u64);
        }
    }
    proof {
        assert forall|k: int| 0 <= k < 31 implies #[trigger] t[k] == columns(x, x)[k] by {
            lemma_square_columns(x, k);
        }
    }
    t
}

/// The square of `a`, limb for limb what `fe_mul` gives for `a` and `a`.
pub fn fe_sq(a: &Fe) -> (r: Fe)
    requires
        mul_fits(*a, *a),
    ensures
        ints(r) == reduced_limbs(columns(ints(*a), ints(*a))),
        carried(r),
        mul_exact(*a, *a) ==> residue(r) == (residue(*a) * residue(*a)) % radix::prime(),
{
    let t: [u64; 31] = square_columns(a);
    let r: Fe = reduce_columns(t, Ghost(columns(ints(*a), ints(*a))));
    proof {
        if mul_exact(*a, *a) {
            lemma_product(*a, *a, r);
        }
    }
    r
}

/// Limbs are equal when their integers are.
pub proof fn lemma_ints_injective(a: Fe, b: Fe)
    requires
        ints(a) == ints(b),
    ensures
        a@ == b@,
        a == b,
{
    assert forall|i: int| 0 <= i < 16 implies a@[i] == b@[i] by {
        assert(ints(a)[i] == a[i] && ints(b)[i] == b[i]);
    }
    assert(a@ =~= b@);
    assert(a =~= b);
}

/// Squaring is multiplying by itself: `fe_sq` and `fe_mul` give the same limbs, for
/// reduced and unreduced input alike.
pub proof fn law_square_is_product(a: Fe, sq: Fe, mul: Fe)
    requires
        mul_fits(a, a),
        ints(sq) == reduced_limbs(columns(ints(a), ints(a))),
        ints(mul) == reduced_limbs(columns(ints(a), ints(a))),
    ensures
        sq == mul,
{
    lemma_ints_injective(sq, mul);
}

// ---- differences ----

/// Limb `i` of twice the prime.
pub open spec fn two_p_limb(i: int) -> int {
    if i == 0 {
        0xFFDA
    } else {
        0xFFFF
    }
}

/// Limb `i` of twice the prime, lifted by 2^16, less limb `i` of `b` and the borrow
/// from the limb below, in 32 bits.
pub open spec fn sub_diff(b: Seq<int>, i: nat) -> int
    decreases i,
{
    if i == 0 {
        (two_p_limb(0) + 65536 - b[0]) % 0x1_0000_0000
    } else {
        (two_p_limb(i as int) + 65536 - b[i as int] - if sub_diff(b, (i - 1) as nat) < 65536 {
            1int
        } else {
            0int
        }) % 0x1_0000_0000
    }
}

/// The borrow into limb `i`: the difference below it used up its lift.
pub open spec fn sub_borrow(b: Seq<int>, i: nat) -> int {
    if i > 0 && sub_diff(b, (i - 1) as nat) < 65536 {
        1
    } else {
        0
    }
}

/// `a + 2p - b` limb by limb, before the final borrow is settled.
pub open spec fn sub_lifted(a: Seq<int>, b: Seq<int>) -> Seq<int> {
    Seq::new(16, |i: int| (a[i] + sub_diff(b, i as nat) % 65536) % 0x1_0000_0000)
}

/// What is still to be taken off limb `i` of `s`, when `owe` is taken off limb 0.
pub open spec fn owed(s: Seq<int>, owe: int, i: nat) -> int
    decreases i,
{
    if i == 0 {
        owe
    } else if s[i - 1] >= owed(s, owe, (i - 1) as nat) {
        0
    } else {
        1
    }
}

/// `s` with `owe` taken off, borrowing 2^16 from limb to limb.
pub open spec fn settle(s: Seq<int>, owe: int) -> Seq<int> {
    Seq::new(
        16,
        |i: int|
            s[i] - owed(s, owe, i as nat) + if s[i] >= owed(s, owe, i as nat) {
                0int
            } else {
                65536int
            },
    )
}

/// The limbs of `fe_sub`: `a + 2p - b`, and 38 less where the final borrow let 2^256 in.
pub open spec fn sub_limbs(a: Seq<int>, b: Seq<int>) -> Seq<int> {
    settle(sub_lifted(a, b), 38 * sub_borrow(b, 16))
}

/// Inputs on which `fe_sub` is the field difference: the limbs of `b` are covered by
/// those of lifted 2p, those of `a` have room for 16 bits more, and `b` is not so
/// large that `a + 2p - b` drops below -2^256.
pub open spec fn sub_exact(a: Fe, b: Fe) -> bool {
    &&& b[0] <= 0x1_FFDA
    &&& forall|i: int| 1 <= i < 16 ==> #[trigger] b[i] <= 0x1_FFFE
    &&& forall|i: int| 0 <= i < 16 ==> #[trigger] a[i] <= 0xFFFF_0000
    &&& fe_value(b) + 38 <= 2 * radix::prime() + radix::two256() + fe_value(a)
}

/// A subtrahend with limbs below 2^16 and a bit, as every product leaves them, is exact.
pub proof fn lemma_sub_exact(a: Fe, b: Fe)
    requires
        limbs_at_most(b, 0x1_FFDA),
        limbs_at_most(a, 0xFFFF_0000),
    ensures
        sub_exact(a, b),
{
    let c = Seq::new(16, |i: int| 0x1_FFDAint);
    assert forall|i: int| 0 <= i < 16 implies ints(b)[i] <= c[i] by {
        assert(b[i] <= 0x1_FFDA);
    }
    lemma_eval_le(ints(b), c, 16);
    let ones = Seq::new(16, |i: int| 1int);
    radix::lemma_eval_scale(65536, ones, 0x1_FFDA, c, 16);
    lemma_repunit(16);
    radix::lemma_weight_limits();
    radix::lemma_eval_nonneg(65536, ints(a), 16);
}

/// Digit-wise order carries over to values.
proof fn lemma_eval_le(s: Seq<int>, t: Seq<int>, n: nat)
    requires
        forall|i: int| 0 <= i < n ==> s[i] <= t[i],
    ensures
        radix::eval(65536, s, n) <= radix::eval(65536, t, n),
    decreases n,
{
    if n > 0 {
        lemma_eval_le(s, t, (n - 1) as nat);
        radix::lemma_weight_pos(65536, (n - 1) as nat);
        lemma_mul_inequality(s[n - 1], t[n - 1], radix::weight(65536, (n - 1) as nat));
    }
}

/// The value of limbs that are all one.
proof fn lemma_repunit(n: nat)
    requires
        n <= 16,
    ensures
        65535 * radix::eval(65536, Seq::new(16, |i: int| 1int), n) == radix::weight(65536, n) - 1,
    decreases n,
{
    if n > 0 {
        lemma_repunit((n - 1) as nat);
        lemma_mul_basics(radix::weight(65536, (n - 1) as nat));
    }
}

/// The value of the limbs of twice the prime.
proof fn lemma_two_p_value()
    ensures
        radix::eval(65536, Seq::new(16, |i: int| two_p_limb(i)), 16) == 2 * radix::prime(),
{
    reveal_with_fuel(radix::weight, 17);
    reveal_with_fuel(radix::eval, 17);
}

/// The digits of `2p - b`, with the final borrow on top.
proof fn lemma_sub_digits(b: Seq<int>, n: nat)
    requires
        b.len() == 16,
        n <= 16,
        0 <= b[0] <= 0x1_FFDA,
        forall|i: int| 1 <= i < 16 ==> 0 <= #[trigger] b[i] <= 0x1_FFFE,
    ensures
        radix::eval(65536, Seq::new(16, |i: int| sub_diff(b, i as nat) % 65536), n) == radix::eval(
            65536,
            Seq::new(16, |i: int| two_p_limb(i)),
            n,
        ) - radix::eval(65536, b, n) + sub_borrow(b, n) * radix::weight(65536, n),
    decreases n,
{
    let d = Seq::new(16, |i: int| sub_diff(b, i as nat) % 65536);
    let c = Seq::new(16, |i: int| two_p_limb(i));
    if n == 0 {
        lemma_mul_basics(radix::weight(65536, 0));
    } else {
        let m = (n - 1) as nat;
        lemma_sub_digits(b, m);
        let w = radix::weight(65536, m);
        let bi = sub_borrow(b, m);
        let bo = sub_borrow(b, n);
        let v = sub_diff(b, m);
        assert(v == two_p_limb(m as int) + 65536 - b[m as int] - bi);
        assert(d[m as int] == c[m as int] - b[m as int] - bi + 65536 * bo);
        assert(d[m as int] * w + bi * w == c[m as int] * w - b[m as int] * w + bo * (65536 * w))
            by (nonlinear_arith)
            requires
                d[m as int] == c[m as int] - b[m as int] - bi + 65536 * bo,
        ;
    }
}

/// Settling takes `owe` off the value, with the last borrow on top.
proof fn lemma_settle_value(s: Seq<int>, owe: int, n: nat)
    requires
        s.len() == 16,
        n <= 16,
    ensures
        radix::eval(65536, settle(s, owe), n) == radix::eval(65536, s, n) - owe + owed(s, owe, n)
            * radix::weight(65536, n),
    decreases n,
{
    if n == 0 {
        lemma_mul_basics(owe);
    } else {
        let m = (n - 1) as nat;
        lemma_settle_value(s, owe, m);
        let w = radix::weight(65536, m);
        let o = owed(s, owe, m);
        let p = owed(s, owe, n);
        let t = settle(s, owe)[m as int];
        assert(t == s[m as int] - o + 65536 * p);
        assert(t * w + o * w == s[m as int] * w + p * (65536 * w)) by (nonlinear_arith)
            requires
                t == s[m as int] - o + 65536 * p,
        ;
    }
}

/// A debt survives limb `n` only where the limbs below hold less than it.
proof fn lemma_owed_small(s: Seq<int>, owe: int, n: nat)
    requires
        s.len() == 16,
        1 <= n <= 16,
        owe >= 0,
        forall|i: int| 0 <= i < 16 ==> 0 <= #[trigger] s[i],
        owed(s, owe, n) != 0,
    ensures
        radix::eval(65536, s, n) < owe,
        owed(s, owe, n) == 1,
    decreases n,
{
    let m = (n - 1) as nat;
    assert(s[m as int] < owed(s, owe, m));
    if m == 0 {
        assert(radix::eval(65536, s, 0) == 0);
        assert(radix::weight(65536, 0) == 1);
    } else {
        lemma_owed_small(s, owe, m);
        assert(s[m as int] == 0);
        lemma_mul_basics(radix::weight(65536, m));
    }
}

/// Where the inputs are exact, the limbs of `fe_sub` stand for the field difference.
proof fn lemma_sub_value(a: Fe, b: Fe)
    requires
        sub_exact(a, b),
    ensures
        radix::eval(65536, sub_limbs(ints(a), ints(b)), 16) % radix::prime() == (fe_value(a)
            - fe_value(b)) % radix::prime(),
{
    let x = ints(a);
    let y = ints(b);
    let l = sub_lifted(x, y);
    let d = Seq::new(16, |i: int| sub_diff(y, i as nat) % 65536);
    let bo = sub_borrow(y, 16);
    let p = radix::prime();
    assert(0 <= y[0] <= 0x1_FFDA);
    assert forall|i: int| 1 <= i < 16 implies 0 <= #[trigger] y[i] <= 0x1_FFFE by {
        assert(b[i] <= 0x1_FFFE);
    }
    lemma_sub_digits(y, 16);
    lemma_two_p_value();
    radix::lemma_weight_limits();
    assert forall|i: int| 0 <= i < 16 implies l[i] == x[i] + d[i] by {
        assert(a[i] <= 0xFFFF_0000);
    }
    radix::lemma_eval_add(65536, x, d, l, 16);
    lemma_settle_value(l, 38 * bo, 16);
    let v = radix::eval(65536, l, 16);
    assert(bo == 0 || bo == 1);
    assert(bo * radix::weight(65536, 16) == if bo == 0 { 0 } else { radix::two256() });
    assert(v == fe_value(a) - fe_value(b) + 2 * p + if bo == 0 { 0 } else { radix::two256() });
    if owed(l, 38 * bo, 16) != 0 {
        lemma_owed_small(l, 38 * bo, 16);
        radix::lemma_eval_nonneg(65536, l, 16);
        assert(false);
    }
    lemma_mul_basics(radix::weight(65536, 16));
    let r = radix::eval(65536, sub_limbs(x, y), 16);
    let diff = fe_value(a) - fe_value(b);
    assert(r == diff + 2 * p + if bo == 0 { 0 } else { 2 * p });
    lemma_mod_multiples_vanish(2, diff, p);
    lemma_mod_multiples_vanish(4, diff, p);
}

/// `a - b`, as `a + 2p - b` limb by limb.
pub fn fe_sub(a: &Fe, b: &Fe) -> (r: Fe)
    ensures
        ints(r) == sub_limbs(ints(*a), ints(*b)),
        forall|i: int| 0 <= i < 16 ==> #[trigger] r[i] <= a[i] + 0xFFFF,
        sub_exact(*a, *b) ==> residue(r) == (residue(*a) - residue(*b)) % radix::prime(),
{
    let ghost x = ints(*a);
    let ghost y = ints(*b);
    let mut r: Fe = [0u32; 16];
    let mut d: u32 = (0xFFDAu32 + 0x10000u32).wrapping_sub(b[0]);
    proof {
        lemma_u32_split(d);
        assert(y[0] == b[0]);
    }
    r[0] = a[0].wrapping_add(d & 0xFFFF);
    let mut borrow: u32 = if d < 0x10000 {
        1
    } else {
        0
    };
    for i in 1..16usize
        invariant
            x == ints(*a),
            y == ints(*b),
            borrow == sub_borrow(y, i as nat),
            forall|k: int| 0 <= k < i ==> #[trigger] r[k] == sub_lifted(x, y)[k],
            forall|k: int| 0 <= k < i ==> #[trigger] r[k] <= a[k] + 0xFFFF,
    {
        d = (0xFFFFu32 + 0x10000u32).wrapping_sub(b[i]).wrapping_sub(borrow);
        proof {
            lemma_u32_split(d);
            assert(y[i as int] == b[i as int]);
            assert(d == sub_diff(y, i as nat));
        }
        r[i] = a[i].wrapping_add(d & 0xFFFF);
        borrow = if d < 0x10000 {
            1
        } else {
            0
        };
    }
    let ghost l = sub_lifted(x, y);
    let ghost debt = 38 * sub_borrow(y, 16);
    let mut owe: u32 = borrow * 38;
    for i in 0..16usize
        invariant
            l.len() == 16,
            0 <= debt <= 38,
            owe == owed(l, debt, i as nat),
            owe <= 38,
            forall|k: int| 0 <= k < i ==> #[trigger] r[k] == settle(l, debt)[k],
            forall|k: int| i <= k < 16 ==> #[trigger] r[k] == l[k],
            forall|k: int| 0 <= k < 16 ==> #[trigger] r[k] <= a[k] + 0xFFFF,
    {
        let limb: u32 = r[i];
        assert(limb == l[i as int]);
        if limb >= owe {
            r[i] = limb - owe;
            owe = 0;
        } else {
            r[i] = (limb + 0x10000) - owe;
            owe = 1;
        }
    }
    proof {
        assert(ints(r) =~= sub_limbs(x, y));
        if sub_exact(*a, *b) {
            lemma_sub_value(*a, *b);
            lemma_sub_mod_noop(fe_value(*a), fe_value(*b), radix::prime());
        }
    }
    r
}

// ---- reduced form and bytes ----

/// Limb `i` of the prime.
pub open spec fn p_limb(i: int) -> int {
    if i == 0 {
        0xFFED
    } else if i == 15 {
        0x7FFF
    } else {
        0xFFFF
    }
}

/// The value of the limbs of the prime.
proof fn lemma_p_value()
    ensures
        radix::eval(65536, Seq::new(16, |i: int| p_limb(i)), 16) == radix::prime(),
{
    reveal_with_fuel(radix::weight, 17);
    reveal_with_fuel(radix::eval, 17);
}

/// Limbs in plain 16-bit digits.
pub open spec fn digits16(a: Fe) -> bool {
    forall|i: int| 0 <= i < 16 ==> #[trigger] a[i] < 65536
}

/// Takes the prime off once, if it fits.
fn subtract_p_once(r: &Fe) -> (out: Fe)
    requires
        digits16(*r),
    ensures
        digits16(out),
        fe_value(out) == if fe_value(*r) >= radix::prime() {
            fe_value(*r) - radix::prime()
        } else {
            fe_value(*r)
        },
{
    let ghost s = ints(*r);
    let ghost c = Seq::new(16, |i: int| p_limb(i));
    let mut t: Fe = [0u32; 16];
    let mut borrow: u32 = 0;
    assert(radix::eval(65536, s, 0) == 0 && radix::eval(65536, ints(t), 0) == 0);
    assert(radix::eval(65536, c, 0) == 0);
    assert(radix::weight(65536, 0) == 1);
    for i in 0..16usize
        invariant
            s == ints(*r),
            c == Seq::new(16, |k: int| p_limb(k)),
            digits16(*r),
            borrow <= 1,
            forall|k: int| 0 <= k < i ==> #[trigger] t[k] < 65536,
            radix::eval(65536, s, i as nat) == radix::eval(65536, ints(t), i as nat) + radix::eval(
                65536,
                c,
                i as nat,
            ) - borrow * radix::weight(65536, i as nat),
    {
        let limb: u32 = if i == 0 {
            0xFFED
        } else if i == 15 {
            0x7FFF
        } else {
            0xFFFF
        };
        let d: u32 = r[i].wrapping_sub(limb).wrapping_sub(borrow);
        let next: u32 = if r[i] < limb + borrow {
            1
        } else {
            0
        };
        let ghost before = t;
        t[i] = d & 0xFFFF;
        proof {
            lemma_u32_split(d);
            assert(r[i as int] < 65536);
            let x = r[i as int] as int;
            let y = t[i as int] as int;
            assert(y == x - limb - borrow + 65536 * next);
            let w = radix::weight(65536, i as nat);
            assert(x * w == y * w + limb * w + borrow * w - next * (65536 * w)) by (nonlinear_arith)
                requires
                    y == x - limb - borrow + 65536 * next,
            ;
            radix::lemma_eval_prefix(65536, ints(before), ints(t), i as nat);
            assert(s[i as int] == x && ints(t)[i as int] == y && c[i as int] == limb);
            assert(radix::weight(65536, (i + 1) as nat) == 65536 * w);
        }
        borrow = next;
    }
    let mask: u32 = (borrow ^ 1).wrapping_mul(0xFFFF_FFFF);
    proof {
        assert(borrow == 0 ==> borrow ^ 1 == 1) by (bit_vector);
        assert(borrow == 1 ==> borrow ^ 1 == 0) by (bit_vector);
        assert(mask == if borrow == 0 { 0xFFFF_FFFFu32 } else { 0u32 });
    }
    let mut out: Fe = *r;
    for i in 0..16usize
        invariant
            mask == 0 || mask == 0xFFFF_FFFF,
            forall|k: int|
                0 <= k < i ==> #[trigger] out[k] == if mask == 0 {
                    r[k]
                } else {
                    t[k]
                },
            forall|k: int| i <= k < 16 ==> #[trigger] out[k] == r[k],
    {
        proof {
            let x = t[i as int];
            let y = r[i as int];
            assert((x & 0) | (y & !0u32) == y) by (bit_vector);
            assert((x & 0xFFFF_FFFF) | (y & !0xFFFF_FFFFu32) == x) by (bit_vector);
        }
        out[i] = (t[i] & mask) | (out[i] & !mask);
    }
    proof {
        lemma_p_value();
        radix::lemma_weight_limits();
        radix::lemma_eval_bound(65536, s, 16);
        radix::lemma_eval_bound(65536, ints(t), 16);
        lemma_mul_basics(radix::two256());
        if mask == 0 {
            assert(ints(out) =~= s);
        } else {
            assert(ints(out) =~= ints(t));
        }
    }
    out
}

/// The unique reduced form: 16-bit digits of a value below the prime. For limbs with
/// room for an incoming carry it is the residue of `a`.
pub fn fe_freeze(a: &Fe) -> (r: Fe)
    ensures
        digits16(r),
        fe_value(r) == radix::eval(65536, carry_limbs(ints(*a)), 16) % radix::prime(),
        carry_room(ints(*a)) ==> fe_value(r) == residue(*a),
{
    let c1: Fe = fe_carry(a);
    let c2: Fe = fe_carry(&c1);
    proof {
        lemma_carry_limbs(ints(*a));
        let s = ints(c1);
        assert(s[0] == c1[0]);
        assert forall|i: int| 1 <= i < 16 implies 0 <= #[trigger] s[i] < 65536 by {
            assert(s[i] == c1[i]);
        }
        lemma_second_sweep(s);
        lemma_second_sweep(carry_sweep(s));
        assert forall|i: int| 0 <= i < 16 implies #[trigger] c2[i] < 65536 by {
            assert(ints(c2)[i] == c2[i]);
        }
        assert(fe_value(c2) == fe_value(c1));
    }
    let d1: Fe = subtract_p_once(&c2);
    let d2: Fe = subtract_p_once(&d1);
    proof {
        let p = radix::prime();
        radix::lemma_weight_limits();
        radix::lemma_eval_bound(65536, ints(d2), 16);
        let v = fe_value(c2);
        lemma_small_mod(fe_value(d2) as nat, p as nat);
        lemma_mod_multiples_vanish(-1, v, p);
        lemma_mod_multiples_vanish(-2, v, p);
    }
    d2
}

/// The canonical little-endian bytes of the field element.
pub fn fe_pack(a: &Fe) -> (out: [u8; 32])
    ensures
        radix::le_value(out@) == radix::eval(65536, carry_limbs(ints(*a)), 16) % radix::prime(),
        carry_room(ints(*a)) ==> radix::le_value(out@) == residue(*a),
{
    let f: Fe = fe_freeze(a);
    let mut out: [u8; 32] = [0u8; 32];
    for i in 0..16usize
        invariant
            digits16(f),
            forall|k: int|
                0 <= k < i ==> #[trigger] f[k] == out[2 * k] as int + 256 * (out[2 * k + 1] as int),
    {
        let v: u32 = f[i];
        proof {
            assert(v < 65536);
            assert(v & 0xFF == v % 256) by (bit_vector);
            assert((v >> 8) & 0xFF == v / 256) by (bit_vector)
                requires
                    v < 65536,
            ;
        }
        out[2 * i] = (v & 0xFF) as u8;
        out[2 * i + 1] = ((v >> 8) & 0xFF) as u8;
    }
    proof {
        let s = radix::byte_ints(out@);
        let t = ints(f);
        assert forall|i: int| 0 <= i < 16 implies #[trigger] t[i] == s[2 * i] + 256 * s[2 * i
            + 1] by {
            assert(f[i] == out[2 * i] as int + 256 * (out[2 * i + 1] as int));
        }
        radix::lemma_eval_pairs(256, s, t, 16);
    }
    out
}

/// The limbs of a little-endian 32-byte number.
pub fn fe_from_bytes(b: &[u8; 32]) -> (r: Fe)
    ensures
        forall|i: int| 0 <= i < 16 ==> #[trigger] r[i] == b[2 * i] + 256 * b[2 * i + 1],
        digits16(r),
        fe_value(r) == radix::le_value(b@),
{
    let mut r: Fe = [0u32; 16];
    for i in 0..16usize
        invariant
            forall|k: int| 0 <= k < i ==> #[trigger] r[k] == b[2 * k] + 256 * b[2 * k + 1],
    {
        r[i] = b[2 * i] as u32 + 256 * (b[2 * i + 1] as u32);
    }
    proof {
        let s = radix::byte_ints(b@);
        let t = ints(r);
        assert forall|i: int| 0 <= i < 16 implies #[trigger] t[i] == s[2 * i] + 256 * s[2 * i
            + 1] by {
            assert(r[i] == b[2 * i] + 256 * b[2 * i + 1]);
        }
        radix::lemma_eval_pairs(256, s, t, 16);
    }
    r
}

// ---- what the operations come to ----

/// The number that limbs make.
pub open spec fn number(a: Fe) -> int {
    radix::eval(65536, Seq::new(16, |i: int| a[i] as int), 16)
}

proof fn lemma_number(a: Fe)
    ensures
        number(a) == fe_value(a),
        number(a) % radix::prime() == residue(a),
{
    assert(ints(a) =~= Seq::new(16, |i: int| a[i] as int));
}

/// The product and the square of limbs of up to 2^19 are those of the numbers, modulo the
/// prime.
pub proof fn law_products(a: Fe, b: Fe, product: Fe, square: Fe)
    requires
        call_ensures(fe_mul, (&a, &b), product),
        call_ensures(fe_sq, (&a,), square),
        forall|i: int| 0 <= i < 16 ==> #[trigger] a[i] <= 0x8_0000,
        forall|i: int| 0 <= i < 16 ==> #[trigger] b[i] <= 0x8_0000,
    ensures
        number(product) % radix::prime() == (number(a) * number(b)) % radix::prime(),
        number(square) % radix::prime() == (number(a) * number(a)) % radix::prime(),
        number(product) < radix::two256(),
        number(square) < radix::two256(),
{
    lemma_number(a);
    lemma_number(b);
    lemma_number(product);
    lemma_number(square);
    lemma_mul_exact(a, b);
    lemma_mul_exact(a, a);
    lemma_mul_mod_noop(fe_value(a), fe_value(b), radix::prime());
    lemma_mul_mod_noop(fe_value(a), fe_value(a), radix::prime());
    lemma_columns_nonneg(ints(a), ints(b));
    lemma_columns_nonneg(ints(a), ints(a));
    lemma_reduced_limbs(columns(ints(a), ints(b)));
    lemma_reduced_limbs(columns(ints(a), ints(a)));
}

/// What a product comes to for any limbs whose columns can be added up. With the columns from
/// 2^256 on folded down times 38, the carry out of the top goes times 38 to the lowest limb;
/// each 2^32 that this exceeds the limb by comes back as 2^16, and nothing else is lost.
pub proof fn law_any_product(a: Fe, b: Fe, r: Fe)
    requires
        mul_fits(a, b),
        call_ensures(fe_mul, (&a, &b), r),
    ensures
        ({
            let f = radix::eval(65536, folded(columns(ints(a), ints(b))), 16);
            let low = f % 65536 + 38 * (f / radix::two256());
            let lost = low / 0x1_0000_0000;
            number(r) % radix::prime() == (number(a) * number(b) - lost * 0xFFFF_0000)
                % radix::prime()
        }),
{
    let c = columns(ints(a), ints(b));
    lemma_number(a);
    lemma_number(b);
    lemma_number(r);
    lemma_columns_nonneg(ints(a), ints(b));
    product::lemma_columns_value(65536, 16, ints(a), ints(b));
    lemma_spread(c);
}

/// The same of the columns.
proof fn lemma_spread(c: Seq<int>)
    requires
        c.len() == 31,
        forall|i: int| 0 <= i < 31 ==> 0 <= #[trigger] c[i],
        columns_fit(c),
    ensures
        ({
            let f = radix::eval(65536, folded(c), 16);
            let low = f % 65536 + 38 * (f / radix::two256());
            let lost = low / 0x1_0000_0000;
            radix::eval(65536, reduced_limbs(c), 16) % radix::prime() == (radix::eval(65536, c, 31)
                - lost * 0xFFFF_0000) % radix::prime()
        }),
{
    let p = radix::prime();
    let f = folded(c);
    let d = Seq::new(16, |k: int| (f[k] + carry_in(f, k as nat)) % 65536);
    let top = carry_in(f, 16);
    let low = f[0] % 65536 + 38 * top;
    let lost = low / 0x1_0000_0000;
    assert(carry_in(f, 0) == 0);
    assert forall|i: int| 0 <= i < 16 implies 0 <= #[trigger] f[i] by {}
    lemma_carry_in_range(f, 16);
    let spread = spread_limbs(c);
    assert(carry_room(spread));
    lemma_carry_limbs(spread);
    lemma_carry_in_value(f, 16);
    radix::lemma_weight_limits();
    radix::lemma_eval_bound(65536, d, 16);
    radix::lemma_eval_cons(65536, d, 15);
    let value = radix::eval(65536, f, 16);
    let rest = radix::eval(65536, d.skip(1), 15);
    assert(value / radix::two256() == top) by {
        lemma_fundamental_div_mod_converse(
            value,
            radix::two256(),
            top,
            radix::eval(65536, d, 16),
        );
    }
    assert(value % 65536 == d[0]) by {
        let w = radix::weight(65536, 15);
        assert(radix::two256() == 65536 * w) by {
            assert(radix::weight(65536, 16) == 65536 * w);
        }
        assert(value == 65536 * (rest + top * w) + d[0]) by (nonlinear_arith)
            requires
                value == d[0] + 65536 * rest + top * (65536 * w),
        ;
        lemma_fundamental_div_mod_converse(value, 65536, rest + top * w, d[0]);
    }
    let once = d.update(0, low % 0x1_0000_0000);
    assert(spread =~= once.update(1, d[1] + lost));
    radix::lemma_eval_update(65536, d, 0, low % 0x1_0000_0000, 16);
    radix::lemma_eval_update(65536, once, 1, d[1] + lost, 16);
    assert(radix::weight(65536, 0) == 1);
    assert(radix::weight(65536, 1) == 65536 * radix::weight(65536, 0));
    assert(radix::eval(65536, once, 16) == radix::eval(65536, d, 16) + (low % 0x1_0000_0000
        - d[0]));
    assert(radix::eval(65536, spread, 16) == radix::eval(65536, once, 16) + lost * 65536);
    let sum = radix::eval(65536, spread, 16);
    assert(low == 0x1_0000_0000 * lost + low % 0x1_0000_0000);
    assert(sum == radix::eval(65536, d, 16) + 38 * top - lost * 0xFFFF_0000);
    product::lemma_folded_value(65536, 16, c);
    product::lemma_fold_identity(top);
    let back = lost * 0xFFFF_0000;
    // value - back == sum + 2 p top
    assert(value - back == sum + p * (2 * top));
    lemma_mod_multiples_vanish(2 * top, sum, p);
    lemma_sub_mod_noop(value, back, p);
    lemma_sub_mod_noop(radix::eval(65536, c, 31), back, p);
}

/// Squaring gives limb for limb what multiplying by itself gives, whatever the limbs.
pub proof fn law_squaring_multiplies(a: Fe, product: Fe, square: Fe)
    requires
        mul_fits(a, a),
        call_ensures(fe_mul, (&a, &a), product),
        call_ensures(fe_sq, (&a,), square),
    ensures
        product@ == square@,
{
    lemma_ints_injective(product, square);
}

/// Sums and differences are those of the numbers: the sum outright, while no limb goes past 32
/// bits, and the difference modulo the prime, for a subtrahend with limbs of up to 0x1_FFDA.
pub proof fn law_sums(a: Fe, b: Fe, sum: Fe, difference: Fe)
    requires
        call_ensures(fe_add, (&a, &b), sum),
        call_ensures(fe_sub, (&a, &b), difference),
        forall|i: int| 0 <= i < 16 ==> #[trigger] a[i] <= 0xFFFD_0000,
        forall|i: int| 0 <= i < 16 ==> #[trigger] b[i] <= 0x1_FFDA,
    ensures
        number(sum) == number(a) + number(b),
        number(difference) % radix::prime() == (number(a) - number(b)) % radix::prime(),
{
    lemma_number(a);
    lemma_number(b);
    lemma_number(sum);
    lemma_number(difference);
    assert forall|i: int| 0 <= i < 16 implies #[trigger] a[i] + b[i] < 0x1_0000_0000 by {
        assert(a[i] <= 0xFFFD_0000);
        assert(b[i] <= 0x1_FFDA);
    }
    assert(limbs_at_most(a, 0xFFFF_0000)) by {
        assert forall|i: int| 0 <= i < 16 implies #[trigger] a[i] <= 0xFFFF_0000 by {
            assert(a[i] <= 0xFFFD_0000);
        }
    }
    lemma_sub_exact(a, b);
    lemma_sub_mod_noop(fe_value(a), fe_value(b), radix::prime());
}

/// Each limb of a sum is the sum of the limbs, modulo 2^32.
pub proof fn law_limbwise_sum(a: Fe, b: Fe, sum: Fe, i: int)
    requires
        call_ensures(fe_add, (&a, &b), sum),
        0 <= i < 16,
    ensures
        sum[i] == a[i] + b[i] || sum[i] == a[i] + b[i] - 0x1_0000_0000,
{
    assert(sum[i] == (a[i] + b[i]) % 0x1_0000_0000);
}

/// Carrying, freezing and packing keep the number modulo the prime, as long as every limb but
/// the lowest has room for a carry. What is frozen or packed is below the prime, so two numbers
/// are packed alike exactly if they are the same modulo the prime.
pub proof fn law_canonical(a: Fe, carry: Fe, frozen: Fe, packed: [u8; 32])
    requires
        call_ensures(fe_carry, (&a,), carry),
        call_ensures(fe_freeze, (&a,), frozen),
        call_ensures(fe_pack, (&a,), packed),
        forall|i: int| 1 <= i < 16 ==> #[trigger] a[i] <= 0xFFFF_0000,
    ensures
        number(carry) % radix::prime() == number(a) % radix::prime(),
        carry[0] <= 65573,
        forall|i: int| 1 <= i < 16 ==> #[trigger] carry[i] < 65536,
        number(frozen) == number(a) % radix::prime(),
        forall|i: int| 0 <= i < 16 ==> #[trigger] frozen[i] < 65536,
        radix::le_value(packed@) == number(a) % radix::prime(),
{
    lemma_number(a);
    lemma_number(carry);
    lemma_number(frozen);
    assert(carry_room(ints(a))) by {
        assert forall|i: int| 1 <= i < 16 implies #[trigger] ints(a)[i] <= 0xFFFF_0000 by {
            assert(a[i] <= 0xFFFF_0000);
        }
    }
    lemma_carry_limbs(ints(a));
    assert(ints(carry)[0] == carry[0]);
    assert forall|i: int| 1 <= i < 16 implies #[trigger] carry[i] < 65536 by {
        assert(ints(carry)[i] == carry[i]);
    }
}

/// Bytes go into limbs and come back: a number below the prime is packed as it was read.
pub proof fn law_read_and_pack(b: [u8; 32], a: Fe, packed: [u8; 32])
    requires
        call_ensures(fe_from_bytes, (&b,), a),
        call_ensures(fe_pack, (&a,), packed),
    ensures
        number(a) == radix::le_value(b@),
        radix::le_value(packed@) == radix::le_value(b@) % radix::prime(),
{
    lemma_number(a);
    assert(carry_room(ints(a))) by {
        assert forall|i: int| 0 <= i < 16 implies 0 <= #[trigger] ints(a)[i] < 65536 by {
            assert(a[i] < 65536);
        }
    }
}

} // verus!
