//! Schoolbook products of numerals.

use crate::radix;
use vstd::arithmetic::div_mod::*;
use vstd::arithmetic::mul::*;
use vstd::prelude::*;

verus! {

/// What row `i` of the product of two `n`-digit numerals adds to column `k`.
pub open spec fn row_term(n: nat, a: Seq<int>, b: Seq<int>, k: int, i: int) -> int {
    if 0 <= k - i < n {
        a[i] * b[k - i]
    } else {
        0
    }
}

/// Column `k` of the product after the first `m` rows.
pub open spec fn column_rows(n: nat, a: Seq<int>, b: Seq<int>, k: int, m: nat) -> int
    decreases m,
{
    if m == 0 {
        0
    } else {
        column_rows(n, a, b, k, (m - 1) as nat) + row_term(n, a, b, k, m - 1)
    }
}

/// All columns of the product: the sums of `a[i] * b[k - i]`.
pub open spec fn columns(n: nat, a: Seq<int>, b: Seq<int>) -> Seq<int> {
    Seq::new((2 * n - 1) as nat, |k: int| column_rows(n, a, b, k, n))
}

/// One row, read as a numeral, is its digit times the other factor, shifted.
proof fn lemma_row_value(base: int, n: nat, a: Seq<int>, b: Seq<int>, i: nat, m: nat)
    requires
        i < n,
        m <= 2 * n - 1,
    ensures
        radix::eval(
            base,
            Seq::new((2 * n - 1) as nat, |k: int| row_term(n, a, b, k, i as int)),
            m,
        ) == (a[i as int] * radix::weight(base, i)) * radix::eval(
            base,
            b,
            if m <= i {
                0
            } else if m <= i + n {
                (m - i) as nat
            } else {
                n
            },
        ),
    decreases m,
{
    let row = Seq::new((2 * n - 1) as nat, |k: int| row_term(n, a, b, k, i as int));
    let w = radix::weight(base, i);
    let x = a[i as int] * w;
    if m == 0 {
        assert(x * 0 == 0) by (nonlinear_arith);
    } else {
        let l = (m - 1) as nat;
        lemma_row_value(base, n, a, b, i, l);
        let wl = radix::weight(base, l);
        if i <= l < i + n {
            let j = (l - i) as nat;
            let y = b[j as int];
            radix::lemma_weight_add(base, i, j);
            let wj = radix::weight(base, j);
            assert(row[l as int] == a[i as int] * y);
            assert((a[i as int] * y) * wl == x * (y * wj)) by (nonlinear_arith)
                requires
                    wl == w * wj,
                    x == a[i as int] * w,
            ;
            lemma_mul_is_distributive_add(x, radix::eval(base, b, j), y * wj);
            assert((m - i) as nat == j + 1);
            assert(radix::eval(base, b, j + 1) == radix::eval(base, b, j) + y * wj);
            if l == i {
                assert(radix::eval(base, b, 0) == 0);
            }
        } else {
            assert(row[l as int] == 0);
            lemma_mul_basics(wl);
        }
    }
}

/// The first `m` rows, read as a numeral, multiply the first `m` digits of `a` by `b`.
proof fn lemma_rows_value(base: int, n: nat, a: Seq<int>, b: Seq<int>, m: nat)
    requires
        1 <= n,
        m <= n,
    ensures
        radix::eval(
            base,
            Seq::new((2 * n - 1) as nat, |k: int| column_rows(n, a, b, k, m)),
            (2 * n - 1) as nat,
        ) == radix::eval(base, a, m) * radix::eval(base, b, n),
    decreases m,
{
    let width = (2 * n - 1) as nat;
    let cur = Seq::new(width, |k: int| column_rows(n, a, b, k, m));
    let vb = radix::eval(base, b, n);
    if m == 0 {
        radix::lemma_eval_zero(base, cur, width);
        lemma_mul_basics(vb);
    } else {
        let l = (m - 1) as nat;
        let prev = Seq::new(width, |k: int| column_rows(n, a, b, k, l));
        let row = Seq::new(width, |k: int| row_term(n, a, b, k, l as int));
        lemma_rows_value(base, n, a, b, l);
        lemma_row_value(base, n, a, b, l, width);
        assert forall|k: int| 0 <= k < width implies cur[k] == prev[k] + row[k] by {}
        radix::lemma_eval_add(base, prev, row, cur, width);
        lemma_mul_is_distributive_add_other_way(
            vb,
            radix::eval(base, a, l),
            a[l as int] * radix::weight(base, l),
        );
    }
}

/// The columns, read as a numeral, are the product of the factors.
pub proof fn lemma_columns_value(base: int, n: nat, a: Seq<int>, b: Seq<int>)
    requires
        1 <= n,
    ensures
        radix::eval(base, columns(n, a, b), (2 * n - 1) as nat) == radix::eval(base, a, n)
            * radix::eval(base, b, n),
{
    lemma_rows_value(base, n, a, b, n);
    assert(columns(n, a, b) =~= Seq::new(
        (2 * n - 1) as nat,
        |k: int| column_rows(n, a, b, k, n),
    ));
}

/// Columns only grow from row to row.
pub proof fn lemma_column_rows_monotone(
    n: nat,
    a: Seq<int>,
    b: Seq<int>,
    k: int,
    l: nat,
    m: nat,
)
    requires
        forall|i: int| 0 <= i < n ==> 0 <= #[trigger] a[i],
        forall|i: int| 0 <= i < n ==> 0 <= #[trigger] b[i],
        l <= m <= n,
    ensures
        0 <= column_rows(n, a, b, k, l) <= column_rows(n, a, b, k, m),
    decreases m,
{
    if m > 0 {
        let i = m - 1;
        if 0 <= k - i < n {
            lemma_mul_nonnegative(a[i], b[k - i]);
        }
        if l < m {
            lemma_column_rows_monotone(n, a, b, k, l, (m - 1) as nat);
        } else {
            lemma_column_rows_monotone(n, a, b, k, (m - 1) as nat, (m - 1) as nat);
        }
    }
}

/// Bounded digits give bounded columns.
pub proof fn lemma_column_rows_bound(
    n: nat,
    a: Seq<int>,
    x: int,
    b: Seq<int>,
    y: int,
    k: int,
    m: nat,
)
    requires
        forall|i: int| 0 <= i < n ==> 0 <= #[trigger] a[i] <= x,
        forall|i: int| 0 <= i < n ==> 0 <= #[trigger] b[i] <= y,
        x >= 0,
        y >= 0,
        m <= n,
    ensures
        0 <= column_rows(n, a, b, k, m) <= m * (x * y),
    decreases m,
{
    if m > 0 {
        let l = (m - 1) as nat;
        lemma_column_rows_bound(n, a, x, b, y, k, l);
        let i = m - 1;
        lemma_mul_nonnegative(x, y);
        if 0 <= k - i < n {
            lemma_mul_nonnegative(a[i], b[k - i]);
            lemma_mul_upper_bound(a[i], x, b[k - i], y);
        }
        lemma_mul_is_distributive_add_other_way(x * y, l as int, 1);
        lemma_mul_basics(x * y);
    } else {
        lemma_mul_basics(x * y);
    }
}

/// 2^256 is 38 more than twice the prime.
pub proof fn lemma_fold_identity(k: int)
    ensures
        2 * radix::prime() * k == k * radix::two256() - 38 * k,
        radix::prime() * (2 * k) == k * radix::two256() - 38 * k,
{
    radix::lemma_weight_limits();
    assert(2 * radix::prime() * k == k * radix::two256() - 38 * k) by (nonlinear_arith)
        requires
            radix::two256() == 2 * radix::prime() + 38,
    ;
    assert(radix::prime() * (2 * k) == 2 * radix::prime() * k) by (nonlinear_arith);
}

/// The `n` columns left once those of weight 2^256 and up are folded down times 38.
pub open spec fn folded(n: nat, c: Seq<int>) -> Seq<int> {
    Seq::new(
        n,
        |k: int|
            c[k] + if k < n - 1 {
                38 * c[k + n]
            } else {
                0
            },
    )
}

/// Folding keeps the value modulo the prime.
pub proof fn lemma_folded_value(base: int, n: nat, c: Seq<int>)
    requires
        1 <= n,
        c.len() == 2 * n - 1,
        radix::weight(base, n) == radix::two256(),
    ensures
        radix::eval(base, folded(n, c), n) % radix::prime() == radix::eval(
            base,
            c,
            (2 * n - 1) as nat,
        ) % radix::prime(),
{
    let hi = c.skip(n as int);
    let m = (n - 1) as nat;
    let up = Seq::new(
        n,
        |k: int|
            if k < n - 1 {
                38 * c[k + n]
            } else {
                0
            },
    );
    let h = radix::eval(base, hi, m);
    radix::lemma_eval_split(base, c, n, m);
    radix::lemma_eval_add(base, c, up, folded(n, c), n);
    assert forall|i: int| 0 <= i < m implies up[i] == 38 * hi[i] by {}
    radix::lemma_eval_scale(base, hi, 38, up, m);
    lemma_mul_basics(radix::weight(base, m));
    assert(radix::eval(base, up, n) == 38 * h);
    lemma_fold_identity(h);
    lemma_mod_multiples_vanish(2 * h, radix::eval(base, folded(n, c), n), radix::prime());
    lemma_mul_is_commutative(h, radix::two256());
}

} // verus!
