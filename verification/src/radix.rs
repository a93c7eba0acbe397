//! Positional numerals, least significant digit first, and the prime of the field.

use vstd::arithmetic::div_mod::*;
use vstd::arithmetic::mul::*;
use vstd::prelude::*;

verus! {

/// The field prime, 2^255 - 19.
pub open spec fn prime() -> int {
    0x7fffffffffffffffffffffffffffffffffffffffffffffffffffffffffffffedint
}

/// 2^256, the weight just past 32 bytes.
pub open spec fn two256() -> int {
    0x10000000000000000000000000000000000000000000000000000000000000000int
}

/// Weight of digit `i` in radix `b`: `b` to the power `i`.
pub open spec fn weight(b: int, i: nat) -> int
    decreases i,
{
    if i == 0 {
        1
    } else {
        b * weight(b, (i - 1) as nat)
    }
}

/// Value of the first `n` digits of `s` in radix `b`.
pub open spec fn eval(b: int, s: Seq<int>, n: nat) -> int
    decreases n,
{
    if n == 0 {
        0
    } else {
        eval(b, s, (n - 1) as nat) + s[n - 1] * weight(b, (n - 1) as nat)
    }
}

/// The bytes of `s` as integers.
pub open spec fn byte_ints(s: Seq<u8>) -> Seq<int> {
    Seq::new(s.len(), |i: int| s[i] as int)
}

/// The integer that `s` encodes in little-endian byte order.
pub open spec fn le_value(s: Seq<u8>) -> int {
    eval(256, byte_ints(s), s.len())
}

pub proof fn lemma_weight_pos(b: int, i: nat)
    requires
        b >= 1,
    ensures
        weight(b, i) >= 1,
    decreases i,
{
    if i > 0 {
        lemma_weight_pos(b, (i - 1) as nat);
        lemma_mul_strictly_positive(b, weight(b, (i - 1) as nat));
    }
}

pub proof fn lemma_weight_limits()
    ensures
        weight(65536, 16) == two256(),
        weight(0x1_0000_0000, 8) == two256(),
        weight(256, 32) == two256(),
        two256() == 2 * prime() + 38,
{
    reveal_with_fuel(weight, 33);
}

pub proof fn lemma_weight_add(b: int, i: nat, j: nat)
    ensures
        weight(b, i + j) == weight(b, i) * weight(b, j),
    decreases i,
{
    if i == 0 {
    } else {
        lemma_weight_add(b, (i - 1) as nat, j);
        lemma_mul_is_associative(b, weight(b, (i - 1) as nat), weight(b, j));
        assert((i - 1) as nat + j == (i + j - 1) as nat);
    }
}

/// `eval` reads nothing past digit `n`.
pub proof fn lemma_eval_prefix(b: int, s: Seq<int>, t: Seq<int>, n: nat)
    requires
        forall|i: int| 0 <= i < n ==> s[i] == t[i],
    ensures
        eval(b, s, n) == eval(b, t, n),
    decreases n,
{
    if n > 0 {
        lemma_eval_prefix(b, s, t, (n - 1) as nat);
    }
}

/// A numeral of zeros is zero.
pub proof fn lemma_eval_zero(b: int, s: Seq<int>, n: nat)
    requires
        forall|i: int| 0 <= i < n ==> #[trigger] s[i] == 0,
    ensures
        eval(b, s, n) == 0,
    decreases n,
{
    if n > 0 {
        lemma_eval_zero(b, s, (n - 1) as nat);
        lemma_mul_basics(weight(b, (n - 1) as nat));
    }
}

/// Digit-wise sums evaluate to the sum.
pub proof fn lemma_eval_add(b: int, s: Seq<int>, t: Seq<int>, u: Seq<int>, n: nat)
    requires
        forall|i: int| 0 <= i < n ==> u[i] == s[i] + t[i],
    ensures
        eval(b, u, n) == eval(b, s, n) + eval(b, t, n),
    decreases n,
{
    if n > 0 {
        lemma_eval_add(b, s, t, u, (n - 1) as nat);
        lemma_mul_is_distributive_add_other_way(weight(b, (n - 1) as nat), s[n - 1], t[n - 1]);
    }
}

/// Digit-wise scaling evaluates to the scaled value.
pub proof fn lemma_eval_scale(b: int, s: Seq<int>, k: int, u: Seq<int>, n: nat)
    requires
        forall|i: int| 0 <= i < n ==> u[i] == k * s[i],
    ensures
        eval(b, u, n) == k * eval(b, s, n),
    decreases n,
{
    if n > 0 {
        let m = (n - 1) as nat;
        lemma_eval_scale(b, s, k, u, m);
        lemma_mul_is_associative(k, s[n - 1], weight(b, m));
        lemma_mul_is_distributive_add(k, eval(b, s, m), s[n - 1] * weight(b, m));
    } else {
        assert(k * 0 == 0) by (nonlinear_arith);
    }
}

/// Changing one digit changes the value by the difference at that weight.
pub proof fn lemma_eval_update(b: int, s: Seq<int>, i: nat, v: int, n: nat)
    requires
        i < n <= s.len(),
    ensures
        eval(b, s.update(i as int, v), n) == eval(b, s, n) + (v - s[i as int]) * weight(b, i),
    decreases n,
{
    let u = s.update(i as int, v);
    if i + 1 == n {
        lemma_eval_prefix(b, s, u, i);
        lemma_mul_is_distributive_sub_other_way(weight(b, i), v, s[i as int]);
    } else {
        lemma_eval_update(b, s, i, v, (n - 1) as nat);
    }
}

/// A numeral whose digits are below the radix is below the weight of its length.
pub proof fn lemma_eval_bound(b: int, s: Seq<int>, n: nat)
    requires
        b >= 1,
        forall|i: int| 0 <= i < n ==> 0 <= #[trigger] s[i] < b,
    ensures
        0 <= eval(b, s, n) < weight(b, n),
    decreases n,
{
    if n > 0 {
        let m = (n - 1) as nat;
        let w = weight(b, m);
        lemma_eval_bound(b, s, m);
        lemma_weight_pos(b, m);
        lemma_mul_inequality(s[n - 1], b - 1, w);
        lemma_mul_nonnegative(s[n - 1], w);
        lemma_mul_is_distributive_sub_other_way(w, b, 1);
    }
}

/// A numeral with nonnegative digits is nonnegative.
pub proof fn lemma_eval_nonneg(b: int, s: Seq<int>, n: nat)
    requires
        b >= 1,
        forall|i: int| 0 <= i < n ==> 0 <= #[trigger] s[i],
    ensures
        0 <= eval(b, s, n),
    decreases n,
{
    if n > 0 {
        let m = (n - 1) as nat;
        lemma_eval_nonneg(b, s, m);
        lemma_weight_pos(b, m);
        lemma_mul_nonnegative(s[n - 1], weight(b, m));
    }
}

/// Splitting a numeral at digit `m`.
pub proof fn lemma_eval_split(b: int, s: Seq<int>, m: nat, n: nat)
    requires
        m + n <= s.len(),
    ensures
        eval(b, s, m + n) == eval(b, s, m) + weight(b, m) * eval(b, s.skip(m as int), n),
    decreases n,
{
    let w = weight(b, m);
    let u = s.skip(m as int);
    if n > 0 {
        let k = (n - 1) as nat;
        lemma_eval_split(b, s, m, k);
        assert((m + n - 1) as nat == m + k);
        lemma_weight_add(b, m, k);
        let d = s[m + n - 1];
        assert(u[n - 1] == d);
        lemma_mul_is_associative(d, w, weight(b, k));
        lemma_mul_is_commutative(d, w);
        lemma_mul_is_associative(w, d, weight(b, k));
        lemma_mul_is_distributive_add(w, eval(b, u, k), d * weight(b, k));
    } else {
        assert(w * 0 == 0) by (nonlinear_arith);
    }
}

/// Reading digits two at a time squares the radix.
pub proof fn lemma_eval_pairs(b: int, s: Seq<int>, t: Seq<int>, n: nat)
    requires
        forall|i: int| 0 <= i < n ==> #[trigger] t[i] == s[2 * i] + b * s[2 * i + 1],
    ensures
        eval(b * b, t, n) == eval(b, s, 2 * n),
        weight(b * b, n) == weight(b, 2 * n),
    decreases n,
{
    if n > 0 {
        let m = (n - 1) as nat;
        lemma_eval_pairs(b, s, t, m);
        let w = weight(b, 2 * m);
        reveal_with_fuel(weight, 3);
        reveal_with_fuel(eval, 3);
        assert((2 * n - 1) as nat == 2 * m + 1 && (2 * n - 2) as nat == 2 * m);
        assert(weight(b, 2 * m + 1) == b * w);
        assert(weight(b, 2 * n) == b * weight(b, 2 * m + 1));
        lemma_mul_is_associative(b, b, w);
        let x = s[2 * (m as int)];
        let y = s[2 * (m as int) + 1];
        assert(t[m as int] == x + b * y);
        assert((x + b * y) * w == x * w + y * (b * w)) by (nonlinear_arith);
        assert(eval(b, s, 2 * n) == eval(b, s, 2 * m + 1) + y * weight(b, 2 * m + 1));
        assert(eval(b, s, 2 * m + 1) == eval(b, s, 2 * m) + x * w);
    }
}

/// Horner's rule: the lowest digit, and the radix times the rest.
pub proof fn lemma_eval_cons(b: int, s: Seq<int>, n: nat)
    requires
        n + 1 <= s.len(),
    ensures
        eval(b, s, n + 1) == s[0] + b * eval(b, s.skip(1), n),
{
    lemma_eval_split(b, s, 1, n);
    assert(eval(b, s, 0) == 0);
    assert(weight(b, 0) == 1);
    assert(eval(b, s, 1) == eval(b, s, 0) + s[0] * weight(b, 0));
    assert(weight(b, 1) == b * weight(b, 0));
}

/// One more digit, with the value so far and the weight known.
pub proof fn lemma_eval_next(b: int, s: Seq<int>, n: nat, digit: int, w: int, acc: int)
    requires
        eval(b, s, n) == acc,
        weight(b, n) == w,
        s[n as int] == digit,
    ensures
        eval(b, s, n + 1) == acc + digit * w,
        weight(b, n + 1) == b * w,
{
}

/// The low `len` bytes of a number, least significant first.
pub open spec fn le_bytes(n: int, len: nat) -> Seq<u8> {
    Seq::new(len, |i: int| ((n / weight(256, i as nat)) % 256) as u8)
}

/// The low bytes of a number are the number up to their weight.
pub proof fn lemma_le_bytes(n: int, len: nat)
    requires
        n >= 0,
    ensures
        le_value(le_bytes(n, len)) == n % weight(256, len),
    decreases len,
{
    let s = byte_ints(le_bytes(n, len));
    if len > 0 {
        let k = (len - 1) as nat;
        let w = weight(256, k);
        let t = byte_ints(le_bytes(n, k));
        lemma_le_bytes(n, k);
        lemma_weight_pos(256, k);
        lemma_eval_prefix(256, s, t, k);
        assert(s[k as int] == (n / w) % 256);
        lemma_mod_breakdown(n, w, 256);
        lemma_mul_is_commutative(w, 256);
        lemma_mul_is_commutative(w, (n / w) % 256);
    }
}

} // verus!
