//! Prime moduli: inverses, Euclid's lemma, Fermat's little theorem, and Pocklington's
//! test, by which large primes are certified.

use vstd::arithmetic::div_mod::*;
use vstd::arithmetic::mul::*;
use vstd::arithmetic::power::*;
use vstd::prelude::*;
use vstd::seq_lib::*;
use vstd::set_lib::*;

verus! {

pub open spec fn is_prime(n: int) -> bool {
    n >= 2 && forall|d: int| 1 < d < n ==> #[trigger] (n % d) != 0
}

// ---- congruences ----

/// Congruent numbers differ by a multiple of the modulus.
pub proof fn lemma_quotient(a: int, b: int, m: int) -> (k: int)
    requires
        m > 0,
        a % m == b % m,
    ensures
        a == b + m * k,
{
    lemma_fundamental_div_mod(a, m);
    lemma_fundamental_div_mod(b, m);
    let k = a / m - b / m;
    lemma_mul_is_distributive_sub(m, a / m, b / m);
    k
}

/// Numbers that differ by a multiple of the modulus are congruent.
pub proof fn lemma_congruent(a: int, b: int, m: int, k: int)
    requires
        m > 0,
        a == b + m * k,
    ensures
        a % m == b % m,
{
    lemma_mod_multiples_vanish(k, b, m);
}

/// Congruent factors have congruent products.
pub proof fn lemma_congruent_mul(a: int, b: int, c: int, d: int, m: int)
    requires
        m > 0,
        a % m == b % m,
        c % m == d % m,
    ensures
        (a * c) % m == (b * d) % m,
{
    lemma_mul_mod_noop_general(a, c, m);
    lemma_mul_mod_noop_general(b, d, m);
}

// ---- inverses ----

/// Every nonzero residue has an inverse modulo a prime.
pub proof fn lemma_inverse(a: int, p: int) -> (b: int)
    requires
        is_prime(p),
        0 < a < p,
    ensures
        0 < b < p,
        (a * b) % p == 1,
    decreases a,
{
    if a == 1 {
        lemma_small_mod(1, p as nat);
        1
    } else {
        let q = p / a;
        let r = p % a;
        lemma_fundamental_div_mod(p, a);
        lemma_mod_bound(p, a);
        let s = lemma_inverse(r, p);
        let b = (-q * s) % p;
        lemma_mod_bound(-q * s, p);
        assert(a * (-q * s) == p * (-s) + r * s) by (nonlinear_arith)
            requires
                p == a * q + r,
        ;
        lemma_mod_multiples_vanish(-s, r * s, p);
        lemma_mul_mod_noop_general(a, -q * s, p);
        if b == 0 {
            lemma_mul_basics(a);
            lemma_small_mod(0, p as nat);
        }
        b
    }
}

/// Euclid's lemma: a prime that divides a product divides a factor.
pub proof fn lemma_euclid(a: int, b: int, p: int)
    requires
        is_prime(p),
        (a * b) % p == 0,
    ensures
        a % p == 0 || b % p == 0,
{
    if a % p != 0 {
        lemma_mod_bound(a, p);
        let s = lemma_inverse(a % p, p);
        lemma_mul_mod_noop_general(a, s, p);
        // b = 1 * b = (s * a) * b = s * (a * b) = 0
        lemma_small_mod(1, p as nat);
        lemma_congruent_mul(a * s, 1, b, b, p);
        lemma_small_mod(0, p as nat);
        lemma_congruent_mul(a * b, 0, s, s, p);
        assert((a * s) * b == (a * b) * s) by (nonlinear_arith);
        lemma_mul_basics(b);
        lemma_mul_basics(s);
    }
}

/// A nonzero factor can be cancelled modulo a prime.
pub proof fn lemma_cancel(a: int, b: int, c: int, p: int)
    requires
        is_prime(p),
        a % p != 0,
        (a * b) % p == (a * c) % p,
    ensures
        b % p == c % p,
{
    lemma_mod_equivalence(a * b, a * c, p);
    lemma_mul_is_distributive_sub(a, b, c);
    lemma_euclid(a, b - c, p);
    lemma_mod_equivalence(b, c, p);
}

// ---- Fermat's little theorem ----

spec fn times() -> spec_fn(int, int) -> int {
    |x: int, acc: int| x * acc
}

/// The residues 1 to `n`.
spec fn first(n: nat) -> Seq<int> {
    Seq::new(n, |i: int| i + 1)
}

/// The residues of `a`, `2a`, up to `n a`.
spec fn multiples(a: int, p: int, n: nat) -> Seq<int> {
    Seq::new(n, |i: int| (a * (i + 1)) % p)
}

proof fn lemma_times_commutes()
    ensures
        commutative_foldr(times()),
{
    assert forall|x: int, y: int, v: int| #[trigger]
        times()(x, times()(y, v)) == times()(y, times()(x, v)) by {
        assert(x * (y * v) == y * (x * v)) by (nonlinear_arith);
    }
}

/// The product of the multiples is the power of `a` times the product of the residues.
proof fn lemma_fold_multiples(a: int, p: int, n: nat, v: int, w: int)
    requires
        p > 1,
        v % p == w % p,
    ensures
        multiples(a, p, n).fold_right(times(), v) % p == (pow(a, n) * first(n).fold_right(
            times(),
            w,
        )) % p,
    decreases n,
{
    let s = multiples(a, p, n);
    let t = first(n);
    if n == 0 {
        lemma_pow0(a);
        lemma_mul_basics(w);
    } else {
        let m = (n - 1) as nat;
        assert(s.drop_last() =~= multiples(a, p, m));
        assert(t.drop_last() =~= first(m));
        // Move the factor a out of the last multiple by folding it into the start value.
        let v1 = times()(s.last(), v);
        let w1 = times()(t.last(), w);
        assert(v1 == ((a * n) % p) * v);
        assert(w1 == n * w);
        lemma_mul_mod_noop_general(a * n, v, p);
        lemma_congruent_mul(a * n, a * n, v, w, p);
        assert((a * n) * w == a * (n * w)) by (nonlinear_arith);
        assert(v1 % p == (a * w1) % p);
        lemma_fold_multiples(a, p, m, v1, a * w1);
        lemma_fold_scale(first(m), a, w1);
        let f = first(m).fold_right(times(), w1);
        assert(pow(a, n) == a * pow(a, m)) by {
            reveal(pow);
        }
        assert(pow(a, m) * (a * f) == (a * pow(a, m)) * f) by (nonlinear_arith);
    }
}

/// A factor of the start value comes out of a product.
proof fn lemma_fold_scale(s: Seq<int>, a: int, v: int)
    ensures
        s.fold_right(times(), a * v) == a * s.fold_right(times(), v),
    decreases s.len(),
{
    if s.len() > 0 {
        let x = s.last();
        assert(x * (a * v) == a * (x * v)) by (nonlinear_arith);
        lemma_fold_scale(s.drop_last(), a, x * v);
    }
}

/// The product of 1 to `n` is not divisible by a prime above `n`.
proof fn lemma_factorial_nonzero(n: nat, v: int, p: int)
    requires
        is_prime(p),
        n < p,
        v % p != 0,
    ensures
        first(n).fold_right(times(), v) % p != 0,
    decreases n,
{
    if n > 0 {
        let m = (n - 1) as nat;
        assert(first(n).drop_last() =~= first(m));
        lemma_small_mod(n, p as nat);
        if (n * v) % p == 0 {
            lemma_euclid(n as int, v, p);
        }
        lemma_factorial_nonzero(m, n * v, p);
    }
}

/// Multiplication by a nonzero residue permutes the nonzero residues.
proof fn lemma_multiples_permute(a: int, p: int)
    requires
        is_prime(p),
        a % p != 0,
    ensures
        multiples(a, p, (p - 1) as nat).to_multiset() == first((p - 1) as nat).to_multiset(),
{
    broadcast use group_to_multiset_ensures;

    let n = (p - 1) as nat;
    let s = multiples(a, p, n);
    let t = first(n);
    assert forall|i: int, j: int| 0 <= i < n && 0 <= j < n && i != j implies s[i] != s[j] by {
        if s[i] == s[j] {
            lemma_cancel(a, i + 1, j + 1, p);
            lemma_small_mod((i + 1) as nat, p as nat);
            lemma_small_mod((j + 1) as nat, p as nat);
        }
    }
    assert forall|i: int| 0 <= i < n implies 1 <= #[trigger] s[i] < p by {
        lemma_mod_bound(a * (i + 1), p);
        if s[i] == 0 {
            lemma_euclid(a, i + 1, p);
            lemma_small_mod((i + 1) as nat, p as nat);
        }
    }
    let range = set_int_range(1, p);
    lemma_int_range(1, p);
    s.unique_seq_to_set();
    assert(s.to_set().subset_of(range));
    seq_to_set_is_finite(s);
    lemma_subset_equality(s.to_set(), range);
    s.lemma_multiset_has_no_duplicates();
    t.lemma_multiset_has_no_duplicates();
    assert forall|x: int| #[trigger] s.to_multiset().count(x) == t.to_multiset().count(x) by {
        assert(s.contains(x) <==> s.to_set().contains(x));
        assert(range.contains(x) <==> 1 <= x < p);
        if 1 <= x < p {
            assert(t[x - 1] == x);
            assert(t.contains(x));
        } else {
            assert(!t.contains(x));
        }
    }
    assert(s.to_multiset() =~= t.to_multiset());
}

/// Fermat's little theorem.
pub proof fn lemma_fermat(a: int, p: int)
    requires
        is_prime(p),
        a % p != 0,
    ensures
        pow(a, (p - 1) as nat) % p == 1,
{
    let n = (p - 1) as nat;
    let f = first(n).fold_right(times(), 1);
    lemma_multiples_permute(a, p);
    lemma_times_commutes();
    lemma_fold_right_permutation(multiples(a, p, n), first(n), times(), 1);
    lemma_fold_multiples(a, p, n, 1, 1);
    lemma_small_mod(1, p as nat);
    lemma_factorial_nonzero(n, 1, p);
    lemma_mul_basics(f);
    lemma_mul_is_commutative(pow(a, n), f);
    lemma_cancel(f, pow(a, n), 1, p);
}

// ---- certificates ----

/// The least divisor of `n` above 1, searched for from `d` on.
proof fn lemma_least_divisor(n: int, d: int) -> (l: int)
    requires
        2 <= d <= n,
        forall|e: int| 1 < e < d ==> #[trigger] (n % e) != 0,
    ensures
        2 <= l <= n,
        n % l == 0,
        forall|e: int| 1 < e < l ==> #[trigger] (n % e) != 0,
    decreases n - d,
{
    if n % d == 0 {
        d
    } else {
        lemma_mod_self_0(n);
        lemma_least_divisor(n, d + 1)
    }
}

/// What divides a divisor divides the number.
pub proof fn lemma_divides_trans(d: int, l: int, n: int)
    requires
        d > 0,
        l > 0,
        l % d == 0,
        n % l == 0,
    ensures
        n % d == 0,
{
    lemma_fundamental_div_mod(l, d);
    lemma_fundamental_div_mod(n, l);
    let k = (l / d) * (n / l);
    assert(n == 0 + d * k) by (nonlinear_arith)
        requires
            n == l * (n / l),
            l == d * (l / d),
            k == (l / d) * (n / l),
    ;
    lemma_congruent(n, 0, d, k);
    lemma_small_mod(0, d as nat);
}

/// A number above 1 that is not prime has a prime divisor up to its square root.
pub proof fn lemma_prime_divisor(n: int) -> (l: int)
    requires
        n >= 2,
        !is_prime(n),
    ensures
        is_prime(l),
        n % l == 0,
        l * l <= n,
{
    let l = lemma_least_divisor(n, 2);
    assert forall|d: int| 1 < d < l implies #[trigger] (l % d) != 0 by {
        if l % d == 0 {
            lemma_divides_trans(d, l, n);
        }
    }
    let k = n / l;
    lemma_fundamental_div_mod(n, l);
    if l == n {
        assert(is_prime(n));
    }
    assert(k >= 2) by (nonlinear_arith)
        requires
            n == l * k,
            2 <= l < n,
    ;
    if k < l {
        lemma_mod_multiples_basic(l, k);
        assert(n % k == 0);
    }
    assert(l * l <= n) by (nonlinear_arith)
        requires
            n == l * k,
            k >= l >= 2,
    ;
    l
}

/// A congruence holds modulo every divisor of the modulus.
pub proof fn lemma_congruent_divisor(a: int, b: int, l: int, n: int)
    requires
        l > 0,
        n > 0,
        n % l == 0,
        a % n == b % n,
    ensures
        a % l == b % l,
{
    let k = lemma_quotient(a, b, n);
    lemma_fundamental_div_mod(n, l);
    let m = n / l;
    assert(n * k == l * (m * k)) by (nonlinear_arith)
        requires
            n == l * m,
    ;
    lemma_congruent(a, b, l, m * k);
}

/// A number other than 1 whose `q`-th power is 1 modulo a prime `l` shows that `q`
/// divides `l - 1`.
proof fn lemma_order(b: int, q: int, l: int)
    requires
        is_prime(q),
        is_prime(l),
        pow(b, q as nat) % l == 1,
        b % l != 1,
    ensures
        (l - 1) % q == 0,
{
    lemma_small_mod(1, l as nat);
    if b % l == 0 {
        reveal(pow);
        let m = (q - 1) as nat;
        lemma_small_mod(0, l as nat);
        lemma_congruent_mul(b, 0, pow(b, m), pow(b, m), l);
        lemma_mul_basics(pow(b, m));
        assert(false);
    }
    lemma_fermat(b, l);
    if (l - 1) % q != 0 {
        lemma_mod_bound(l - 1, q);
        let u = lemma_inverse((l - 1) % q, q);
        lemma_mul_mod_noop_general(l - 1, u, q);
        lemma_small_mod(1, q as nat);
        let v = lemma_quotient((l - 1) * u, 1, q);
        let e = ((l - 1) * u) as nat;
        lemma_mul_strictly_positive(l - 1, u);
        assert(v >= 0) by (nonlinear_arith)
            requires
                (l - 1) * u == 1 + q * v,
                (l - 1) * u > 0,
                q >= 2,
        ;
        // b^((l-1)u) is 1 one way and b the other way.
        lemma_pow_multiplies(b, (l - 1) as nat, u as nat);
        lemma_pow_mod_noop(pow(b, (l - 1) as nat), u as nat, l);
        lemma_pow_mod_noop(1, u as nat, l);
        lemma1_pow(u as nat);
        assert(pow(b, e) % l == 1);
        lemma_mul_nonnegative(q, v);
        lemma_pow_adds(b, 1, (q * v) as nat);
        lemma_pow1(b);
        lemma_pow_multiplies(b, q as nat, v as nat);
        lemma_pow_mod_noop(pow(b, q as nat), v as nat, l);
        lemma_pow_mod_noop(1, v as nat, l);
        lemma1_pow(v as nat);
        let w = pow(b, (q * v) as nat);
        assert(w % l == 1);
        lemma_congruent_mul(b, b, w, 1, l);
        lemma_mul_basics(b);
        assert(e == 1 + (q * v) as nat);
        assert(false);
    }
}

/// Pocklington's step: with `n - 1 = q k`, a number `a` with `a^(n-1) = 1` and
/// `a^k - 1` invertible modulo `n` forces every prime divisor of `n` to be 1 modulo `q`.
pub proof fn lemma_pocklington(n: int, q: int, k: nat, a: int, c: int, l: int)
    requires
        n >= 2,
        is_prime(q),
        n - 1 == q * k,
        pow(pow(a, k), q as nat) % n == 1,
        (c * (pow(a, k) - 1)) % n == 1,
        is_prime(l),
        n % l == 0,
    ensures
        (l - 1) % q == 0,
{
    let b = pow(a, k);
    lemma_small_mod(1, l as nat);
    lemma_small_mod(1, n as nat);
    lemma_congruent_divisor(pow(b, q as nat), 1, l, n);
    lemma_congruent_divisor(c * (b - 1), 1, l, n);
    if b % l == 1 {
        lemma_mod_equivalence(b, 1, l);
        lemma_small_mod(0, l as nat);
        lemma_congruent_mul(c, c, b - 1, 0, l);
        lemma_mul_basics(c);
        assert(false);
    }
    lemma_order(b, q, l);
}

/// None of the first `m` numbers `q + 1`, `2q + 1`, and so on divides `n`.
pub open spec fn none_divides(n: int, q: int, m: nat) -> bool
    decreases m,
{
    m == 0 || (n % (m * q + 1) != 0 && none_divides(n, q, (m - 1) as nat))
}

/// One more candidate tried.
pub proof fn lemma_tried(n: int, q: int, m: nat, d: int)
    requires
        none_divides(n, q, m),
        d == (m + 1) * q + 1,
        n % d != 0,
    ensures
        none_divides(n, q, m + 1),
{
}

pub proof fn lemma_none_divides(n: int, q: int, m: nat, i: int)
    requires
        none_divides(n, q, m),
        1 <= i <= m,
    ensures
        n % (i * q + 1) != 0,
    decreases m,
{
    if i < m {
        lemma_none_divides(n, q, (m - 1) as nat, i);
    }
}

/// Pocklington's certificate: `b` is `a^k`, `c` inverts `b - 1`, and the candidates for
/// a prime divisor up to the square root of `n` have been tried; `top` is the next.
pub proof fn lemma_certify(n: int, q: int, k: nat, a: int, b: int, c: int, m: nat, top: int)
    requires
        n >= 2,
        is_prime(q),
        n - 1 == q * k,
        pow(a, k) % n == b,
        pow(b, q as nat) % n == 1,
        (c * (b - 1)) % n == 1,
        none_divides(n, q, m),
        top == (m + 1) * q + 1,
        n < top * top,
    ensures
        is_prime(n),
{
    if !is_prime(n) {
        let l = lemma_prime_divisor(n);
        lemma_pow_mod_noop(pow(a, k), q as nat, n);
        lemma_mod_twice(pow(a, k), n);
        lemma_sub_mod_noop(pow(a, k), 1, n);
        lemma_sub_mod_noop(b, 1, n);
        lemma_congruent_mul(c, c, pow(a, k) - 1, b - 1, n);
        lemma_pocklington(n, q, k, a, c, l);
        let i = (l - 1) / q;
        lemma_fundamental_div_mod(l - 1, q);
        lemma_mul_is_commutative(q, i);
        assert(i >= 1) by (nonlinear_arith)
            requires
                l - 1 == q * i,
                l >= 2,
                q >= 2,
        ;
        if i <= m {
            lemma_none_divides(n, q, m, i);
        } else {
            assert(l * l >= top * top) by (nonlinear_arith)
                requires
                    l == i * q + 1,
                    i >= m + 1,
                    q >= 2,
                    top == (m + 1) * q + 1,
            ;
        }
    }
}

/// One step of a power chain: squaring doubles the exponent.
pub proof fn lemma_chain_square(n: int, g: int, e: nat, x: int, y: int) -> (f: nat)
    requires
        n > 0,
        pow(g, e) % n == x,
        (x * x) % n == y,
    ensures
        f == 2 * e,
        pow(g, f) % n == y,
{
    lemma_pow_adds(g, e, e);
    lemma_mul_mod_noop_general(pow(g, e), pow(g, e), n);
    2 * e
}

/// One step of a power chain: squaring and one factor more.
pub proof fn lemma_chain_double(n: int, g: int, e: nat, x: int, y: int) -> (f: nat)
    requires
        n > 0,
        pow(g, e) % n == x,
        ((x * x) * g) % n == y,
    ensures
        f == 2 * e + 1,
        pow(g, f) % n == y,
{
    lemma_pow_adds(g, e, e);
    lemma_pow_adds(g, 2 * e, 1);
    lemma_pow1(g);
    lemma_mul_mod_noop_general(pow(g, e), pow(g, e), n);
    lemma_mod_twice(pow(g, 2 * e), n);
    lemma_congruent_mul(pow(g, 2 * e), x * x, g, g, n);
    2 * e + 1
}

} // verus!
