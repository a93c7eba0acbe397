//! The field on canonical little-endian byte strings: slow, plain arithmetic against
//! which the limb code can be compared.

use crate::field;
use crate::field::Fe;
use crate::primes;
use crate::product;
use crate::radix;
use vstd::arithmetic::div_mod::*;
use vstd::arithmetic::mul::*;
use vstd::arithmetic::power::*;
use vstd::prelude::*;

verus! {

/// The prime, little-endian.
pub const P_BYTES: [u8; 32] = [
    0xED, 0xFF, 0xFF, 0xFF, 0xFF, 0xFF, 0xFF, 0xFF, 0xFF, 0xFF, 0xFF, 0xFF, 0xFF, 0xFF, 0xFF, 0xFF,
    0xFF, 0xFF, 0xFF, 0xFF, 0xFF, 0xFF, 0xFF, 0xFF, 0xFF, 0xFF, 0xFF, 0xFF, 0xFF, 0xFF, 0xFF, 0x7F,
];

pub proof fn lemma_p_bytes()
    ensures
        radix::le_value(P_BYTES@) == radix::prime(),
        P_BYTES@.len() == 32,
{
    let full = Seq::new(32, |i: int| 255int);
    let s = radix::byte_ints(P_BYTES@);
    lemma_all_ones(32);
    radix::lemma_weight_limits();
    radix::lemma_eval_update(256, full, 0, 0xED, 32);
    radix::lemma_eval_update(256, full.update(0, 0xED), 31, 0x7F, 32);
    assert(radix::weight(256, 0) == 1);
    assert(radix::weight(256, 32) == 256 * radix::weight(256, 31));
    assert(P_BYTES[0] == 0xED && P_BYTES[31] == 0x7F);
    assert(s =~= full.update(0, 0xED).update(31, 0x7F));
    let w = radix::weight(256, 31);
    assert((0x7F - full.update(0, 0xED)[31]) * w == -128 * w);
    assert((0xED - full[0]) * 1 == -18);
}

/// The value of bytes that are all 255.
proof fn lemma_all_ones(n: nat)
    requires
        n <= 32,
    ensures
        radix::eval(256, Seq::new(32, |i: int| 255int), n) == radix::weight(256, n) - 1,
    decreases n,
{
    if n > 0 {
        lemma_all_ones((n - 1) as nat);
    }
}

/// Little-endian 32-byte numbers are below 2^256.
pub proof fn lemma_bytes_range(s: Seq<u8>)
    requires
        s.len() == 32,
    ensures
        0 <= radix::le_value(s) < radix::two256(),
{
    radix::lemma_weight_limits();
    radix::lemma_eval_bound(256, radix::byte_ints(s), 32);
}

/// Numerals that agree above digit `i` are ordered by digit `i`.
proof fn lemma_order_by_digit(s: Seq<int>, t: Seq<int>, i: nat, n: nat)
    requires
        i < n,
        forall|k: int| 0 <= k < n ==> 0 <= #[trigger] s[k] < 256,
        forall|k: int| 0 <= k < n ==> 0 <= #[trigger] t[k] < 256,
        forall|k: int| i < k < n ==> s[k] == t[k],
        s[i as int] > t[i as int],
    ensures
        radix::eval(256, s, n) > radix::eval(256, t, n),
    decreases n,
{
    let m = (n - 1) as nat;
    if i < m {
        lemma_order_by_digit(s, t, i, m);
    } else {
        let w = radix::weight(256, m);
        radix::lemma_eval_bound(256, t, m);
        radix::lemma_eval_nonneg(256, s, m);
        assert(s[i as int] * w >= t[i as int] * w + w) by (nonlinear_arith)
            requires
                s[i as int] >= t[i as int] + 1,
                w >= 0,
        ;
    }
}

/// Whether the number is at least the prime.
pub fn geq_p(a: &[u8; 32]) -> (r: bool)
    ensures
        r == (radix::le_value(a@) >= radix::prime()),
{
    proof {
        lemma_p_bytes();
    }
    let ghost s = radix::byte_ints(a@);
    let ghost t = radix::byte_ints(P_BYTES@);
    let mut i: usize = 32;
    while i > 0
        invariant
            i <= 32,
            s == radix::byte_ints(a@),
            t == radix::byte_ints(P_BYTES@),
            radix::le_value(P_BYTES@) == radix::prime(),
            P_BYTES@.len() == 32,
            forall|k: int| i <= k < 32 ==> s[k] == t[k],
        decreases i,
    {
        i = i - 1;
        assert(s[i as int] == a[i as int] && t[i as int] == P_BYTES[i as int]);
        if a[i] != P_BYTES[i] {
            proof {
                if a[i as int] > P_BYTES[i as int] {
                    lemma_order_by_digit(s, t, i as nat, 32);
                } else {
                    lemma_order_by_digit(t, s, i as nat, 32);
                }
            }
            return a[i] > P_BYTES[i];
        }
    }
    proof {
        radix::lemma_eval_prefix(256, s, t, 32);
    }
    true
}

/// Takes the prime off, modulo 2^256.
pub fn sub_p(a: &mut [u8; 32])
    ensures
        radix::le_value(final(a)@) == radix::le_value(old(a)@) - radix::prime() + if radix::le_value(
            old(a)@,
        ) >= radix::prime() {
            0
        } else {
            radix::two256()
        },
{
    proof {
        lemma_p_bytes();
    }
    let ghost start = a@;
    let ghost s = radix::byte_ints(start);
    let ghost t = radix::byte_ints(P_BYTES@);
    let mut borrow: i16 = 0;
    assert(radix::eval(256, s, 0) == 0 && radix::eval(256, t, 0) == 0);
    assert(radix::weight(256, 0) == 1);
    for i in 0..32usize
        invariant
            start.len() == 32,
            s == radix::byte_ints(start),
            t == radix::byte_ints(P_BYTES@),
            P_BYTES@.len() == 32,
            0 <= borrow <= 1,
            forall|k: int| i <= k < 32 ==> a@[k] == start[k],
            radix::eval(256, s, i as nat) - radix::eval(256, t, i as nat) == radix::eval(
                256,
                radix::byte_ints(a@),
                i as nat,
            ) - borrow * radix::weight(256, i as nat),
    {
        let ghost before = a@;
        let ghost b0 = borrow as int;
        let v: i16 = a[i] as i16 - P_BYTES[i] as i16 - borrow;
        if v < 0 {
            a[i] = (v + 256) as u8;
            borrow = 1;
        } else {
            a[i] = v as u8;
            borrow = 0;
        }
        proof {
            let w = radix::weight(256, i as nat);
            let x = s[i as int];
            let y = t[i as int];
            let z = a@[i as int] as int;
            assert(z == x - y - b0 + 256 * borrow);
            assert(x * w - y * w == z * w + b0 * w - borrow * (256 * w)) by (nonlinear_arith)
                requires
                    z == x - y - b0 + 256 * borrow,
            ;
            radix::lemma_eval_prefix(
                256,
                radix::byte_ints(before),
                radix::byte_ints(a@),
                i as nat,
            );
            assert(radix::byte_ints(a@)[i as int] == z);
        }
    }
    proof {
        radix::lemma_weight_limits();
        lemma_bytes_range(start);
        lemma_bytes_range(a@);
        lemma_mul_basics(radix::two256());
    }
}

/// Takes the prime off up to twice, which reduces any 32-byte number.
fn reduce_fully(out: &mut [u8; 32])
    ensures
        radix::le_value(final(out)@) == radix::le_value(old(out)@) % radix::prime(),
{
    let ghost v = radix::le_value(out@);
    proof {
        lemma_bytes_range(out@);
        radix::lemma_weight_limits();
        let p = radix::prime();
        lemma_mod_multiples_vanish(-1, v, p);
        lemma_mod_multiples_vanish(-2, v, p);
    }
    if geq_p(out) {
        sub_p(out);
    }
    if geq_p(out) {
        sub_p(out);
    }
    proof {
        lemma_bytes_range(out@);
        lemma_small_mod(radix::le_value(out@) as nat, radix::prime() as nat);
    }
}

/// Folds `extra_carry` multiples of 2^256 in as 38 each, modulo 2^256, and reduces.
pub fn reduce_once(out: &mut [u8; 32], extra_carry: u16)
    requires
        38 * extra_carry <= u16::MAX,
    ensures
        radix::le_value(final(out)@) == ((radix::le_value(old(out)@) + 38 * extra_carry)
            % radix::two256()) % radix::prime(),
{
    let ghost start = out@;
    let ghost v = radix::le_value(start);
    proof {
        lemma_bytes_range(start);
        lemma_small_mod(v as nat, radix::two256() as nat);
    }
    if extra_carry > 0 {
        let ghost s = radix::byte_ints(start);
        let mut c: u16 = 38u16 * extra_carry;
        let ghost total = c as int;
        assert(radix::eval(256, s, 0) == 0 && radix::eval(256, radix::byte_ints(out@), 0) == 0);
        assert(radix::weight(256, 0) == 1);
        for i in 0..32usize
            invariant
                start.len() == 32,
                s == radix::byte_ints(start),
                forall|k: int| i <= k < 32 ==> out@[k] == start[k],
                i > 0 ==> c <= 256,
                radix::eval(256, s, i as nat) + total == radix::eval(
                    256,
                    radix::byte_ints(out@),
                    i as nat,
                ) + c * radix::weight(256, i as nat),
        {
            let ghost before = out@;
            let ghost c0 = c as int;
            proof {
                assert(c & 0xFF == c % 256) by (bit_vector);
                assert(c >> 8 == c / 256) by (bit_vector);
            }
            let v: u16 = out[i] as u16 + (c & 0xFF);
            proof {
                assert(v & 0xFF == v % 256) by (bit_vector);
                assert(v >> 8 == v / 256) by (bit_vector);
            }
            out[i] = (v & 0xFF) as u8;
            c = (c >> 8) + (v >> 8);
            proof {
                let w = radix::weight(256, i as nat);
                let x = s[i as int];
                let z = out@[i as int] as int;
                assert(x + c0 == z + 256 * c);
                assert(x * w + c0 * w == z * w + c * (256 * w)) by (nonlinear_arith)
                    requires
                        x + c0 == z + 256 * c,
                ;
                radix::lemma_eval_prefix(
                    256,
                    radix::byte_ints(before),
                    radix::byte_ints(out@),
                    i as nat,
                );
                assert(radix::byte_ints(out@)[i as int] == z);
            }
        }
        proof {
            radix::lemma_weight_limits();
            lemma_bytes_range(out@);
            lemma_mod_multiples_vanish(c as int, radix::le_value(out@), radix::two256());
            lemma_small_mod(radix::le_value(out@) as nat, radix::two256() as nat);
            lemma_mul_is_commutative(c as int, radix::two256());
        }
    }
    reduce_fully(out);
}

// ---- products ----

/// Eight 32-bit limbs as integers.
pub open spec fn words(a: [u64; 8]) -> Seq<int> {
    Seq::new(8, |i: int| a[i] as int)
}

/// A 32-byte number, regrouped into eight 32-bit digits.
proof fn lemma_regroup(s: Seq<int>, t: Seq<int>)
    requires
        s.len() == 32,
        t.len() == 8,
        forall|i: int|
            0 <= i < 8 ==> #[trigger] t[i] == s[4 * i] + 256 * s[4 * i + 1] + 65536 * s[4 * i + 2]
                + 0x100_0000 * s[4 * i + 3],
    ensures
        radix::eval(0x1_0000_0000, t, 8) == radix::eval(256, s, 32),
{
    let u = Seq::new(16, |i: int| s[2 * i] + 256 * s[2 * i + 1]);
    radix::lemma_eval_pairs(256, s, u, 16);
    assert forall|i: int| 0 <= i < 8 implies #[trigger] t[i] == u[2 * i] + 65536 * u[2 * i + 1] by {
        assert(u[2 * i] == s[4 * i] + 256 * s[4 * i + 1]);
        assert(u[2 * i + 1] == s[4 * i + 2] + 256 * s[4 * i + 3]);
    }
    radix::lemma_eval_pairs(65536, u, t, 8);
}

fn to_words(b: &[u8; 32]) -> (a: [u64; 8])
    ensures
        forall|i: int| 0 <= i < 8 ==> #[trigger] a[i] < 0x1_0000_0000,
        radix::eval(0x1_0000_0000, words(a), 8) == radix::le_value(b@),
{
    let mut a: [u64; 8] = [0u64; 8];
    for i in 0..8usize
        invariant
            forall|k: int|
                0 <= k < i ==> #[trigger] a[k] == b[4 * k] + 256 * b[4 * k + 1] + 65536 * b[4 * k
                    + 2] + 0x100_0000 * b[4 * k + 3],
    {
        a[i] = b[4 * i] as u64 + 256 * (b[4 * i + 1] as u64) + 65536 * (b[4 * i + 2] as u64)
            + 0x100_0000 * (b[4 * i + 3] as u64);
    }
    proof {
        let s = radix::byte_ints(b@);
        let t = words(a);
        assert forall|i: int| 0 <= i < 8 implies #[trigger] t[i] == s[4 * i] + 256 * s[4 * i + 1]
            + 65536 * s[4 * i + 2] + 0x100_0000 * s[4 * i + 3] by {
            assert(a[i] == b[4 * i] + 256 * b[4 * i + 1] + 65536 * b[4 * i + 2] + 0x100_0000 * b[4 * i
                + 3]);
        }
        lemma_regroup(s, t);
    }
    a
}

proof fn lemma_word_bytes(v: u64)
    requires
        v < 0x1_0000_0000,
    ensures
        v == v % 256 + 256 * ((v / 256) % 256) + 65536 * ((v / 65536) % 256) + 0x100_0000 * (v
            / 0x100_0000),
        v / 0x100_0000 < 256,
{
}

fn from_words(a: &[u64; 8]) -> (b: [u8; 32])
    requires
        forall|i: int| 0 <= i < 8 ==> #[trigger] a[i] < 0x1_0000_0000,
    ensures
        radix::le_value(b@) == radix::eval(0x1_0000_0000, words(*a), 8),
{
    let mut b: [u8; 32] = [0u8; 32];
    for i in 0..8usize
        invariant
            forall|k: int| 0 <= k < 8 ==> #[trigger] a[k] < 0x1_0000_0000,
            forall|k: int|
                0 <= k < i ==> #[trigger] a[k] == b[4 * k] + 256 * b[4 * k + 1] + 65536 * b[4 * k
                    + 2] + 0x100_0000 * b[4 * k + 3],
    {
        assert(a[i as int] < 0x1_0000_0000);
        let v: u64 = a[i];
        let ghost before = b@;
        b[4 * i] = (v % 256) as u8;
        b[4 * i + 1] = ((v / 256) % 256) as u8;
        b[4 * i + 2] = ((v / 65536) % 256) as u8;
        b[4 * i + 3] = (v / 0x100_0000) as u8;
        proof {
            assert(forall|m: int| 0 <= m < 4 * i ==> b@[m] == before[m]);
            lemma_word_bytes(v);
        }
    }
    proof {
        let s = radix::byte_ints(b@);
        let t = words(*a);
        assert forall|i: int| 0 <= i < 8 implies #[trigger] t[i] == s[4 * i] + 256 * s[4 * i + 1]
            + 65536 * s[4 * i + 2] + 0x100_0000 * s[4 * i + 3] by {
            assert(a[i] == b[4 * i] + 256 * b[4 * i + 1] + 65536 * b[4 * i + 2] + 0x100_0000 * b[4 * i
                + 3]);
        }
        lemma_regroup(s, t);
    }
    b
}

proof fn lemma_u128_split(v: u128)
    ensures
        v & 0xFFFF_FFFF == v % 0x1_0000_0000,
        v >> 32 == v / 0x1_0000_0000,
{
    assert(v & 0xFFFF_FFFF == v % 0x1_0000_0000) by (bit_vector);
    assert(v >> 32 == v / 0x1_0000_0000) by (bit_vector);
}

/// Adds `c` at digit 0 and returns the carry out of the top.
fn add_at_bottom(r: &mut [u64; 8], c: u128) -> (carry: u128)
    requires
        c < 0x1_0000_0000_0000_0000,
        forall|i: int| 0 <= i < 8 ==> #[trigger] old(r)[i] < 0x1_0000_0000,
    ensures
        forall|i: int| 0 <= i < 8 ==> #[trigger] final(r)[i] < 0x1_0000_0000,
        radix::eval(0x1_0000_0000, words(*final(r)), 8) + carry * radix::two256() == radix::eval(
            0x1_0000_0000,
            words(*old(r)),
            8,
        ) + c,
{
    let ghost start = *r;
    let ghost s = words(start);
    let ghost total = c as int;
    let mut c: u128 = c;
    assert(radix::eval(0x1_0000_0000, s, 0) == 0 && radix::eval(0x1_0000_0000, words(*r), 0) == 0);
    assert(radix::weight(0x1_0000_0000, 0) == 1);
    for i in 0..8usize
        invariant
            s == words(start),
            c < 0x1_0000_0000_0000_0000,
            forall|k: int| 0 <= k < 8 ==> #[trigger] start[k] < 0x1_0000_0000,
            forall|k: int| 0 <= k < i ==> #[trigger] r[k] < 0x1_0000_0000,
            forall|k: int| i <= k < 8 ==> #[trigger] r[k] == start[k],
            radix::eval(0x1_0000_0000, s, i as nat) + total == radix::eval(
                0x1_0000_0000,
                words(*r),
                i as nat,
            ) + c * radix::weight(0x1_0000_0000, i as nat),
    {
        let ghost before = *r;
        let ghost c0 = c as int;
        proof {
            lemma_u128_split(c);
            assert(start[i as int] < 0x1_0000_0000);
            assert(r[i as int] == start[i as int]);
        }
        let v: u128 = r[i] as u128 + (c & 0xFFFF_FFFF);
        proof {
            lemma_u128_split(v);
        }
        r[i] = (v & 0xFFFF_FFFF) as u64;
        c = (c >> 32) + (v >> 32);
        proof {
            let w = radix::weight(0x1_0000_0000, i as nat);
            let x = s[i as int];
            let z = r[i as int] as int;
            assert(x + c0 == z + 0x1_0000_0000 * c);
            assert(x * w + c0 * w == z * w + c * (0x1_0000_0000 * w)) by (nonlinear_arith)
                requires
                    x + c0 == z + 0x1_0000_0000 * c,
            ;
            radix::lemma_eval_prefix(0x1_0000_0000, words(before), words(*r), i as nat);
            assert(words(*r)[i as int] == z);
        }
    }
    proof {
        radix::lemma_weight_limits();
    }
    c
}

/// The columns of the product of two eight-digit numbers.
fn word_columns(a: &[u64; 8], b: &[u64; 8]) -> (t: [u128; 15])
    requires
        forall|i: int| 0 <= i < 8 ==> #[trigger] a[i] < 0x1_0000_0000,
        forall|i: int| 0 <= i < 8 ==> #[trigger] b[i] < 0x1_0000_0000,
    ensures
        forall|k: int| 0 <= k < 15 ==> #[trigger] t[k] == product::columns(8, words(*a), words(*b))[k],
        forall|k: int| 0 <= k < 15 ==> #[trigger] t[k] <= 0x8_0000_0000_0000_0000,
{
    let ghost x = words(*a);
    let ghost y = words(*b);
    let mut t: [u128; 15] = [0u128; 15];
    for i in 0..8usize
        invariant
            x == words(*a),
            y == words(*b),
            forall|i: int| 0 <= i < 8 ==> #[trigger] a[i] < 0x1_0000_0000,
            forall|i: int| 0 <= i < 8 ==> #[trigger] b[i] < 0x1_0000_0000,
            forall|k: int|
                0 <= k < 15 ==> #[trigger] t[k] == product::column_rows(8, x, y, k, i as nat),
    {
        for j in 0..8usize
            invariant
                0 <= i < 8,
                x == words(*a),
                y == words(*b),
                forall|i: int| 0 <= i < 8 ==> #[trigger] a[i] < 0x1_0000_0000,
                forall|i: int| 0 <= i < 8 ==> #[trigger] b[i] < 0x1_0000_0000,
                forall|k: int|
                    0 <= k < 15 ==> #[trigger] t[k] == product::column_rows(8, x, y, k, i as nat)
                        + if 0 <= k - i < j {
                        product::row_term(8, x, y, k, i as int)
                    } else {
                        0
                    },
        {
            proof {
                let k = i + j;
                assert(a[i as int] < 0x1_0000_0000 && b[j as int] < 0x1_0000_0000);
                assert(x[i as int] == a[i as int] && y[j as int] == b[j as int]);
                assert(t[k] == product::column_rows(8, x, y, k, i as nat));
                product::lemma_column_rows_bound(
                    8,
                    x,
                    0x1_0000_0000,
                    y,
                    0x1_0000_0000,
                    k,
                    i as nat,
                );
                lemma_mul_upper_bound(
                    a[i as int] as int,
                    0xFFFF_FFFF,
                    b[j as int] as int,
                    0xFFFF_FFFF,
                );
                lemma_mul_nonnegative(a[i as int] as int, b[j as int] as int);
            }
            t[i + j] = t[i + j] + (a[i] * b[j]) as u128;
        }
    }
    proof {
        assert forall|k: int| 0 <= k < 15 implies #[trigger] t[k] <= 0x8_0000_0000_0000_0000 by {
            product::lemma_column_rows_bound(8, x, 0x1_0000_0000, y, 0x1_0000_0000, k, 8);
        }
    }
    t
}

/// Modular product of little-endian 32-byte numbers.
pub fn field_mul_p(a_bytes: &[u8; 32], b_bytes: &[u8; 32]) -> (out: [u8; 32])
    ensures
        radix::le_value(out@) == (radix::le_value(a_bytes@) * radix::le_value(b_bytes@))
            % radix::prime(),
{
    let a: [u64; 8] = to_words(a_bytes);
    let b: [u64; 8] = to_words(b_bytes);
    let mut t: [u128; 15] = word_columns(&a, &b);
    let ghost c = Seq::new(15, |k: int| t[k] as int);
    let ghost f = product::folded(8, c);
    proof {
        assert(c =~= product::columns(8, words(a), words(b)));
        product::lemma_columns_value(0x1_0000_0000, 8, words(a), words(b));
        assert forall|k: int| 0 <= k < 15 implies 0 <= #[trigger] c[k] <= 0x8_0000_0000_0000_0000 by {
            assert(t[k] <= 0x8_0000_0000_0000_0000);
        }
    }
    for i in 0..7usize
        invariant
            c.len() == 15,
            f.len() == 8,
            forall|k: int| 0 <= k < 15 ==> 0 <= #[trigger] c[k] <= 0x8_0000_0000_0000_0000,
            forall|k: int| 0 <= k < 7 ==> #[trigger] f[k] == c[k] + 38 * c[k + 8],
            forall|k: int| 0 <= k < i ==> #[trigger] t[k] == f[k],
            forall|k: int| i <= k < 15 ==> #[trigger] t[k] == c[k],
    {
        assert(t[i as int] == c[i as int]);
        assert(t[i + 8] == c[i + 8]);
        assert(f[i as int] == c[i as int] + 38 * c[i + 8]);
        t[i] = t[i] + 38 * t[i + 8];
    }
    assert(t[7] == f[7]);
    let mut r: [u64; 8] = [0u64; 8];
    let mut carry: u128 = 0;
    proof {
        assert forall|k: int| 0 <= k < 8 implies 0 <= #[trigger] f[k] <= 39
            * 0x8_0000_0000_0000_0000int by {
            assert(c[k] >= 0);
            if k < 7 {
                assert(c[k + 8] >= 0);
            }
        }
    }
    assert(radix::eval(0x1_0000_0000, f, 0) == 0 && radix::eval(0x1_0000_0000, words(r), 0) == 0);
    assert(radix::weight(0x1_0000_0000, 0) == 1);
    for i in 0..8usize
        invariant
            f.len() == 8,
            forall|k: int|
                0 <= k < 8 ==> 0 <= #[trigger] f[k] <= 39 * 0x8_0000_0000_0000_0000int,
            forall|k: int| 0 <= k < 8 ==> #[trigger] t[k] == f[k],
            forall|k: int| 0 <= k < i ==> #[trigger] r[k] < 0x1_0000_0000,
            carry < 0x1000_0000_0000,
            radix::eval(0x1_0000_0000, f, i as nat) == radix::eval(
                0x1_0000_0000,
                words(r),
                i as nat,
            ) + carry * radix::weight(0x1_0000_0000, i as nat),
    {
        let ghost before = r;
        let ghost c0 = carry as int;
        assert(t[i as int] == f[i as int]);
        let v: u128 = t[i] + carry;
        proof {
            lemma_u128_split(v);
        }
        r[i] = (v & 0xFFFF_FFFF) as u64;
        carry = v >> 32;
        proof {
            let w = radix::weight(0x1_0000_0000, i as nat);
            let x = f[i as int];
            let z = r[i as int] as int;
            assert(x + c0 == z + 0x1_0000_0000 * carry);
            assert(x * w + c0 * w == z * w + carry * (0x1_0000_0000 * w)) by (nonlinear_arith)
                requires
                    x + c0 == z + 0x1_0000_0000 * carry,
            ;
            radix::lemma_eval_prefix(0x1_0000_0000, words(before), words(r), i as nat);
            assert(words(r)[i as int] == z);
        }
    }
    let ghost v0 = radix::eval(0x1_0000_0000, words(r), 8);
    let ghost top = carry as int;
    proof {
        radix::lemma_weight_limits();
        radix::lemma_eval_bound(0x1_0000_0000, words(r), 8);
    }
    // What is left above 2^256 comes back times 38; that can carry out once more.
    let over: u128 = add_at_bottom(&mut r, 38 * carry);
    let ghost v1 = radix::eval(0x1_0000_0000, words(r), 8);
    proof {
        radix::lemma_eval_bound(0x1_0000_0000, words(r), 8);
        assert(over <= 1) by {
            if over >= 2 {
                lemma_mul_inequality(2, over as int, radix::two256());
            }
        }
    }
    let rest: u128 = add_at_bottom(&mut r, 38 * over);
    proof {
        let v2 = radix::eval(0x1_0000_0000, words(r), 8);
        radix::lemma_eval_bound(0x1_0000_0000, words(r), 8);
        lemma_mul_basics(radix::two256());
        assert(rest == 0) by {
            if rest >= 1 {
                lemma_mul_inequality(1, rest as int, radix::two256());
            }
        }
        let p = radix::prime();
        product::lemma_fold_identity(top);
        product::lemma_fold_identity(over as int);
        lemma_mul_is_distributive_add(p, 2 * top, 2 * over as int);
        lemma_mod_multiples_vanish(2 * top + 2 * over, v2, p);
        product::lemma_folded_value(0x1_0000_0000, 8, c);
    }
    let mut out: [u8; 32] = from_words(&r);
    reduce_fully(&mut out);
    out
}

/// Sum of two numbers, a carry past 2^256 folded in as 38. For numbers below the prime
/// it is the field sum.
pub fn ref_add(a: &[u8; 32], b: &[u8; 32]) -> (out: [u8; 32])
    ensures
        ({
            let sum = radix::le_value(a@) + radix::le_value(b@);
            &&& radix::le_value(out@) == ((sum % radix::two256() + 38 * (sum / radix::two256()))
                % radix::two256()) % radix::prime()
            &&& sum < 2 * radix::two256() - 38 ==> radix::le_value(out@) == sum % radix::prime()
        }),
{
    let ghost s = radix::byte_ints(a@);
    let ghost t = radix::byte_ints(b@);
    let mut out: [u8; 32] = [0u8; 32];
    let mut carry: u16 = 0;
    assert(radix::eval(256, s, 0) == 0 && radix::eval(256, t, 0) == 0);
    assert(radix::eval(256, radix::byte_ints(out@), 0) == 0);
    assert(radix::weight(256, 0) == 1);
    for i in 0..32usize
        invariant
            s == radix::byte_ints(a@),
            t == radix::byte_ints(b@),
            carry <= 1,
            radix::eval(256, s, i as nat) + radix::eval(256, t, i as nat) == radix::eval(
                256,
                radix::byte_ints(out@),
                i as nat,
            ) + carry * radix::weight(256, i as nat),
    {
        let ghost before = out@;
        let ghost c0 = carry as int;
        let v: u16 = a[i] as u16 + b[i] as u16 + carry;
        proof {
            assert(v & 0xFF == v % 256) by (bit_vector);
            assert(v >> 8 == v / 256) by (bit_vector);
        }
        out[i] = (v & 0xFF) as u8;
        carry = v >> 8;
        proof {
            let w = radix::weight(256, i as nat);
            let x = s[i as int];
            let y = t[i as int];
            let z = out@[i as int] as int;
            assert(x + y + c0 == z + 256 * carry);
            assert(x * w + y * w + c0 * w == z * w + carry * (256 * w)) by (nonlinear_arith)
                requires
                    x + y + c0 == z + 256 * carry,
            ;
            radix::lemma_eval_prefix(256, radix::byte_ints(before), radix::byte_ints(out@), i as nat);
            assert(radix::byte_ints(out@)[i as int] == z);
        }
    }
    proof {
        let m = radix::two256();
        let low = radix::le_value(out@);
        let sum = radix::le_value(a@) + radix::le_value(b@);
        radix::lemma_weight_limits();
        lemma_bytes_range(out@);
        lemma_fundamental_div_mod_converse(sum, m, carry as int, low);
        if sum < 2 * m - 38 {
            lemma_small_mod((low + 38 * carry) as nat, m as nat);
            product::lemma_fold_identity(carry as int);
            lemma_mod_multiples_vanish(2 * carry as int, low + 38 * carry, radix::prime());
        }
    }
    reduce_once(&mut out, carry);
    out
}

/// The canonical bytes of a field element given in limbs, reduced or not: Horner's rule
/// from the top limb down.
pub fn limbs16_to_ref(a: &Fe) -> (out: [u8; 32])
    ensures
        radix::le_value(out@) == field::residue(*a),
{
    let mut two16: [u8; 32] = [0u8; 32];
    two16[2] = 1;
    let mut acc: [u8; 32] = [0u8; 32];
    let ghost s = field::ints(*a);
    proof {
        lemma_four_bytes(two16@, 65536);
        radix::lemma_eval_zero(256, radix::byte_ints(acc@), 32);
        assert(radix::eval(65536, s.skip(16), 0) == 0);
        lemma_small_mod(0, radix::prime() as nat);
    }
    let mut i: usize = 16;
    while i > 0
        invariant
            i <= 16,
            s == field::ints(*a),
            radix::le_value(two16@) == 65536,
            radix::le_value(acc@) == radix::eval(65536, s.skip(i as int), (16 - i) as nat)
                % radix::prime(),
        decreases i,
    {
        i = i - 1;
        let ghost acc0 = radix::le_value(acc@);
        acc = field_mul_p(&acc, &two16);
        let ghost acc1 = radix::le_value(acc@);
        let mut limb: [u8; 32] = [0u8; 32];
        let l: u32 = a[i];
        proof {
            assert(l & 0xFF == l % 256) by (bit_vector);
            assert((l >> 8) & 0xFF == (l / 256) % 256) by (bit_vector);
            assert((l >> 16) & 0xFF == (l / 65536) % 256) by (bit_vector);
            assert((l >> 24) & 0xFF == l / 0x100_0000) by (bit_vector);
        }
        limb[0] = (l & 0xFF) as u8;
        limb[1] = ((l >> 8) & 0xFF) as u8;
        limb[2] = ((l >> 16) & 0xFF) as u8;
        limb[3] = ((l >> 24) & 0xFF) as u8;
        proof {
            lemma_four_bytes(limb@, l);
            lemma_small_mod(l as nat, radix::two256() as nat);
            lemma_small_mod(l as nat, radix::prime() as nat);
        }
        reduce_once(&mut limb, 0);
        acc = ref_add(&acc, &limb);
        proof {
            lemma_horner(s, i as int, l as int, acc0, acc1);
        }
    }
    proof {
        assert(s.skip(0) =~= s);
    }
    acc
}

/// One step of Horner's rule on limbs, modulo the prime.
proof fn lemma_horner(s: Seq<int>, i: int, l: int, acc0: int, acc1: int)
    requires
        s.len() == 16,
        0 <= i < 16,
        s[i] == l,
        0 <= l < 0x1_0000_0000,
        acc0 == radix::eval(65536, s.skip(i + 1), (15 - i) as nat) % radix::prime(),
        acc1 == (acc0 * 65536) % radix::prime(),
    ensures
        acc1 + l < radix::two256(),
        (acc1 + l) % radix::prime() == radix::eval(65536, s.skip(i), (16 - i) as nat)
            % radix::prime(),
{
    let p = radix::prime();
    let t = s.skip(i);
    let hi = radix::eval(65536, s.skip(i + 1), (15 - i) as nat);
    assert(t.skip(1) =~= s.skip(i + 1));
    radix::lemma_eval_cons(65536, t, (15 - i) as nat);
    lemma_mod_bound(acc0 * 65536, p);
    lemma_mul_mod_noop_general(hi, 65536, p);
    lemma_add_mod_noop(hi * 65536, l, p);
    lemma_mod_twice(hi * 65536, p);
    lemma_add_mod_noop(acc1, l, p);
}

/// Four low bytes hold a 32-bit number.
proof fn lemma_four_bytes(b: Seq<u8>, l: u32)
    requires
        b.len() == 32,
        forall|i: int| 4 <= i < 32 ==> #[trigger] b[i] == 0,
        l == b[0] + 256 * b[1] + 65536 * b[2] + 0x100_0000 * b[3],
    ensures
        radix::le_value(b) == l,
{
    let s = radix::byte_ints(b);
    let s1 = s.skip(1);
    let s2 = s1.skip(1);
    let s3 = s2.skip(1);
    let s4 = s3.skip(1);
    radix::lemma_eval_cons(256, s, 31);
    radix::lemma_eval_cons(256, s1, 30);
    radix::lemma_eval_cons(256, s2, 29);
    radix::lemma_eval_cons(256, s3, 28);
    radix::lemma_eval_zero(256, s4, 28);
}

/// Field product; see `field_mul_p`.
pub fn ref_mul(a: &[u8; 32], b: &[u8; 32]) -> (out: [u8; 32])
    ensures
        radix::le_value(out@) == (radix::le_value(a@) * radix::le_value(b@)) % radix::prime(),
{
    field_mul_p(a, b)
}

/// `base` to the power `exp`, both little-endian: square and multiply from the top bit.
pub fn ref_pow(base: &[u8; 32], exp: &[u8; 32]) -> (out: [u8; 32])
    ensures
        radix::le_value(out@) == pow(radix::le_value(base@), radix::le_value(exp@) as nat)
            % radix::prime(),
{
    let ghost p = radix::prime();
    let ghost x = radix::le_value(base@);
    let ghost s = radix::byte_ints(exp@);
    let mut result: [u8; 32] = [0u8; 32];
    result[0] = 1;
    proof {
        lemma_four_bytes(result@, 1);
        lemma_pow0(x);
        lemma_small_mod(1, p as nat);
        assert(radix::eval(256, s.skip(32), 0) == 0);
    }
    let mut i: usize = 32;
    while i > 0
        invariant
            i <= 32,
            p == radix::prime(),
            x == radix::le_value(base@),
            s == radix::byte_ints(exp@),
            radix::eval(256, s.skip(i as int), (32 - i) as nat) >= 0,
            radix::le_value(result@) == pow(
                x,
                radix::eval(256, s.skip(i as int), (32 - i) as nat) as nat,
            ) % p,
        decreases i,
    {
        let ghost high = radix::eval(256, s.skip(i as int), (32 - i) as nat);
        i = i - 1;
        let byte: u32 = exp[i] as u32;
        let mut bit: u32 = 8;
        proof {
            assert(byte >> 8 == 0) by (bit_vector)
                requires
                    byte < 256,
            ;
            assert(radix::weight(2, 0) == 1);
            lemma_mul_basics(high);
        }
        while bit > 0
            invariant
                bit <= 8,
                byte < 256,
                high >= 0,
                p == radix::prime(),
                x == radix::le_value(base@),
                high * radix::weight(2, (8 - bit) as nat) >= 0,
                radix::le_value(result@) == pow(
                    x,
                    (high * radix::weight(2, (8 - bit) as nat) + (byte >> bit)) as nat,
                ) % p,
            decreases bit,
        {
            let ghost w = radix::weight(2, (8 - bit) as nat);
            let ghost e = (high * w + (byte >> bit)) as nat;
            let ghost v0 = radix::le_value(result@);
            bit = bit - 1;
            result = ref_mul(&result, &result);
            let ghost v1 = radix::le_value(result@);
            proof {
                let f = primes::lemma_chain_square(p, x, e, v0, v1);
                assert(byte >> bit == 2 * (byte >> ((bit + 1) as u32)) + ((byte >> bit) & 1)) by (bit_vector)
                    requires
                        bit < 8,
                        byte < 256,
                ;
                assert((byte >> bit) & 1 == 0 || (byte >> bit) & 1 == 1) by (bit_vector);
                assert(radix::weight(2, (8 - bit) as nat) == 2 * w);
                assert(high * (2 * w) == 2 * (high * w)) by (nonlinear_arith);
            }
            if (byte >> bit) & 1 == 1 {
                result = ref_mul(&result, base);
                proof {
                    lemma_times(p, x, 2 * e, v1, radix::le_value(result@));
                }
            }
        }
        proof {
            assert(byte >> 0 == byte) by (bit_vector);
            reveal_with_fuel(radix::weight, 9);
            assert(radix::weight(2, 8) == 256);
            let t = s.skip(i as int);
            assert(t.skip(1) =~= s.skip(i + 1));
            radix::lemma_eval_cons(256, t, (31 - i) as nat);
        }
    }
    proof {
        assert(s.skip(0) =~= s);
    }
    result
}

/// A power times its base is the next power.
proof fn lemma_times(n: int, g: int, e: nat, x: int, y: int)
    requires
        n > 0,
        pow(g, e) % n == x,
        (x * g) % n == y,
    ensures
        pow(g, e + 1) % n == y,
{
    lemma_pow_adds(g, e, 1);
    lemma_pow1(g);
    lemma_mul_mod_noop_general(pow(g, e), g, n);
}

/// The byte-wise functions on all numbers of 32 bytes: products and sums are those of the
/// numbers modulo the prime, and a number is at least the prime exactly if reducing changes it.
pub proof fn law_byte_field(
    a: [u8; 32],
    b: [u8; 32],
    product: [u8; 32],
    again: [u8; 32],
    sum: [u8; 32],
    large: bool,
)
    requires
        call_ensures(field_mul_p, (&a, &b), product),
        call_ensures(ref_mul, (&a, &b), again),
        call_ensures(ref_add, (&a, &b), sum),
        call_ensures(geq_p, (&a,), large),
    ensures
        (radix::le_value(product@) - radix::le_value(a@) * radix::le_value(b@)) % radix::prime()
            == 0,
        0 <= radix::le_value(product@) < radix::prime(),
        radix::le_value(again@) == radix::le_value(product@),
        radix::le_value(a@) + radix::le_value(b@) <= radix::two256() ==> radix::le_value(sum@) == (
        radix::le_value(a@) + radix::le_value(b@)) % radix::prime(),
        large <==> radix::le_value(a@) % radix::prime() != radix::le_value(a@),
{
    let p = radix::prime();
    let v = radix::le_value(a@) * radix::le_value(b@);
    lemma_bytes_range(a@);
    lemma_bytes_range(b@);
    lemma_mod_bound(v, p);
    lemma_sub_mod_noop(radix::le_value(product@), v, p);
    lemma_mod_twice(v, p);
    lemma_small_mod(0, p as nat);
    lemma_mod_bound(radix::le_value(a@), p);
    if radix::le_value(a@) < p {
        lemma_small_mod(radix::le_value(a@) as nat, p as nat);
    }
}

/// Powers go up by the base: the power of an exponent that is one larger is one product more,
/// and the power of 0 is 1.
pub proof fn law_powers(
    base: [u8; 32],
    e: [u8; 32],
    next: [u8; 32],
    r: [u8; 32],
    s: [u8; 32],
    t: [u8; 32],
)
    requires
        call_ensures(ref_pow, (&base, &e), r),
        call_ensures(ref_pow, (&base, &next), s),
        call_ensures(ref_mul, (&base, &r), t),
        radix::le_value(next@) == radix::le_value(e@) + 1,
    ensures
        radix::le_value(s@) == radix::le_value(t@),
        radix::le_value(e@) == 0 ==> radix::le_value(r@) == 1,
{
    let p = radix::prime();
    let x = radix::le_value(base@);
    lemma_bytes_range(e@);
    let n = radix::le_value(e@) as nat;
    assert(pow(x, n + 1) == x * pow(x, n)) by {
        reveal(pow);
    }
    lemma_mul_mod_noop_right(x, pow(x, n), p);
    lemma_pow0(x);
    lemma_small_mod(1, p as nat);
}

/// Limbs and bytes agree: the bytes of limbs are the limbs' number modulo the prime.
pub proof fn law_limbs_as_bytes(a: Fe, out: [u8; 32])
    requires
        call_ensures(limbs16_to_ref, (&a,), out),
    ensures
        radix::le_value(out@) == field::number(a) % radix::prime(),
{
    assert(field::ints(a) =~= Seq::new(16, |i: int| a[i] as int));
}

} // verus!
