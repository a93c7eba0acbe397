//! Inversion in the field by the fixed addition chain for `p - 2`.

use crate::field;
use crate::field::{fe_mul, fe_sq, Fe};
use crate::gf;
use crate::radix;
use vstd::arithmetic::div_mod::*;
use vstd::arithmetic::mul::*;
use vstd::arithmetic::power::*;
use vstd::prelude::*;

verus! {

/// `t` stands for `x` to the power `e`.
pub open spec fn is_power(t: Fe, x: int, e: nat) -> bool {
    field::residue(t) == pow(x, e) % radix::prime()
}

/// Powers multiply by adding exponents.
proof fn lemma_power_mul(a: Fe, b: Fe, r: Fe, x: int, e1: nat, e2: nat)
    requires
        is_power(a, x, e1),
        is_power(b, x, e2),
        field::residue(r) == (field::residue(a) * field::residue(b)) % radix::prime(),
    ensures
        is_power(r, x, e1 + e2),
{
    lemma_mul_mod_noop(pow(x, e1), pow(x, e2), radix::prime());
    lemma_pow_adds(x, e1, e2);
}

/// A product leaves limbs that multiply exactly with each other.
pub proof fn lemma_carried_exact(a: Fe, b: Fe)
    requires
        field::carried(a),
        field::carried(b),
    ensures
        field::mul_fits(a, b),
        field::mul_exact(a, b),
{
    lemma_carried_limbs(a);
    lemma_carried_limbs(b);
    field::lemma_mul_exact(a, b);
}

pub proof fn lemma_carried_limbs(a: Fe)
    requires
        field::carried(a),
    ensures
        field::limbs_at_most(a, 65573),
        field::limbs_at_most(a, 0x8_0000),
{
    assert forall|i: int| 0 <= i < 16 implies #[trigger] a[i] <= 65573 by {
        if i > 0 {
            assert(a[i] < 65536);
        }
    }
}

/// The limbs of a product.
#[verifier::opaque]
pub open spec fn multiplied(s: Seq<int>, t: Seq<int>) -> Seq<int> {
    field::reduced_limbs(field::columns(s, t))
}

/// The limbs of a square.
pub open spec fn squared(s: Seq<int>) -> Seq<int> {
    multiplied(s, s)
}

/// The limbs after squaring `n` times.
pub open spec fn squared_times(s: Seq<int>, n: nat) -> Seq<int>
    decreases n,
{
    if n == 0 {
        s
    } else {
        squared(squared_times(s, (n - 1) as nat))
    }
}

/// The limbs at the end of the chain, whatever limbs it starts from. A name tells the
/// exponent, or how many ones its binary form has.
#[verifier::opaque]
pub open spec fn inverted(s: Seq<int>) -> Seq<int> {
    let z9 = multiplied(s, squared_times(s, 3));
    let z11 = multiplied(squared(s), z9);
    let e5 = multiplied(z9, squared(z11));
    let e10 = multiplied(e5, squared_times(e5, 5));
    let e20 = multiplied(squared_times(e10, 10), e10);
    let e40 = multiplied(squared_times(e20, 20), e20);
    let e50 = multiplied(squared_times(e40, 10), e10);
    let e100 = multiplied(squared_times(e50, 50), e50);
    let e200 = multiplied(squared_times(e100, 100), e100);
    let e250 = multiplied(squared_times(e200, 50), e50);
    multiplied(squared_times(e250, 5), z11)
}

/// The products that use `z` itself, `z` by `z` and `z` by its eighth power, fold back
/// into 32-bit limbs. All others are of carried limbs, and do.
pub open spec fn invert_exact(z: Fe) -> bool {
    let s = field::ints(z);
    &&& field::fold_fits(field::columns(s, s))
    &&& field::fold_fits(field::columns(s, squared_times(s, 3)))
}

/// `t` squared `n` times.
fn square_times(t: &Fe, n: u32, Ghost(x): Ghost<int>, Ghost(e): Ghost<nat>) -> (r: Fe)
    requires
        field::carried(*t),
    ensures
        field::carried(r),
        field::ints(r) == squared_times(field::ints(*t), n as nat),
        is_power(*t, x, e) ==> is_power(r, x, (e * radix::weight(2, n as nat)) as nat),
{
    let mut r: Fe = *t;
    proof {
        lemma_mul_basics(e as int);
    }
    for i in 0..n
        invariant
            field::carried(r),
            field::ints(r) == squared_times(field::ints(*t), i as nat),
            is_power(*t, x, e) ==> is_power(r, x, (e * radix::weight(2, i as nat)) as nat),
    {
        let ghost before = r;
        proof {
            lemma_carried_exact(r, r);
        }
        r = fe_sq(&r);
        proof {
            reveal(multiplied);
            let w = radix::weight(2, i as nat);
            radix::lemma_weight_pos(2, i as nat);
            lemma_mul_nonnegative(e as int, w);
            assert(e * (2 * w) == e * w + e * w) by (nonlinear_arith);
            if is_power(*t, x, e) {
                lemma_power_mul(before, before, r, x, (e * w) as nat, (e * w) as nat);
            }
        }
    }
    r
}

proof fn lemma_two_powers()
    ensures
        radix::weight(2, 1) == 2,
        radix::weight(2, 2) == 4,
        radix::weight(2, 5) == 32,
        radix::weight(2, 10) == 1024,
        radix::weight(2, 20) == 0x100000,
        radix::weight(2, 50) == 0x4000000000000,
        radix::weight(2, 100) == 0x10000000000000000000000000int,
{
    reveal_with_fuel(radix::weight, 51);
    radix::lemma_weight_add(2, 50, 50);
}

/// Any limbs at all can be multiplied by carried ones.
proof fn lemma_mul_carried_fits(a: Fe, b: Fe)
    requires
        field::carried(b),
    ensures
        field::mul_fits(a, b),
{
    lemma_carried_limbs(b);
    field::lemma_mul_small_fits(a, b);
}

/// `z` to the power `p - 2`, by a fixed chain of products whose limbs are known for every
/// `z`. Where the products that use `z` are exact, as they are for
/// limbs of up to 2^19, this is the inverse of `z`, and 0 for a multiple of the prime.
pub fn fe_invert(z: &Fe) -> (r: Fe)
    requires
        field::mul_fits(*z, *z),
    ensures
        field::carried(r),
        field::ints(r) == inverted(field::ints(*z)),
        field::limbs_at_most(*z, 0x8_0000) ==> invert_exact(*z),
        invert_exact(*z) ==> field::residue(r) == gf::inverse(field::residue(*z)),
        invert_exact(*z) && field::residue(*z) != 0 ==> gf::times(
            field::residue(*z),
            field::residue(r),
        ) == 1,
{
    let ghost x = field::residue(*z);
    let ghost exact = invert_exact(*z);
    let ghost small = field::limbs_at_most(*z, 0x8_0000);
    proof {
        lemma_pow1(x);
        lemma_two_powers();
        if small {
            field::lemma_mul_exact(*z, *z);
        }
        assert(is_power(*z, x, 1)) by {
            lemma_mod_twice(field::fe_value(*z), radix::prime());
        }
    }
    let sq: Fe = fe_sq(z);
    proof {
        if exact {
            lemma_power_mul(*z, *z, sq, x, 1, 1);
        }
    }
    let z8: Fe = square_times(&sq, 2, Ghost(x), Ghost(2));
    proof {
        lemma_mul_carried_fits(*z, z8);
        let s = field::ints(*z);
        assert(field::ints(z8) == squared_times(s, 3)) by {
            reveal(multiplied);
            reveal_with_fuel(squared_times, 4);
        }
        if small {
            lemma_carried_limbs(z8);
            field::lemma_mul_exact(*z, z8);
        }
    }
    let z9: Fe = fe_mul(z, &z8);
    proof {
        lemma_carried_exact(sq, z9);
        if exact {
            lemma_power_mul(*z, z8, z9, x, 1, 8);
        }
    }
    let z11: Fe = fe_mul(&sq, &z9);
    proof {
        if exact {
            lemma_power_mul(sq, z9, z11, x, 2, 9);
        }
    }
    let z22: Fe = square_times(&z11, 1, Ghost(x), Ghost(11));
    proof {
        lemma_carried_exact(z9, z22);
    }
    let e5: Fe = fe_mul(&z9, &z22);
    proof {
        if exact {
            lemma_power_mul(z9, z22, e5, x, 9, 22);
        }
    }
    let s5: Fe = square_times(&e5, 5, Ghost(x), Ghost(31));
    proof {
        lemma_carried_exact(e5, s5);
    }
    let e10: Fe = fe_mul(&e5, &s5);
    proof {
        if exact {
            lemma_power_mul(e5, s5, e10, x, 31, 992);
        }
    }
    let s10: Fe = square_times(&e10, 10, Ghost(x), Ghost(1023));
    proof {
        lemma_carried_exact(s10, e10);
    }
    let e20: Fe = fe_mul(&s10, &e10);
    proof {
        if exact {
            lemma_power_mul(s10, e10, e20, x, 0xffc00, 0x3ff);
        }
    }
    let s20: Fe = square_times(&e20, 20, Ghost(x), Ghost(0xfffff));
    proof {
        lemma_carried_exact(s20, e20);
    }
    let e40: Fe = fe_mul(&s20, &e20);
    proof {
        if exact {
            lemma_power_mul(s20, e20, e40, x, 0xfffff00000, 0xfffff);
        }
    }
    let s40: Fe = square_times(&e40, 10, Ghost(x), Ghost(0xffffffffff));
    proof {
        lemma_carried_exact(s40, e10);
    }
    let e50: Fe = fe_mul(&s40, &e10);
    proof {
        if exact {
            lemma_power_mul(s40, e10, e50, x, 0x3fffffffffc00, 0x3ff);
        }
    }
    let s50: Fe = square_times(&e50, 50, Ghost(x), Ghost(0x3ffffffffffff));
    proof {
        lemma_carried_exact(s50, e50);
    }
    let e100: Fe = fe_mul(&s50, &e50);
    proof {
        if exact {
            lemma_power_mul(s50, e50, e100, x, 0xffffffffffffc000000000000nat, 0x3ffffffffffff);
        }
    }
    let s100: Fe = square_times(&e100, 100, Ghost(x), Ghost(0xfffffffffffffffffffffffffnat));
    proof {
        lemma_carried_exact(s100, e100);
    }
    let e200: Fe = fe_mul(&s100, &e100);
    proof {
        if exact {
            lemma_power_mul(
                s100,
                e100,
                e200,
                x,
                0xfffffffffffffffffffffffff0000000000000000000000000nat,
                0xfffffffffffffffffffffffffnat,
            );
        }
    }
    let s200: Fe = square_times(
        &e200,
        50,
        Ghost(x),
        Ghost(0xffffffffffffffffffffffffffffffffffffffffffffffffffnat),
    );
    proof {
        lemma_carried_exact(s200, e50);
    }
    let e250: Fe = fe_mul(&s200, &e50);
    proof {
        if exact {
            lemma_power_mul(
                s200,
                e50,
                e250,
                x,
                0x3fffffffffffffffffffffffffffffffffffffffffffffffffc000000000000nat,
                0x3ffffffffffff,
            );
        }
    }
    let s250: Fe = square_times(
        &e250,
        5,
        Ghost(x),
        Ghost(0x3ffffffffffffffffffffffffffffffffffffffffffffffffffffffffffffffnat),
    );
    proof {
        lemma_carried_exact(s250, z11);
    }
    let r: Fe = fe_mul(&s250, &z11);
    proof {
        if exact {
            lemma_power_mul(
                s250,
                z11,
                r,
                x,
                0x7fffffffffffffffffffffffffffffffffffffffffffffffffffffffffffffe0nat,
                11,
            );
            gf::lemma_reduced(field::fe_value(*z));
            gf::lemma_inverse(x);
        }
        assert(field::ints(r) == inverted(field::ints(*z))) by {
            reveal(multiplied);
            reveal(inverted);
            reveal_with_fuel(squared_times, 2);
        }
    }
    r
}

/// An element of limbs up to 2^19 times its inverse is 1, and 0 has 0.
pub proof fn law_inverse(z: Fe, r: Fe)
    requires
        call_ensures(fe_invert, (&z,), r),
        forall|i: int| 0 <= i < 16 ==> #[trigger] z[i] <= 0x8_0000,
    ensures
        field::number(z) % radix::prime() != 0 ==> (field::number(z) * field::number(r))
            % radix::prime() == 1,
        field::number(z) % radix::prime() == 0 ==> field::number(r) % radix::prime() == 0,
{
    assert(field::ints(z) =~= Seq::new(16, |i: int| z[i] as int));
    assert(field::ints(r) =~= Seq::new(16, |i: int| r[i] as int));
    assert(field::limbs_at_most(z, 0x8_0000));
    lemma_mul_mod_noop(field::number(z), field::number(r), radix::prime());
    gf::lemma_inverse(field::residue(z));
}

} // verus!
