//! A Pocklington certificate that 2^255 - 19 is prime.
//!
//! Each prime `n` of the chain below rests on a prime factor of `n - 1`; the powers it
//! needs are evaluated one squaring at a time.

use crate::primes;
use crate::radix;
use vstd::arithmetic::div_mod::*;
use vstd::arithmetic::power::*;
use vstd::prelude::*;

verus! {

proof fn lemma_991_prime()
    ensures
        primes::is_prime(991),
{
    if !primes::is_prime(991) {
        primes::lemma_tried(991, 1, 0, 2);
        primes::lemma_tried(991, 1, 1, 3);
        primes::lemma_tried(991, 1, 2, 4);
        primes::lemma_tried(991, 1, 3, 5);
        primes::lemma_tried(991, 1, 4, 6);
        primes::lemma_tried(991, 1, 5, 7);
        primes::lemma_tried(991, 1, 6, 8);
        primes::lemma_tried(991, 1, 7, 9);
        primes::lemma_tried(991, 1, 8, 10);
        primes::lemma_tried(991, 1, 9, 11);
        primes::lemma_tried(991, 1, 10, 12);
        primes::lemma_tried(991, 1, 11, 13);
        primes::lemma_tried(991, 1, 12, 14);
        primes::lemma_tried(991, 1, 13, 15);
        primes::lemma_tried(991, 1, 14, 16);
        primes::lemma_tried(991, 1, 15, 17);
        primes::lemma_tried(991, 1, 16, 18);
        primes::lemma_tried(991, 1, 17, 19);
        primes::lemma_tried(991, 1, 18, 20);
        primes::lemma_tried(991, 1, 19, 21);
        primes::lemma_tried(991, 1, 20, 22);
        primes::lemma_tried(991, 1, 21, 23);
        primes::lemma_tried(991, 1, 22, 24);
        primes::lemma_tried(991, 1, 23, 25);
        primes::lemma_tried(991, 1, 24, 26);
        primes::lemma_tried(991, 1, 25, 27);
        primes::lemma_tried(991, 1, 26, 28);
        primes::lemma_tried(991, 1, 27, 29);
        primes::lemma_tried(991, 1, 28, 30);
        primes::lemma_tried(991, 1, 29, 31);
        let l = primes::lemma_prime_divisor(991);
        assert(l < 32) by (nonlinear_arith)
            requires
                l * l <= 991,
        ;
        primes::lemma_none_divides(991, 1, 30, l - 1);
    }
}

/// The 236-bit prime factor of `p - 1`.
pub open spec fn q236() -> int {
    0xabaf8c6b094fd0f32c2ccabab864dbecd99144679c1adf804898fb2042bint
}

/// A prime factor of `q236() - 1`.
pub open spec fn q116() -> int {
    0xe87c2a477b815a1793787395b23e1int
}

/// A prime factor of `q116() - 1`.
pub open spec fn q51() -> int {
    0x6d1cafa129d0b
}

/// A prime factor of `q51() - 1`.
pub open spec fn q24() -> int {
    0x82d4b5
}

proof fn lemma_q24_base_0()
    ensures
        pow(2, 0x21cc) % q24() == 0x346cd1,
{
    lemma_pow1(2);
    let e: nat = 0x1;
    let e = primes::lemma_chain_square(q24(), 2, e, 0x2, 0x4);
    let e = primes::lemma_chain_square(q24(), 2, e, 0x4, 0x10);
    let e = primes::lemma_chain_square(q24(), 2, e, 0x10, 0x100);
    let e = primes::lemma_chain_square(q24(), 2, e, 0x100, 0x10000);
    let e = primes::lemma_chain_double(q24(), 2, e, 0x10000, 0x6e4843);
    let e = primes::lemma_chain_double(q24(), 2, e, 0x6e4843, 0x5f870d);
    let e = primes::lemma_chain_double(q24(), 2, e, 0x5f870d, 0x69105);
    let e = primes::lemma_chain_square(q24(), 2, e, 0x69105, 0xa56ee);
    let e = primes::lemma_chain_square(q24(), 2, e, 0xa56ee, 0x6ff309);
    let e = primes::lemma_chain_double(q24(), 2, e, 0x6ff309, 0x1e917b);
    let e = primes::lemma_chain_double(q24(), 2, e, 0x1e917b, 0x1108c);
    let e = primes::lemma_chain_square(q24(), 2, e, 0x1108c, 0x64afad);
    let e = primes::lemma_chain_square(q24(), 2, e, 0x64afad, 0x346cd1);
}

spec fn q24_root() -> int {
    0x346cd1
}

proof fn lemma_q24_power_0()
    ensures
        pow(q24_root(), 0x3df) % q24() == 0x1,
{
    lemma_pow1(q24_root());
    let e: nat = 0x1;
    let e = primes::lemma_chain_double(q24(), q24_root(), e, 0x346cd1, 0x730281);
    let e = primes::lemma_chain_double(q24(), q24_root(), e, 0x730281, 0x7c5d46);
    let e = primes::lemma_chain_double(q24(), q24_root(), e, 0x7c5d46, 0x67873c);
    let e = primes::lemma_chain_square(q24(), q24_root(), e, 0x67873c, 0x525f9a);
    let e = primes::lemma_chain_double(q24(), q24_root(), e, 0x525f9a, 0x159ed7);
    let e = primes::lemma_chain_double(q24(), q24_root(), e, 0x159ed7, 0x62fece);
    let e = primes::lemma_chain_double(q24(), q24_root(), e, 0x62fece, 0x4cd86a);
    let e = primes::lemma_chain_double(q24(), q24_root(), e, 0x4cd86a, 0x7520bc);
    let e = primes::lemma_chain_double(q24(), q24_root(), e, 0x7520bc, 0x1);
}

pub proof fn lemma_q24_prime()
    ensures
        primes::is_prime(q24()),
{
    lemma_991_prime();
    lemma_q24_base_0();
    lemma_q24_power_0();
    primes::lemma_tried(q24(), 991, 0, 0x3e0);
    primes::lemma_tried(q24(), 991, 1, 0x7bf);
    primes::lemma_certify(
        q24(),
        991,
        0x21cc,
        2,
        q24_root(),
        0xf79eb,
        2,
        0xb9e,
    );
}

proof fn lemma_q51_base_0()
    ensures
        pow(2, 0x1ab0124) % q51() == 0x38f03576a55f7,
{
    lemma_pow1(2);
    let e: nat = 0x1;
    let e = primes::lemma_chain_double(q51(), 2, e, 0x2, 0x8);
    let e = primes::lemma_chain_square(q51(), 2, e, 0x8, 0x40);
    let e = primes::lemma_chain_double(q51(), 2, e, 0x40, 0x2000);
    let e = primes::lemma_chain_square(q51(), 2, e, 0x2000, 0x4000000);
    let e = primes::lemma_chain_double(q51(), 2, e, 0x4000000, 0x4b8d417b58bd4);
    let e = primes::lemma_chain_square(q51(), 2, e, 0x4b8d417b58bd4, 0x3bb9bdc82f6e4);
    let e = primes::lemma_chain_double(q51(), 2, e, 0x3bb9bdc82f6e4, 0x5f18e786eab62);
    let e = primes::lemma_chain_double(q51(), 2, e, 0x5f18e786eab62, 0x34a24d67198b2);
    let e = primes::lemma_chain_square(q51(), 2, e, 0x34a24d67198b2, 0x404d9a606b02c);
    let e = primes::lemma_chain_square(q51(), 2, e, 0x404d9a606b02c, 0x6a2603b88121b);
    let e = primes::lemma_chain_square(q51(), 2, e, 0x6a2603b88121b, 0x19004c5c350df);
    let e = primes::lemma_chain_square(q51(), 2, e, 0x19004c5c350df, 0x42d8f2a2ec64a);
    let e = primes::lemma_chain_square(q51(), 2, e, 0x42d8f2a2ec64a, 0x508eccc5fc7a7);
    let e = primes::lemma_chain_square(q51(), 2, e, 0x508eccc5fc7a7, 0xd194095d85ca);
    let e = primes::lemma_chain_square(q51(), 2, e, 0xd194095d85ca, 0x4eb4d9d00b27c);
    let e = primes::lemma_chain_double(q51(), 2, e, 0x4eb4d9d00b27c, 0x28416ba0b6a57);
    let e = primes::lemma_chain_square(q51(), 2, e, 0x28416ba0b6a57, 0x2eb989126ce8e);
    let e = primes::lemma_chain_square(q51(), 2, e, 0x2eb989126ce8e, 0x5772cd6bce94b);
    let e = primes::lemma_chain_double(q51(), 2, e, 0x5772cd6bce94b, 0x5d322c8ac0852);
    let e = primes::lemma_chain_square(q51(), 2, e, 0x5d322c8ac0852, 0x4e0d9428f0339);
    let e = primes::lemma_chain_square(q51(), 2, e, 0x4e0d9428f0339, 0xfeb816ba61af);
    let e = primes::lemma_chain_double(q51(), 2, e, 0xfeb816ba61af, 0x4c0d7a2b0b64b);
    let e = primes::lemma_chain_square(q51(), 2, e, 0x4c0d7a2b0b64b, 0x259cb28ce652d);
    let e = primes::lemma_chain_square(q51(), 2, e, 0x259cb28ce652d, 0x38f03576a55f7);
}

proof fn lemma_q51_base_1()
    requires
        pow(2, 0x1ab0124) % q51() == 0x38f03576a55f7,
    ensures
        pow(2, 0xd580922) % q51() == 0x3c3ffdef7c0b1,
{
    let e: nat = 0x1ab0124;
    let e = primes::lemma_chain_square(q51(), 2, e, 0x38f03576a55f7, 0x675002e71f67f);
    let e = primes::lemma_chain_double(q51(), 2, e, 0x675002e71f67f, 0x14b705744ee84);
    let e = primes::lemma_chain_square(q51(), 2, e, 0x14b705744ee84, 0x3c3ffdef7c0b1);
}

spec fn q51_root() -> int {
    0x3c3ffdef7c0b1
}

proof fn lemma_q51_power_0()
    ensures
        pow(q51_root(), 0x82d4b5) % q51() == 0x1,
{
    lemma_pow1(q51_root());
    let e: nat = 0x1;
    let e = primes::lemma_chain_square(q51(), q51_root(), e, 0x3c3ffdef7c0b1, 0x158280d1c7fe9);
    let e = primes::lemma_chain_square(q51(), q51_root(), e, 0x158280d1c7fe9, 0x8343f3dc7de5);
    let e = primes::lemma_chain_square(q51(), q51_root(), e, 0x8343f3dc7de5, 0xa1a81c865ef3);
    let e = primes::lemma_chain_square(q51(), q51_root(), e, 0xa1a81c865ef3, 0x392a5595195eb);
    let e = primes::lemma_chain_square(q51(), q51_root(), e, 0x392a5595195eb, 0x612344a925350);
    let e = primes::lemma_chain_double(q51(), q51_root(), e, 0x612344a925350, 0x2c250f4ecd406);
    let e = primes::lemma_chain_square(q51(), q51_root(), e, 0x2c250f4ecd406, 0x626b6bf964a0b);
    let e = primes::lemma_chain_double(q51(), q51_root(), e, 0x626b6bf964a0b, 0x6bb9918006e92);
    let e = primes::lemma_chain_double(q51(), q51_root(), e, 0x6bb9918006e92, 0x1af1b0376649d);
    let e = primes::lemma_chain_square(q51(), q51_root(), e, 0x1af1b0376649d, 0x32382c25445fa);
    let e = primes::lemma_chain_double(q51(), q51_root(), e, 0x32382c25445fa, 0x67339e4b07ecd);
    let e = primes::lemma_chain_square(q51(), q51_root(), e, 0x67339e4b07ecd, 0x293c7db21880d);
    let e = primes::lemma_chain_double(q51(), q51_root(), e, 0x293c7db21880d, 0x3e3bdbc06dca4);
    let e = primes::lemma_chain_square(q51(), q51_root(), e, 0x3e3bdbc06dca4, 0x6bd0e231a5cd1);
    let e = primes::lemma_chain_square(q51(), q51_root(), e, 0x6bd0e231a5cd1, 0x5319205ebe88c);
    let e = primes::lemma_chain_double(q51(), q51_root(), e, 0x5319205ebe88c, 0x65459d5b3f521);
    let e = primes::lemma_chain_square(q51(), q51_root(), e, 0x65459d5b3f521, 0x2741e82e93a2c);
    let e = primes::lemma_chain_double(q51(), q51_root(), e, 0x2741e82e93a2c, 0x1efe5f3dc2faa);
    let e = primes::lemma_chain_double(q51(), q51_root(), e, 0x1efe5f3dc2faa, 0x11a52cb514f6b);
    let e = primes::lemma_chain_square(q51(), q51_root(), e, 0x11a52cb514f6b, 0x29c454b86c6a2);
    let e = primes::lemma_chain_double(q51(), q51_root(), e, 0x29c454b86c6a2, 0x5967ff7111a20);
    let e = primes::lemma_chain_square(q51(), q51_root(), e, 0x5967ff7111a20, 0x3691e18f9008b);
    let e = primes::lemma_chain_double(q51(), q51_root(), e, 0x3691e18f9008b, 0x1);
}

pub proof fn lemma_q51_prime()
    ensures
        primes::is_prime(q51()),
{
    lemma_q24_prime();
    lemma_q51_base_0();
    lemma_q51_base_1();
    lemma_q51_power_0();
    primes::lemma_tried(q51(), q24(), 0, 0x82d4b6);
    primes::lemma_tried(q51(), q24(), 1, 0x105a96b);
    primes::lemma_tried(q51(), q24(), 2, 0x1887e20);
    primes::lemma_tried(q51(), q24(), 3, 0x20b52d5);
    primes::lemma_tried(q51(), q24(), 4, 0x28e278a);
    primes::lemma_certify(
        q51(),
        q24(),
        0xd580922,
        2,
        q51_root(),
        0x495bef080ea35,
        5,
        0x310fc3f,
    );
}

proof fn lemma_q116_base_0()
    ensures
        pow(2, 0x110bac4) % q116() == 0x4ea08212a042d1f9374dd1823950bint,
{
    lemma_pow1(2);
    let e: nat = 0x1;
    let e = primes::lemma_chain_square(q116(), 2, e, 0x2, 0x4);
    let e = primes::lemma_chain_square(q116(), 2, e, 0x4, 0x10);
    let e = primes::lemma_chain_square(q116(), 2, e, 0x10, 0x100);
    let e = primes::lemma_chain_double(q116(), 2, e, 0x100, 0x20000);
    let e = primes::lemma_chain_square(q116(), 2, e, 0x20000, 0x400000000);
    let e = primes::lemma_chain_square(q116(), 2, e, 0x400000000, 0x100000000000000000int);
    let e = primes::lemma_chain_square(q116(), 2, e, 0x100000000000000000int, 0x72c84b3dffef4313c76ee90369f15int);
    let e = primes::lemma_chain_square(q116(), 2, e, 0x72c84b3dffef4313c76ee90369f15int, 0x17dbb00000);
    let e = primes::lemma_chain_double(q116(), 2, e, 0x17dbb00000, 0x4726c4d320000000000int);
    let e = primes::lemma_chain_square(q116(), 2, e, 0x4726c4d320000000000int, 0xb14f313a2832003e0df7609d25e6cint);
    let e = primes::lemma_chain_double(q116(), 2, e, 0xb14f313a2832003e0df7609d25e6cint, 0xa868cd4e3f37a9c111b58cd538fa6int);
    let e = primes::lemma_chain_double(q116(), 2, e, 0xa868cd4e3f37a9c111b58cd538fa6int, 0xbdd70817144567f7b79ffd24f00ddint);
    let e = primes::lemma_chain_double(q116(), 2, e, 0xbdd70817144567f7b79ffd24f00ddint, 0x9e10535caff837d7c5291aa75141eint);
    let e = primes::lemma_chain_square(q116(), 2, e, 0x9e10535caff837d7c5291aa75141eint, 0xda7fef63e9d7012b44eb0b43a967bint);
    let e = primes::lemma_chain_double(q116(), 2, e, 0xda7fef63e9d7012b44eb0b43a967bint, 0x65129e2b8099eaef71586722e7190int);
    let e = primes::lemma_chain_square(q116(), 2, e, 0x65129e2b8099eaef71586722e7190int, 0x772a1cbc4df204759de3128d27123int);
    let e = primes::lemma_chain_double(q116(), 2, e, 0x772a1cbc4df204759de3128d27123int, 0xc5a158f0a198c844e78c5278e7e52int);
    let e = primes::lemma_chain_double(q116(), 2, e, 0xc5a158f0a198c844e78c5278e7e52int, 0x9764b1a5c7ff9e68e8907cdd3c8ddint);
    let e = primes::lemma_chain_square(q116(), 2, e, 0x9764b1a5c7ff9e68e8907cdd3c8ddint, 0xa27df394215b46f6c316c3cc1aecdint);
    let e = primes::lemma_chain_square(q116(), 2, e, 0xa27df394215b46f6c316c3cc1aecdint, 0xa408a65f29ca1e95758135af3e099int);
    let e = primes::lemma_chain_square(q116(), 2, e, 0xa408a65f29ca1e95758135af3e099int, 0x1500cbd7bb1659c25e95a8d280a0dint);
    let e = primes::lemma_chain_double(q116(), 2, e, 0x1500cbd7bb1659c25e95a8d280a0dint, 0x544894318d7866f3a797114a93bbdint);
    let e = primes::lemma_chain_square(q116(), 2, e, 0x544894318d7866f3a797114a93bbdint, 0x70393e8f73104ca3641dc4c0d9ecfint);
    let e = primes::lemma_chain_square(q116(), 2, e, 0x70393e8f73104ca3641dc4c0d9ecfint, 0x4ea08212a042d1f9374dd1823950bint);
}

proof fn lemma_q116_base_1()
    requires
        pow(2, 0x110bac4) % q116() == 0x4ea08212a042d1f9374dd1823950bint,
    ensures
        pow(2, 0x110bac45b5a7b) % q116() == 0x2c1c1d1b66208396c9e0da8cee21fint,
{
    let e: nat = 0x110bac4;
    let e = primes::lemma_chain_square(q116(), 2, e, 0x4ea08212a042d1f9374dd1823950bint, 0xb2171325b2f1c1a49ecc867d5f24fint);
    let e = primes::lemma_chain_double(q116(), 2, e, 0xb2171325b2f1c1a49ecc867d5f24fint, 0xbf86be0836a3f23e7b5aaf7dd85dbint);
    let e = primes::lemma_chain_square(q116(), 2, e, 0xbf86be0836a3f23e7b5aaf7dd85dbint, 0xbc4e928b1eee0a099e939a6915cbaint);
    let e = primes::lemma_chain_double(q116(), 2, e, 0xbc4e928b1eee0a099e939a6915cbaint, 0xe5573ae0f6d4b703deefa97bb7a34int);
    let e = primes::lemma_chain_double(q116(), 2, e, 0xe5573ae0f6d4b703deefa97bb7a34int, 0x28070f0ce68ad04dceeba5b7628b1int);
    let e = primes::lemma_chain_square(q116(), 2, e, 0x28070f0ce68ad04dceeba5b7628b1int, 0x1bc45971a75ce48d787f1c94a000dint);
    let e = primes::lemma_chain_double(q116(), 2, e, 0x1bc45971a75ce48d787f1c94a000dint, 0x7fd4bd56803e8342be3d722fe61ebint);
    let e = primes::lemma_chain_double(q116(), 2, e, 0x7fd4bd56803e8342be3d722fe61ebint, 0x71fe4636598a26698c235a47f93c1int);
    let e = primes::lemma_chain_square(q116(), 2, e, 0x71fe4636598a26698c235a47f93c1int, 0x194edff57d80e5c9761410876addint);
    let e = primes::lemma_chain_double(q116(), 2, e, 0x194edff57d80e5c9761410876addint, 0x4d5e3bd4945f807e7638c00287398int);
    let e = primes::lemma_chain_square(q116(), 2, e, 0x4d5e3bd4945f807e7638c00287398int, 0x9655fe00e0ab5d432b07544c38a1eint);
    let e = primes::lemma_chain_double(q116(), 2, e, 0x9655fe00e0ab5d432b07544c38a1eint, 0x4891f7e860d2c9d222d333e55ab66int);
    let e = primes::lemma_chain_double(q116(), 2, e, 0x4891f7e860d2c9d222d333e55ab66int, 0x695d4a8e9b68c082ac4a078aef045int);
    let e = primes::lemma_chain_square(q116(), 2, e, 0x695d4a8e9b68c082ac4a078aef045int, 0x491c3082d7b3a52763f0c34935a32int);
    let e = primes::lemma_chain_double(q116(), 2, e, 0x491c3082d7b3a52763f0c34935a32int, 0xe4e7c5fff7f1a4e4a7840821d6d3fint);
    let e = primes::lemma_chain_square(q116(), 2, e, 0xe4e7c5fff7f1a4e4a7840821d6d3fint, 0x52ce25a2a94ee92c92fefeed83f4int);
    let e = primes::lemma_chain_square(q116(), 2, e, 0x52ce25a2a94ee92c92fefeed83f4int, 0xb2575d2efa93bf6464d7cad7b9ef9int);
    let e = primes::lemma_chain_double(q116(), 2, e, 0xb2575d2efa93bf6464d7cad7b9ef9int, 0xd50dfd42379cb9efe235ad9f22ff0int);
    let e = primes::lemma_chain_double(q116(), 2, e, 0xd50dfd42379cb9efe235ad9f22ff0int, 0x2716ede1f0e14a2cd2598ee19a7a7int);
    let e = primes::lemma_chain_double(q116(), 2, e, 0x2716ede1f0e14a2cd2598ee19a7a7int, 0x2896afd472c9e7936a6c2e22acc48int);
    let e = primes::lemma_chain_double(q116(), 2, e, 0x2896afd472c9e7936a6c2e22acc48int, 0x7783d69e20ee3bf78a6d9f9b8adfdint);
    let e = primes::lemma_chain_square(q116(), 2, e, 0x7783d69e20ee3bf78a6d9f9b8adfdint, 0xba83b9ca1b9b2ea43e1482f95f6eint);
    let e = primes::lemma_chain_double(q116(), 2, e, 0xba83b9ca1b9b2ea43e1482f95f6eint, 0x77cd05566e32877c6fb20cfb413b0int);
    let e = primes::lemma_chain_double(q116(), 2, e, 0x77cd05566e32877c6fb20cfb413b0int, 0x2c1c1d1b66208396c9e0da8cee21fint);
}

proof fn lemma_q116_base_2()
    requires
        pow(2, 0x110bac45b5a7b) % q116() == 0x2c1c1d1b66208396c9e0da8cee21fint,
    ensures
        pow(2, 0x2217588b6b4f717a0nat) % q116() == 0xaedd80ab27e8de3ca5f2fb22d5403int,
{
    let e: nat = 0x110bac45b5a7b;
    let e = primes::lemma_chain_double(q116(), 2, e, 0x2c1c1d1b66208396c9e0da8cee21fint, 0xdf4dd6133cbda34c81eefdf0eff1dint);
    let e = primes::lemma_chain_square(q116(), 2, e, 0xdf4dd6133cbda34c81eefdf0eff1dint, 0xa31574edd1a0be7dedc6b54c7372dint);
    let e = primes::lemma_chain_square(q116(), 2, e, 0xa31574edd1a0be7dedc6b54c7372dint, 0x86959b1bdaff2d9081466493d02d3int);
    let e = primes::lemma_chain_square(q116(), 2, e, 0x86959b1bdaff2d9081466493d02d3int, 0x23214b91898e53491cdacb364abd9int);
    let e = primes::lemma_chain_double(q116(), 2, e, 0x23214b91898e53491cdacb364abd9int, 0x3a599df33217093dc572ca5aab5a7int);
    let e = primes::lemma_chain_square(q116(), 2, e, 0x3a599df33217093dc572ca5aab5a7int, 0xbafbde5ebc386be1553b0f6390429int);
    let e = primes::lemma_chain_double(q116(), 2, e, 0xbafbde5ebc386be1553b0f6390429int, 0x808952037acc622251ea44cf13b7aint);
    let e = primes::lemma_chain_double(q116(), 2, e, 0x808952037acc622251ea44cf13b7aint, 0x142094c51b5dbc59a5329d5e22371int);
    let e = primes::lemma_chain_double(q116(), 2, e, 0x142094c51b5dbc59a5329d5e22371int, 0x2a989a902fb9217d482069bed88b1int);
    let e = primes::lemma_chain_double(q116(), 2, e, 0x2a989a902fb9217d482069bed88b1int, 0xde23ceb3a7a098965b2aa5ba2825eint);
    let e = primes::lemma_chain_square(q116(), 2, e, 0xde23ceb3a7a098965b2aa5ba2825eint, 0x5d1f3bbb944c1e87f26a0cc7e9fbint);
    let e = primes::lemma_chain_double(q116(), 2, e, 0x5d1f3bbb944c1e87f26a0cc7e9fbint, 0xd14c927b6590d0999886a314c1682int);
    let e = primes::lemma_chain_square(q116(), 2, e, 0xd14c927b6590d0999886a314c1682int, 0x89b84ebdbb5f3ab59c3b0ef8b7512int);
    let e = primes::lemma_chain_square(q116(), 2, e, 0x89b84ebdbb5f3ab59c3b0ef8b7512int, 0x4e306d573a851f226efe4f75ae6ecint);
    let e = primes::lemma_chain_square(q116(), 2, e, 0x4e306d573a851f226efe4f75ae6ecint, 0xcacb8bb8eee5d766f99fca73955b2int);
    let e = primes::lemma_chain_square(q116(), 2, e, 0xcacb8bb8eee5d766f99fca73955b2int, 0x85962565b5b70a66c6e9c7ccdeabint);
    let e = primes::lemma_chain_square(q116(), 2, e, 0x85962565b5b70a66c6e9c7ccdeabint, 0xaedd80ab27e8de3ca5f2fb22d5403int);
}

spec fn q116_root() -> int {
    0xaedd80ab27e8de3ca5f2fb22d5403int
}

proof fn lemma_q116_power_0()
    ensures
        pow(q116_root(), 0x1b472be) % q116() == 0x1a044229e28f73659f53fba8831aeint,
{
    lemma_pow1(q116_root());
    let e: nat = 0x1;
    let e = primes::lemma_chain_double(q116(), q116_root(), e, 0xaedd80ab27e8de3ca5f2fb22d5403int, 0x22f28959a6094f3ec9a3cec3753fdint);
    let e = primes::lemma_chain_square(q116(), q116_root(), e, 0x22f28959a6094f3ec9a3cec3753fdint, 0x7b07abf2a0bdfa0b9dd400295abint);
    let e = primes::lemma_chain_double(q116(), q116_root(), e, 0x7b07abf2a0bdfa0b9dd400295abint, 0x17406961c43ff0fec5a4ebd17405fint);
    let e = primes::lemma_chain_double(q116(), q116_root(), e, 0x17406961c43ff0fec5a4ebd17405fint, 0x86f41bda7c9b2a0ea67579a5971cdint);
    let e = primes::lemma_chain_square(q116(), q116_root(), e, 0x86f41bda7c9b2a0ea67579a5971cdint, 0x9d0091ad15cf6e36495814c254374int);
    let e = primes::lemma_chain_double(q116(), q116_root(), e, 0x9d0091ad15cf6e36495814c254374int, 0x53d31a0a415a647d81ba17c64cb9cint);
    let e = primes::lemma_chain_square(q116(), q116_root(), e, 0x53d31a0a415a647d81ba17c64cb9cint, 0x2b2ff71ac81a474c712d0b8b1f329int);
    let e = primes::lemma_chain_square(q116(), q116_root(), e, 0x2b2ff71ac81a474c712d0b8b1f329int, 0x71f9ced5e7ced7df9a9a7c51912e1int);
    let e = primes::lemma_chain_square(q116(), q116_root(), e, 0x71f9ced5e7ced7df9a9a7c51912e1int, 0xdd81996ef5ee110e553634ae0f1d1int);
    let e = primes::lemma_chain_double(q116(), q116_root(), e, 0xdd81996ef5ee110e553634ae0f1d1int, 0x8a4ce1ca61270808e9f80c903fa92int);
    let e = primes::lemma_chain_double(q116(), q116_root(), e, 0x8a4ce1ca61270808e9f80c903fa92int, 0x2f3ed96edb813d61b2da8bf51ce29int);
    let e = primes::lemma_chain_double(q116(), q116_root(), e, 0x2f3ed96edb813d61b2da8bf51ce29int, 0xb93588d98b41cdea0a321d17728int);
    let e = primes::lemma_chain_square(q116(), q116_root(), e, 0xb93588d98b41cdea0a321d17728int, 0xdd0d55144f23d57128e602b6b725fint);
    let e = primes::lemma_chain_square(q116(), q116_root(), e, 0xdd0d55144f23d57128e602b6b725fint, 0x311c7da706526c7b84452ad03a077int);
    let e = primes::lemma_chain_double(q116(), q116_root(), e, 0x311c7da706526c7b84452ad03a077int, 0x176fb2166802fc583d656ce58fda1int);
    let e = primes::lemma_chain_square(q116(), q116_root(), e, 0x176fb2166802fc583d656ce58fda1int, 0xe49cda690b91541a0b4bdedd2400bint);
    let e = primes::lemma_chain_double(q116(), q116_root(), e, 0xe49cda690b91541a0b4bdedd2400bint, 0x14051b811dcd6cc4d88bd19834f2eint);
    let e = primes::lemma_chain_square(q116(), q116_root(), e, 0x14051b811dcd6cc4d88bd19834f2eint, 0x832c61ba16d59cb5e168e09fefff3int);
    let e = primes::lemma_chain_double(q116(), q116_root(), e, 0x832c61ba16d59cb5e168e09fefff3int, 0x195189d68cb9280e581c0ea0d2fe2int);
    let e = primes::lemma_chain_double(q116(), q116_root(), e, 0x195189d68cb9280e581c0ea0d2fe2int, 0x3153b661018255cbd0a0f75054ca4int);
    let e = primes::lemma_chain_double(q116(), q116_root(), e, 0x3153b661018255cbd0a0f75054ca4int, 0x1d9d5ac3cfc7c71eb392e60e345b8int);
    let e = primes::lemma_chain_double(q116(), q116_root(), e, 0x1d9d5ac3cfc7c71eb392e60e345b8int, 0xdef4b93c246326ad733ff245e8807int);
    let e = primes::lemma_chain_double(q116(), q116_root(), e, 0xdef4b93c246326ad733ff245e8807int, 0x2fa31f134f23bd7fd36f5d18337bcint);
    let e = primes::lemma_chain_square(q116(), q116_root(), e, 0x2fa31f134f23bd7fd36f5d18337bcint, 0x1a044229e28f73659f53fba8831aeint);
}

proof fn lemma_q116_power_1()
    requires
        pow(q116_root(), 0x1b472be) % q116() == 0x1a044229e28f73659f53fba8831aeint,
    ensures
        pow(q116_root(), 0x1b472be84a742) % q116() == 0x570414ecf62a60bea569123ff9dbdint,
{
    let e: nat = 0x1b472be;
    let e = primes::lemma_chain_double(q116(), q116_root(), e, 0x1a044229e28f73659f53fba8831aeint, 0x21ff9c4e06fc08717d7447d7a9696int);
    let e = primes::lemma_chain_square(q116(), q116_root(), e, 0x21ff9c4e06fc08717d7447d7a9696int, 0x2b80db59644f026a0903288aaaa5dint);
    let e = primes::lemma_chain_square(q116(), q116_root(), e, 0x2b80db59644f026a0903288aaaa5dint, 0xa3f6d8bae90507075a3515b89fd58int);
    let e = primes::lemma_chain_square(q116(), q116_root(), e, 0xa3f6d8bae90507075a3515b89fd58int, 0x8abf84e490585b935976b1bdd486bint);
    let e = primes::lemma_chain_square(q116(), q116_root(), e, 0x8abf84e490585b935976b1bdd486bint, 0x93b03ea99805f634625c94e0aedf8int);
    let e = primes::lemma_chain_double(q116(), q116_root(), e, 0x93b03ea99805f634625c94e0aedf8int, 0x523c96f162978ca422a4dfdd98edbint);
    let e = primes::lemma_chain_square(q116(), q116_root(), e, 0x523c96f162978ca422a4dfdd98edbint, 0x83433b15f03439cf39f87f61b2704int);
    let e = primes::lemma_chain_square(q116(), q116_root(), e, 0x83433b15f03439cf39f87f61b2704int, 0x74d5f338e0a6231fe90cf6f410723int);
    let e = primes::lemma_chain_double(q116(), q116_root(), e, 0x74d5f338e0a6231fe90cf6f410723int, 0x25fa893e3cde365fed4f034118db6int);
    let e = primes::lemma_chain_square(q116(), q116_root(), e, 0x25fa893e3cde365fed4f034118db6int, 0x1acf64ac33b953f3a87c1cd463c50int);
    let e = primes::lemma_chain_double(q116(), q116_root(), e, 0x1acf64ac33b953f3a87c1cd463c50int, 0x8cda73d5157a5b35948e623134b41int);
    let e = primes::lemma_chain_square(q116(), q116_root(), e, 0x8cda73d5157a5b35948e623134b41int, 0xd2f25f4ad230f919bdeb95c0e36f4int);
    let e = primes::lemma_chain_square(q116(), q116_root(), e, 0xd2f25f4ad230f919bdeb95c0e36f4int, 0x4436bc1a94d40dbb06bbcfb1d8b38int);
    let e = primes::lemma_chain_double(q116(), q116_root(), e, 0x4436bc1a94d40dbb06bbcfb1d8b38int, 0x2b021a7ab552f243edc3ba9800c8eint);
    let e = primes::lemma_chain_double(q116(), q116_root(), e, 0x2b021a7ab552f243edc3ba9800c8eint, 0xc75cfb041436c33c739fc0605b903int);
    let e = primes::lemma_chain_double(q116(), q116_root(), e, 0xc75cfb041436c33c739fc0605b903int, 0x8b6152c1cfcd0923cce5add5d51c5int);
    let e = primes::lemma_chain_square(q116(), q116_root(), e, 0x8b6152c1cfcd0923cce5add5d51c5int, 0x96b899fdc0647b954aaad72656e3dint);
    let e = primes::lemma_chain_double(q116(), q116_root(), e, 0x96b899fdc0647b954aaad72656e3dint, 0xdd5967d7f15948d246efbdead218cint);
    let e = primes::lemma_chain_square(q116(), q116_root(), e, 0xdd5967d7f15948d246efbdead218cint, 0x69d4d43d2894618c2459bec1393a5int);
    let e = primes::lemma_chain_square(q116(), q116_root(), e, 0x69d4d43d2894618c2459bec1393a5int, 0x7ad56a78a8c4b8c1209fe3b3e6158int);
    let e = primes::lemma_chain_square(q116(), q116_root(), e, 0x7ad56a78a8c4b8c1209fe3b3e6158int, 0x3560eb68b455391e24f403ac8f46aint);
    let e = primes::lemma_chain_square(q116(), q116_root(), e, 0x3560eb68b455391e24f403ac8f46aint, 0x26780b9ac5112b06374380fca4b4cint);
    let e = primes::lemma_chain_double(q116(), q116_root(), e, 0x26780b9ac5112b06374380fca4b4cint, 0xa812cf0dbf2e7642952efba327e7aint);
    let e = primes::lemma_chain_square(q116(), q116_root(), e, 0xa812cf0dbf2e7642952efba327e7aint, 0x570414ecf62a60bea569123ff9dbdint);
}

proof fn lemma_q116_power_2()
    requires
        pow(q116_root(), 0x1b472be84a742) % q116() == 0x570414ecf62a60bea569123ff9dbdint,
    ensures
        pow(q116_root(), 0x6d1cafa129d0b) % q116() == 0x1,
{
    let e: nat = 0x1b472be84a742;
    let e = primes::lemma_chain_double(q116(), q116_root(), e, 0x570414ecf62a60bea569123ff9dbdint, 0xa4f5edfceeba5f3a9bd38539b0d94int);
    let e = primes::lemma_chain_double(q116(), q116_root(), e, 0xa4f5edfceeba5f3a9bd38539b0d94int, 0x1);
}

pub proof fn lemma_q116_prime()
    ensures
        primes::is_prime(q116()),
{
    lemma_q51_prime();
    lemma_q116_base_0();
    lemma_q116_base_1();
    lemma_q116_base_2();
    lemma_q116_power_0();
    lemma_q116_power_1();
    lemma_q116_power_2();
    primes::lemma_tried(q116(), q51(), 0, 0x6d1cafa129d0c);
    primes::lemma_tried(q116(), q51(), 1, 0xda395f4253a17);
    primes::lemma_tried(q116(), q51(), 2, 0x147560ee37d722);
    primes::lemma_tried(q116(), q51(), 3, 0x1b472be84a742d);
    primes::lemma_tried(q116(), q51(), 4, 0x2218f6e25d1138);
    primes::lemma_tried(q116(), q51(), 5, 0x28eac1dc6fae43);
    primes::lemma_tried(q116(), q51(), 6, 0x2fbc8cd6824b4e);
    primes::lemma_tried(q116(), q51(), 7, 0x368e57d094e859);
    primes::lemma_tried(q116(), q51(), 8, 0x3d6022caa78564);
    primes::lemma_tried(q116(), q51(), 9, 0x4431edc4ba226f);
    primes::lemma_tried(q116(), q51(), 10, 0x4b03b8beccbf7a);
    primes::lemma_tried(q116(), q51(), 11, 0x51d583b8df5c85);
    primes::lemma_tried(q116(), q51(), 12, 0x58a74eb2f1f990);
    primes::lemma_tried(q116(), q51(), 13, 0x5f7919ad04969b);
    primes::lemma_tried(q116(), q51(), 14, 0x664ae4a71733a6);
    primes::lemma_tried(q116(), q51(), 15, 0x6d1cafa129d0b1);
    primes::lemma_tried(q116(), q51(), 16, 0x73ee7a9b3c6dbc);
    primes::lemma_tried(q116(), q51(), 17, 0x7ac045954f0ac7);
    primes::lemma_tried(q116(), q51(), 18, 0x8192108f61a7d2);
    primes::lemma_tried(q116(), q51(), 19, 0x8863db897444dd);
    primes::lemma_tried(q116(), q51(), 20, 0x8f35a68386e1e8);
    primes::lemma_tried(q116(), q51(), 21, 0x9607717d997ef3);
    primes::lemma_tried(q116(), q51(), 22, 0x9cd93c77ac1bfe);
    primes::lemma_tried(q116(), q51(), 23, 0xa3ab0771beb909);
    primes::lemma_tried(q116(), q51(), 24, 0xaa7cd26bd15614);
    primes::lemma_tried(q116(), q51(), 25, 0xb14e9d65e3f31f);
    primes::lemma_tried(q116(), q51(), 26, 0xb820685ff6902a);
    primes::lemma_tried(q116(), q51(), 27, 0xbef2335a092d35);
    primes::lemma_tried(q116(), q51(), 28, 0xc5c3fe541bca40);
    primes::lemma_tried(q116(), q51(), 29, 0xcc95c94e2e674b);
    primes::lemma_tried(q116(), q51(), 30, 0xd3679448410456);
    primes::lemma_tried(q116(), q51(), 31, 0xda395f4253a161);
    primes::lemma_tried(q116(), q51(), 32, 0xe10b2a3c663e6c);
    primes::lemma_tried(q116(), q51(), 33, 0xe7dcf53678db77);
    primes::lemma_tried(q116(), q51(), 34, 0xeeaec0308b7882);
    primes::lemma_tried(q116(), q51(), 35, 0xf5808b2a9e158d);
    primes::lemma_tried(q116(), q51(), 36, 0xfc525624b0b298);
    primes::lemma_tried(q116(), q51(), 37, 0x10324211ec34fa3);
    primes::lemma_tried(q116(), q51(), 38, 0x109f5ec18d5ecae);
    primes::lemma_tried(q116(), q51(), 39, 0x110c7b712e889b9);
    primes::lemma_tried(q116(), q51(), 40, 0x11799820cfb26c4);
    primes::lemma_tried(q116(), q51(), 41, 0x11e6b4d070dc3cf);
    primes::lemma_tried(q116(), q51(), 42, 0x1253d18012060da);
    primes::lemma_tried(q116(), q51(), 43, 0x12c0ee2fb32fde5);
    primes::lemma_tried(q116(), q51(), 44, 0x132e0adf5459af0);
    primes::lemma_tried(q116(), q51(), 45, 0x139b278ef5837fb);
    primes::lemma_tried(q116(), q51(), 46, 0x1408443e96ad506);
    primes::lemma_tried(q116(), q51(), 47, 0x147560ee37d7211);
    primes::lemma_tried(q116(), q51(), 48, 0x14e27d9dd900f1c);
    primes::lemma_tried(q116(), q51(), 49, 0x154f9a4d7a2ac27);
    primes::lemma_tried(q116(), q51(), 50, 0x15bcb6fd1b54932);
    primes::lemma_tried(q116(), q51(), 51, 0x1629d3acbc7e63d);
    primes::lemma_tried(q116(), q51(), 52, 0x1696f05c5da8348);
    primes::lemma_tried(q116(), q51(), 53, 0x17040d0bfed2053);
    primes::lemma_tried(q116(), q51(), 54, 0x177129bb9ffbd5e);
    primes::lemma_tried(q116(), q51(), 55, 0x17de466b4125a69);
    primes::lemma_tried(q116(), q51(), 56, 0x184b631ae24f774);
    primes::lemma_tried(q116(), q51(), 57, 0x18b87fca837947f);
    primes::lemma_tried(q116(), q51(), 58, 0x19259c7a24a318a);
    primes::lemma_tried(q116(), q51(), 59, 0x1992b929c5cce95);
    primes::lemma_tried(q116(), q51(), 60, 0x19ffd5d966f6ba0);
    primes::lemma_tried(q116(), q51(), 61, 0x1a6cf28908208ab);
    primes::lemma_tried(q116(), q51(), 62, 0x1ada0f38a94a5b6);
    primes::lemma_tried(q116(), q51(), 63, 0x1b472be84a742c1);
    primes::lemma_tried(q116(), q51(), 64, 0x1bb44897eb9dfcc);
    primes::lemma_tried(q116(), q51(), 65, 0x1c2165478cc7cd7);
    primes::lemma_tried(q116(), q51(), 66, 0x1c8e81f72df19e2);
    primes::lemma_tried(q116(), q51(), 67, 0x1cfb9ea6cf1b6ed);
    primes::lemma_tried(q116(), q51(), 68, 0x1d68bb5670453f8);
    primes::lemma_tried(q116(), q51(), 69, 0x1dd5d806116f103);
    primes::lemma_tried(q116(), q51(), 70, 0x1e42f4b5b298e0e);
    primes::lemma_tried(q116(), q51(), 71, 0x1eb0116553c2b19);
    primes::lemma_tried(q116(), q51(), 72, 0x1f1d2e14f4ec824);
    primes::lemma_tried(q116(), q51(), 73, 0x1f8a4ac4961652f);
    primes::lemma_tried(q116(), q51(), 74, 0x1ff76774374023a);
    primes::lemma_tried(q116(), q51(), 75, 0x20648423d869f45);
    primes::lemma_tried(q116(), q51(), 76, 0x20d1a0d37993c50);
    primes::lemma_tried(q116(), q51(), 77, 0x213ebd831abd95b);
    primes::lemma_tried(q116(), q51(), 78, 0x21abda32bbe7666);
    primes::lemma_tried(q116(), q51(), 79, 0x2218f6e25d11371);
    primes::lemma_tried(q116(), q51(), 80, 0x22861391fe3b07c);
    primes::lemma_tried(q116(), q51(), 81, 0x22f330419f64d87);
    primes::lemma_tried(q116(), q51(), 82, 0x23604cf1408ea92);
    primes::lemma_tried(q116(), q51(), 83, 0x23cd69a0e1b879d);
    primes::lemma_tried(q116(), q51(), 84, 0x243a865082e24a8);
    primes::lemma_tried(q116(), q51(), 85, 0x24a7a300240c1b3);
    primes::lemma_tried(q116(), q51(), 86, 0x2514bfafc535ebe);
    primes::lemma_tried(q116(), q51(), 87, 0x2581dc5f665fbc9);
    primes::lemma_tried(q116(), q51(), 88, 0x25eef90f07898d4);
    primes::lemma_tried(q116(), q51(), 89, 0x265c15bea8b35df);
    primes::lemma_tried(q116(), q51(), 90, 0x26c9326e49dd2ea);
    primes::lemma_tried(q116(), q51(), 91, 0x27364f1deb06ff5);
    primes::lemma_tried(q116(), q51(), 92, 0x27a36bcd8c30d00);
    primes::lemma_tried(q116(), q51(), 93, 0x2810887d2d5aa0b);
    primes::lemma_tried(q116(), q51(), 94, 0x287da52cce84716);
    primes::lemma_tried(q116(), q51(), 95, 0x28eac1dc6fae421);
    primes::lemma_tried(q116(), q51(), 96, 0x2957de8c10d812c);
    primes::lemma_tried(q116(), q51(), 97, 0x29c4fb3bb201e37);
    primes::lemma_tried(q116(), q51(), 98, 0x2a3217eb532bb42);
    primes::lemma_tried(q116(), q51(), 99, 0x2a9f349af45584d);
    primes::lemma_tried(q116(), q51(), 100, 0x2b0c514a957f558);
    primes::lemma_tried(q116(), q51(), 101, 0x2b796dfa36a9263);
    primes::lemma_tried(q116(), q51(), 102, 0x2be68aa9d7d2f6e);
    primes::lemma_tried(q116(), q51(), 103, 0x2c53a75978fcc79);
    primes::lemma_tried(q116(), q51(), 104, 0x2cc0c4091a26984);
    primes::lemma_tried(q116(), q51(), 105, 0x2d2de0b8bb5068f);
    primes::lemma_tried(q116(), q51(), 106, 0x2d9afd685c7a39a);
    primes::lemma_tried(q116(), q51(), 107, 0x2e081a17fda40a5);
    primes::lemma_tried(q116(), q51(), 108, 0x2e7536c79ecddb0);
    primes::lemma_tried(q116(), q51(), 109, 0x2ee253773ff7abb);
    primes::lemma_tried(q116(), q51(), 110, 0x2f4f7026e1217c6);
    primes::lemma_tried(q116(), q51(), 111, 0x2fbc8cd6824b4d1);
    primes::lemma_tried(q116(), q51(), 112, 0x3029a98623751dc);
    primes::lemma_tried(q116(), q51(), 113, 0x3096c635c49eee7);
    primes::lemma_tried(q116(), q51(), 114, 0x3103e2e565c8bf2);
    primes::lemma_tried(q116(), q51(), 115, 0x3170ff9506f28fd);
    primes::lemma_tried(q116(), q51(), 116, 0x31de1c44a81c608);
    primes::lemma_tried(q116(), q51(), 117, 0x324b38f44946313);
    primes::lemma_tried(q116(), q51(), 118, 0x32b855a3ea7001e);
    primes::lemma_tried(q116(), q51(), 119, 0x332572538b99d29);
    primes::lemma_tried(q116(), q51(), 120, 0x33928f032cc3a34);
    primes::lemma_tried(q116(), q51(), 121, 0x33ffabb2cded73f);
    primes::lemma_tried(q116(), q51(), 122, 0x346cc8626f1744a);
    primes::lemma_tried(q116(), q51(), 123, 0x34d9e5121041155);
    primes::lemma_tried(q116(), q51(), 124, 0x354701c1b16ae60);
    primes::lemma_tried(q116(), q51(), 125, 0x35b41e715294b6b);
    primes::lemma_tried(q116(), q51(), 126, 0x36213b20f3be876);
    primes::lemma_tried(q116(), q51(), 127, 0x368e57d094e8581);
    primes::lemma_tried(q116(), q51(), 128, 0x36fb7480361228c);
    primes::lemma_tried(q116(), q51(), 129, 0x3768912fd73bf97);
    primes::lemma_tried(q116(), q51(), 130, 0x37d5addf7865ca2);
    primes::lemma_tried(q116(), q51(), 131, 0x3842ca8f198f9ad);
    primes::lemma_tried(q116(), q51(), 132, 0x38afe73ebab96b8);
    primes::lemma_tried(q116(), q51(), 133, 0x391d03ee5be33c3);
    primes::lemma_tried(q116(), q51(), 134, 0x398a209dfd0d0ce);
    primes::lemma_tried(q116(), q51(), 135, 0x39f73d4d9e36dd9);
    primes::lemma_tried(q116(), q51(), 136, 0x3a6459fd3f60ae4);
    primes::lemma_tried(q116(), q51(), 137, 0x3ad176ace08a7ef);
    primes::lemma_tried(q116(), q51(), 138, 0x3b3e935c81b44fa);
    primes::lemma_tried(q116(), q51(), 139, 0x3babb00c22de205);
    primes::lemma_tried(q116(), q51(), 140, 0x3c18ccbbc407f10);
    primes::lemma_tried(q116(), q51(), 141, 0x3c85e96b6531c1b);
    primes::lemma_tried(q116(), q51(), 142, 0x3cf3061b065b926);
    primes::lemma_certify(
        q116(),
        q51(),
        0x2217588b6b4f717a0nat,
        2,
        q116_root(),
        0xe5e342b4c0a3d507894bab5f20e8bint,
        143,
        0x3d6022caa785631,
    );
}

proof fn lemma_q236_base_0()
    ensures
        pow(2, 0x17a1a29) % q236() == 0x9ad8894953481bb13ebe0dfbd7463f237320abbb500bd35d914131fb736int,
{
    lemma_pow1(2);
    let e: nat = 0x1;
    let e = primes::lemma_chain_square(q236(), 2, e, 0x2, 0x4);
    let e = primes::lemma_chain_double(q236(), 2, e, 0x4, 0x20);
    let e = primes::lemma_chain_double(q236(), 2, e, 0x20, 0x800);
    let e = primes::lemma_chain_double(q236(), 2, e, 0x800, 0x800000);
    let e = primes::lemma_chain_double(q236(), 2, e, 0x800000, 0x800000000000);
    let e = primes::lemma_chain_square(q236(), 2, e, 0x800000000000, 0x400000000000000000000000int);
    let e = primes::lemma_chain_double(q236(), 2, e, 0x400000000000000000000000int, 0x200000000000000000000000000000000000000000000000int);
    let e = primes::lemma_chain_square(q236(), 2, e, 0x200000000000000000000000000000000000000000000000int, 0xa0000000000000000000000000000000int);
    let e = primes::lemma_chain_square(q236(), 2, e, 0xa0000000000000000000000000000000int, 0x1575f18d6129fa1e65859957570c9b7d9b32288cf3835bf009131f64095int);
    let e = primes::lemma_chain_square(q236(), 2, e, 0x1575f18d6129fa1e65859957570c9b7d9b32288cf3835bf009131f64095int, 0x63417d2de16224cc9589e533f29a4f24edc7fb8be63f893629f8712eb5dint);
    let e = primes::lemma_chain_square(q236(), 2, e, 0x63417d2de16224cc9589e533f29a4f24edc7fb8be63f893629f8712eb5dint, 0x9c2295e31767e636259c7c1deed13941559c6c0579a73061da059fefd3fint);
    let e = primes::lemma_chain_double(q236(), 2, e, 0x9c2295e31767e636259c7c1deed13941559c6c0579a73061da059fefd3fint, 0x528e4381e9bd824c534fedc9a8c2c54b207db4585f9ea1608d26204f28fint);
    let e = primes::lemma_chain_double(q236(), 2, e, 0x528e4381e9bd824c534fedc9a8c2c54b207db4585f9ea1608d26204f28fint, 0x2ab2d9be5cddc7ab119c6d5cd8c0067479a78639a092b94fb1a666f9b61int);
    let e = primes::lemma_chain_square(q236(), 2, e, 0x2ab2d9be5cddc7ab119c6d5cd8c0067479a78639a092b94fb1a666f9b61int, 0x73f48ef786a0c82a5410bcef192dd17d7b44506e30444a6ddbcce12d10fint);
    let e = primes::lemma_chain_double(q236(), 2, e, 0x73f48ef786a0c82a5410bcef192dd17d7b44506e30444a6ddbcce12d10fint, 0x1915cb3e4ff6e29f92d957143a9a41090ce287174db79468d575ba7062fint);
    let e = primes::lemma_chain_square(q236(), 2, e, 0x1915cb3e4ff6e29f92d957143a9a41090ce287174db79468d575ba7062fint, 0x7ce9900030775e04fe6fc5e1a0b6f3ae9cdff71700b1f2c0fc96994c295int);
    let e = primes::lemma_chain_square(q236(), 2, e, 0x7ce9900030775e04fe6fc5e1a0b6f3ae9cdff71700b1f2c0fc96994c295int, 0x47ed91f9e30696c95f893badb61bd79ac630564c46ebfac55ad80409024int);
    let e = primes::lemma_chain_square(q236(), 2, e, 0x47ed91f9e30696c95f893badb61bd79ac630564c46ebfac55ad80409024int, 0x6d6910f52314c83c5d97d0ec8dba31017ab2fd248613c256aa925583ce9int);
    let e = primes::lemma_chain_double(q236(), 2, e, 0x6d6910f52314c83c5d97d0ec8dba31017ab2fd248613c256aa925583ce9int, 0x5422485ff1f494f98dace9fb2dbb7b389b6cc135d9a829625638397d4caint);
    let e = primes::lemma_chain_square(q236(), 2, e, 0x5422485ff1f494f98dace9fb2dbb7b389b6cc135d9a829625638397d4caint, 0x638b4d80ea1282170594444c4b6af20e30bf7b3a8df7c13642d404176fdint);
    let e = primes::lemma_chain_double(q236(), 2, e, 0x638b4d80ea1282170594444c4b6af20e30bf7b3a8df7c13642d404176fdint, 0x694f9def2b863bcfe29e3efe3af3b25a103f679a95ce819fda29104e084int);
    let e = primes::lemma_chain_square(q236(), 2, e, 0x694f9def2b863bcfe29e3efe3af3b25a103f679a95ce819fda29104e084int, 0x18b0339408243fcef68a5da014a993a89e2ed2e21250e7ab76b7f98f2f9int);
    let e = primes::lemma_chain_square(q236(), 2, e, 0x18b0339408243fcef68a5da014a993a89e2ed2e21250e7ab76b7f98f2f9int, 0x3d5c1fd1357668adbc8cd1a8afdacb0f87fa1ee62680b76b3d822405076int);
    let e = primes::lemma_chain_double(q236(), 2, e, 0x3d5c1fd1357668adbc8cd1a8afdacb0f87fa1ee62680b76b3d822405076int, 0x9ad8894953481bb13ebe0dfbd7463f237320abbb500bd35d914131fb736int);
}

proof fn lemma_q236_base_1()
    requires
        pow(2, 0x17a1a29) % q236() == 0x9ad8894953481bb13ebe0dfbd7463f237320abbb500bd35d914131fb736int,
    ensures
        pow(2, 0x17a1a299ef1ce) % q236() == 0x8ae0254f62995e149367320aa32b3275044ac79839f4008b2ebc57c4e36int,
{
    let e: nat = 0x17a1a29;
    let e = primes::lemma_chain_double(q236(), 2, e, 0x9ad8894953481bb13ebe0dfbd7463f237320abbb500bd35d914131fb736int, 0xaae8f053ae2ed9801733deb180bfa3073cd78cdb29a508fb08902164a25int);
    let e = primes::lemma_chain_square(q236(), 2, e, 0xaae8f053ae2ed9801733deb180bfa3073cd78cdb29a508fb08902164a25int, 0x6d8f8fb5ce21b8c0c7b3a311406adb88cc8672e9fe2eed169f1b4b55a2cint);
    let e = primes::lemma_chain_square(q236(), 2, e, 0x6d8f8fb5ce21b8c0c7b3a311406adb88cc8672e9fe2eed169f1b4b55a2cint, 0x44fcdedf04753ed8c8ee915986db0b0a72ae2d45022447a3a9dc506e3efint);
    let e = primes::lemma_chain_double(q236(), 2, e, 0x44fcdedf04753ed8c8ee915986db0b0a72ae2d45022447a3a9dc506e3efint, 0x240276ddb10caecaf7d3e5df844ffbe9e810e888ce454cc7646bb87c6b3int);
    let e = primes::lemma_chain_double(q236(), 2, e, 0x240276ddb10caecaf7d3e5df844ffbe9e810e888ce454cc7646bb87c6b3int, 0x4c93bfc17e5eed011591d724972c15ad4f0c7db6a31c19d543fec4f6338int);
    let e = primes::lemma_chain_double(q236(), 2, e, 0x4c93bfc17e5eed011591d724972c15ad4f0c7db6a31c19d543fec4f6338int, 0xf329c742169e5f91659c1b9c517a62f249b58ee3eb97ce145740ea5c42int);
    let e = primes::lemma_chain_double(q236(), 2, e, 0xf329c742169e5f91659c1b9c517a62f249b58ee3eb97ce145740ea5c42int, 0x3590cbf2c861435418e1ebbfdc94aa2753fc3dcd96b2e829500460504e4int);
    let e = primes::lemma_chain_square(q236(), 2, e, 0x3590cbf2c861435418e1ebbfdc94aa2753fc3dcd96b2e829500460504e4int, 0x16e3f379ad5b751a496ff90b3142c1fe077abff8bac422ba9f1603668b0int);
    let e = primes::lemma_chain_double(q236(), 2, e, 0x16e3f379ad5b751a496ff90b3142c1fe077abff8bac422ba9f1603668b0int, 0x81c638239d085d3ad08480a21330a6c834331a6451431a1028d3502ff25int);
    let e = primes::lemma_chain_double(q236(), 2, e, 0x81c638239d085d3ad08480a21330a6c834331a6451431a1028d3502ff25int, 0x9357900ca1515ba1035bab892100b9988dda7494d352741e294486e4b6int);
    let e = primes::lemma_chain_double(q236(), 2, e, 0x9357900ca1515ba1035bab892100b9988dda7494d352741e294486e4b6int, 0x405bb5b8ca0216da0c6f86ed1333a8bd775fed021a663d4e2b36235719bint);
    let e = primes::lemma_chain_double(q236(), 2, e, 0x405bb5b8ca0216da0c6f86ed1333a8bd775fed021a663d4e2b36235719bint, 0x7d62fcf75f812110cdb472c7ff884a43d480de33f860197f8f6fed500b6int);
    let e = primes::lemma_chain_square(q236(), 2, e, 0x7d62fcf75f812110cdb472c7ff884a43d480de33f860197f8f6fed500b6int, 0x904ba4c874b1f0f05b0450a279336362c7e1488ac92ee8f5da6f563364aint);
    let e = primes::lemma_chain_square(q236(), 2, e, 0x904ba4c874b1f0f05b0450a279336362c7e1488ac92ee8f5da6f563364aint, 0x76494f0a3a3c97814203225ec564b209a6f5546814a0c75daf65d46ffb0int);
    let e = primes::lemma_chain_square(q236(), 2, e, 0x76494f0a3a3c97814203225ec564b209a6f5546814a0c75daf65d46ffb0int, 0xa5f7104ec5019bccb3280196d860001a7443841d5ec0ed143bc88362c22int);
    let e = primes::lemma_chain_double(q236(), 2, e, 0xa5f7104ec5019bccb3280196d860001a7443841d5ec0ed143bc88362c22int, 0x5b3dc2fe48132afebaa6033610a1a800fd38e1e0af27e937f3588174316int);
    let e = primes::lemma_chain_double(q236(), 2, e, 0x5b3dc2fe48132afebaa6033610a1a800fd38e1e0af27e937f3588174316int, 0xab899e114625eeca247394185b8b10ed04cd483d38b90796a45e4ce6867int);
    let e = primes::lemma_chain_double(q236(), 2, e, 0xab899e114625eeca247394185b8b10ed04cd483d38b90796a45e4ce6867int, 0x706bedf360073a520b7b2e5a24d5997e7864fc6bdcaa27a96d516b75eaint);
    let e = primes::lemma_chain_square(q236(), 2, e, 0x706bedf360073a520b7b2e5a24d5997e7864fc6bdcaa27a96d516b75eaint, 0x2ecbe1d5d2a4e8bd96f9b7b79219fb1f19e861a83c56e62b50f54f2cb10int);
    let e = primes::lemma_chain_square(q236(), 2, e, 0x2ecbe1d5d2a4e8bd96f9b7b79219fb1f19e861a83c56e62b50f54f2cb10int, 0x480d7ea8eadcb7e4ebb35b1a0cdcd043f5e4cd4d2058172d0c27567b647int);
    let e = primes::lemma_chain_double(q236(), 2, e, 0x480d7ea8eadcb7e4ebb35b1a0cdcd043f5e4cd4d2058172d0c27567b647int, 0x877adfa6f8638081cc6b9c95ca5cef436014ca8cf2d5d3372d43dfb5928int);
    let e = primes::lemma_chain_double(q236(), 2, e, 0x877adfa6f8638081cc6b9c95ca5cef436014ca8cf2d5d3372d43dfb5928int, 0x603ea648a763450b49f2c2865bbd9d49594c23c9e5ff8ae53905be8fadeint);
    let e = primes::lemma_chain_double(q236(), 2, e, 0x603ea648a763450b49f2c2865bbd9d49594c23c9e5ff8ae53905be8fadeint, 0x83cb33627fafca484eea55f3ed3e53cd71569273276be4273e9744e83e0int);
    let e = primes::lemma_chain_square(q236(), 2, e, 0x83cb33627fafca484eea55f3ed3e53cd71569273276be4273e9744e83e0int, 0x8ae0254f62995e149367320aa32b3275044ac79839f4008b2ebc57c4e36int);
}

proof fn lemma_q236_base_2()
    requires
        pow(2, 0x17a1a299ef1ce) % q236() == 0x8ae0254f62995e149367320aa32b3275044ac79839f4008b2ebc57c4e36int,
    ensures
        pow(2, 0x17a1a299ef1cea43465nat) % q236() == 0x9d8a7de9b52217aa780f6b630473a357fba89e98dcd89278b5a0b108673int,
{
    let e: nat = 0x17a1a299ef1ce;
    let e = primes::lemma_chain_double(q236(), 2, e, 0x8ae0254f62995e149367320aa32b3275044ac79839f4008b2ebc57c4e36int, 0x77a545aee6778b3540b8d04f689d1e580d4d609671bde4fb96d6e1c2424int);
    let e = primes::lemma_chain_square(q236(), 2, e, 0x77a545aee6778b3540b8d04f689d1e580d4d609671bde4fb96d6e1c2424int, 0x1d3a2bd56156546153f495e59c8eedae00984d23441bd58c80d887f0cfeint);
    let e = primes::lemma_chain_double(q236(), 2, e, 0x1d3a2bd56156546153f495e59c8eedae00984d23441bd58c80d887f0cfeint, 0x11b8a152725ff5497da478350aa19b4f57f74d3443661db52819303f267int);
    let e = primes::lemma_chain_square(q236(), 2, e, 0x11b8a152725ff5497da478350aa19b4f57f74d3443661db52819303f267int, 0x87a1a708af6f6db13628dbb2cfb9a13f87ce11c0d7efdf799cc6d9d2d9int);
    let e = primes::lemma_chain_square(q236(), 2, e, 0x87a1a708af6f6db13628dbb2cfb9a13f87ce11c0d7efdf799cc6d9d2d9int, 0x681cea30777f864767ca5c72c2e0c9366d4bea0ed36db67f72e1b824700int);
    let e = primes::lemma_chain_double(q236(), 2, e, 0x681cea30777f864767ca5c72c2e0c9366d4bea0ed36db67f72e1b824700int, 0x6346ba8fb280afe985e7767d58d2b2d993a8e1056b527bf67febc19ab7dint);
    let e = primes::lemma_chain_square(q236(), 2, e, 0x6346ba8fb280afe985e7767d58d2b2d993a8e1056b527bf67febc19ab7dint, 0x66890395acbd229953540895de9c35dfd3b00c3391b3fbbeda237c04bbaint);
    let e = primes::lemma_chain_square(q236(), 2, e, 0x66890395acbd229953540895de9c35dfd3b00c3391b3fbbeda237c04bbaint, 0x246b0d995d0c971914cfb6d54b8f246af282bafd4da86c98e6560668218int);
    let e = primes::lemma_chain_square(q236(), 2, e, 0x246b0d995d0c971914cfb6d54b8f246af282bafd4da86c98e6560668218int, 0x96131899c63d71007c8e92a4eff37266d2ee68854c1e56c38cb6cadc056int);
    let e = primes::lemma_chain_square(q236(), 2, e, 0x96131899c63d71007c8e92a4eff37266d2ee68854c1e56c38cb6cadc056int, 0x1063eb9f7e399a72c51a14c8774493cfd6b71251d4d13448d8ad87df513int);
    let e = primes::lemma_chain_double(q236(), 2, e, 0x1063eb9f7e399a72c51a14c8774493cfd6b71251d4d13448d8ad87df513int, 0xa93f25bba885b9252329b137dc883cf54091cd537fef79da6849f6d345bint);
    let e = primes::lemma_chain_double(q236(), 2, e, 0xa93f25bba885b9252329b137dc883cf54091cd537fef79da6849f6d345bint, 0x3ce1360fd46fc4a88a6439bea6de5cd95a62bef6548f0278783955a2876int);
    let e = primes::lemma_chain_square(q236(), 2, e, 0x3ce1360fd46fc4a88a6439bea6de5cd95a62bef6548f0278783955a2876int, 0x89283d0d222956de5001ac765776b44cad63015b2232b0bda5fcd71230fint);
    let e = primes::lemma_chain_double(q236(), 2, e, 0x89283d0d222956de5001ac765776b44cad63015b2232b0bda5fcd71230fint, 0xbc3c3ed954169405598c5d0a8e9d96a8daddbbcc6376bebacb68e47120int);
    let e = primes::lemma_chain_square(q236(), 2, e, 0xbc3c3ed954169405598c5d0a8e9d96a8daddbbcc6376bebacb68e47120int, 0xa35d8d8f64b75f6c4a1be3f7bfeb14dec55fd2156f8b898db65dac5c275int);
    let e = primes::lemma_chain_square(q236(), 2, e, 0xa35d8d8f64b75f6c4a1be3f7bfeb14dec55fd2156f8b898db65dac5c275int, 0x80067ce1dc095d93cc102cf2a38d4e1a11b4217630d63182d30ef54641dint);
    let e = primes::lemma_chain_square(q236(), 2, e, 0x80067ce1dc095d93cc102cf2a38d4e1a11b4217630d63182d30ef54641dint, 0x1c53d340376af8cfca4f67d25d18d47b236324e1a764da948477e92628bint);
    let e = primes::lemma_chain_double(q236(), 2, e, 0x1c53d340376af8cfca4f67d25d18d47b236324e1a764da948477e92628bint, 0x6499eb5c7d237676f292ad621c97fd91e6774f7f140b6044588dc6c0b1dint);
    let e = primes::lemma_chain_double(q236(), 2, e, 0x6499eb5c7d237676f292ad621c97fd91e6774f7f140b6044588dc6c0b1dint, 0x8020869b0a913f93aec77582682727fd398026d582cdb54e68fa8cfc38cint);
    let e = primes::lemma_chain_square(q236(), 2, e, 0x8020869b0a913f93aec77582682727fd398026d582cdb54e68fa8cfc38cint, 0x48e88c4980b9201f5cfbef781abf1d4f828e86fb9659adff4b1310b0a79int);
    let e = primes::lemma_chain_square(q236(), 2, e, 0x48e88c4980b9201f5cfbef781abf1d4f828e86fb9659adff4b1310b0a79int, 0x9e649a67a4dc4fcc3907d0adafafe3aed2883cebd206262a3f7c68f33dint);
    let e = primes::lemma_chain_double(q236(), 2, e, 0x9e649a67a4dc4fcc3907d0adafafe3aed2883cebd206262a3f7c68f33dint, 0x4b38fa2dbb1b7d5bf6b0705495f8749e3a48abb87dac0363caf7153f255int);
    let e = primes::lemma_chain_square(q236(), 2, e, 0x4b38fa2dbb1b7d5bf6b0705495f8749e3a48abb87dac0363caf7153f255int, 0x7f7597cdd3c877340a980a10f28f7bd44170bf96fb6e9d8a7500735f18bint);
    let e = primes::lemma_chain_double(q236(), 2, e, 0x7f7597cdd3c877340a980a10f28f7bd44170bf96fb6e9d8a7500735f18bint, 0x9d8a7de9b52217aa780f6b630473a357fba89e98dcd89278b5a0b108673int);
}

proof fn lemma_q236_base_3()
    requires
        pow(2, 0x17a1a299ef1cea43465nat) % q236() == 0x9d8a7de9b52217aa780f6b630473a357fba89e98dcd89278b5a0b108673int,
    ensures
        pow(2, 0x17a1a299ef1cea434652311d3nat) % q236() == 0x19745ef76d601f918e154de96683253c37ed80fbf01ef81644d10462bd7int,
{
    let e: nat = 0x17a1a299ef1cea43465nat;
    let e = primes::lemma_chain_square(q236(), 2, e, 0x9d8a7de9b52217aa780f6b630473a357fba89e98dcd89278b5a0b108673int, 0x96d2c969627da713cad78c935f91c840b1e6a93152df5ef406bf417b7c4int);
    let e = primes::lemma_chain_square(q236(), 2, e, 0x96d2c969627da713cad78c935f91c840b1e6a93152df5ef406bf417b7c4int, 0x3854f63724c53aa594b9c9922f46592727c1bd3b106b9e50dd7e3a28215int);
    let e = primes::lemma_chain_double(q236(), 2, e, 0x3854f63724c53aa594b9c9922f46592727c1bd3b106b9e50dd7e3a28215int, 0x9318ee288e9756eff6e670b0ecca0cf5106fa7c006befaf94804342cf7eint);
    let e = primes::lemma_chain_square(q236(), 2, e, 0x9318ee288e9756eff6e670b0ecca0cf5106fa7c006befaf94804342cf7eint, 0x3463313141c76af212b3b22f8b613e2e28a9711187f217be91e300c269dint);
    let e = primes::lemma_chain_square(q236(), 2, e, 0x3463313141c76af212b3b22f8b613e2e28a9711187f217be91e300c269dint, 0x5f232d211cad15e53e3a956ec029ae0c7d4a363f98c30c4217155b03e32int);
    let e = primes::lemma_chain_square(q236(), 2, e, 0x5f232d211cad15e53e3a956ec029ae0c7d4a363f98c30c4217155b03e32int, 0xfe964007ae604fff314f7b793d2966f50b5bc5568982c129202f37990aint);
    let e = primes::lemma_chain_double(q236(), 2, e, 0xfe964007ae604fff314f7b793d2966f50b5bc5568982c129202f37990aint, 0x28db7db68c1382ebca9d97999fc91f2e7ec2f4dae1b50a890d0c98ceb3bint);
    let e = primes::lemma_chain_double(q236(), 2, e, 0x28db7db68c1382ebca9d97999fc91f2e7ec2f4dae1b50a890d0c98ceb3bint, 0x720ad70938bd175b53e26efd80636e95cf3443d8a5836339203cd8ad881int);
    let e = primes::lemma_chain_square(q236(), 2, e, 0x720ad70938bd175b53e26efd80636e95cf3443d8a5836339203cd8ad881int, 0x8ec0ece8d1c70fa46ce9a84130fc7862194ca52ee39dbc9bccd849f1134int);
    let e = primes::lemma_chain_square(q236(), 2, e, 0x8ec0ece8d1c70fa46ce9a84130fc7862194ca52ee39dbc9bccd849f1134int, 0x984b9e157c3a6b1f500e1f6db2ff31a9fc102ddea06b1460a7c4c162fcint);
    let e = primes::lemma_chain_square(q236(), 2, e, 0x984b9e157c3a6b1f500e1f6db2ff31a9fc102ddea06b1460a7c4c162fcint, 0x191ab7bc343c628269193e1f3b3661f2fc43d86e3a3945eaa4ce0581c49int);
    let e = primes::lemma_chain_double(q236(), 2, e, 0x191ab7bc343c628269193e1f3b3661f2fc43d86e3a3945eaa4ce0581c49int, 0x70148c8c8fab25c89283af99e2d42bb5d598a2b3b545c1767544cd399aaint);
    let e = primes::lemma_chain_square(q236(), 2, e, 0x70148c8c8fab25c89283af99e2d42bb5d598a2b3b545c1767544cd399aaint, 0x6d18b4092d072cfb745aa6e3b53fcd7b510266a4fd1b331deac0331d450int);
    let e = primes::lemma_chain_square(q236(), 2, e, 0x6d18b4092d072cfb745aa6e3b53fcd7b510266a4fd1b331deac0331d450int, 0x5e53a20049dc2fd1357d92bfa28d053694fa00741bc1e52de5063d93581int);
    let e = primes::lemma_chain_square(q236(), 2, e, 0x5e53a20049dc2fd1357d92bfa28d053694fa00741bc1e52de5063d93581int, 0x9f254955df08c93c067baa8495de768e15726947b90bdcd4eacc89b7546int);
    let e = primes::lemma_chain_double(q236(), 2, e, 0x9f254955df08c93c067baa8495de768e15726947b90bdcd4eacc89b7546int, 0x294e98f067f27df25c8f920e20c4ea5ebdfb5516bf8e775c4e033f0503eint);
    let e = primes::lemma_chain_double(q236(), 2, e, 0x294e98f067f27df25c8f920e20c4ea5ebdfb5516bf8e775c4e033f0503eint, 0x67ce1d1c80fe37780fd186479d9fbc96c40ea65e8fa7cb70d1bc6eb2fa8int);
    let e = primes::lemma_chain_double(q236(), 2, e, 0x67ce1d1c80fe37780fd186479d9fbc96c40ea65e8fa7cb70d1bc6eb2fa8int, 0x5c1ad4f216d7c72355fd281b05b7c920f88c6aa03cb83455ca5cd2d44cfint);
    let e = primes::lemma_chain_square(q236(), 2, e, 0x5c1ad4f216d7c72355fd281b05b7c920f88c6aa03cb83455ca5cd2d44cfint, 0xa1ac6b40e5cae5858f15b1990489ac87ae8963971fa5721264f97f12c02int);
    let e = primes::lemma_chain_double(q236(), 2, e, 0xa1ac6b40e5cae5858f15b1990489ac87ae8963971fa5721264f97f12c02int, 0xd3f3fcd02e66cee9457b1ebbe0134abf79ac175d02139487f0e630ea21int);
    let e = primes::lemma_chain_square(q236(), 2, e, 0xd3f3fcd02e66cee9457b1ebbe0134abf79ac175d02139487f0e630ea21int, 0x14c97ecab69056698bf65a377fb2393a67dd9816da34dbe0179dcefa47bint);
    let e = primes::lemma_chain_square(q236(), 2, e, 0x14c97ecab69056698bf65a377fb2393a67dd9816da34dbe0179dcefa47bint, 0x58495c6cbe1f4542979c800a596b7e3cad9056e18cefdd81b7269f013beint);
    let e = primes::lemma_chain_double(q236(), 2, e, 0x58495c6cbe1f4542979c800a596b7e3cad9056e18cefdd81b7269f013beint, 0x3acf2096c14e1b7fca61f3eee671d3421087e6919bfb43a8ac6ca187d41int);
    let e = primes::lemma_chain_double(q236(), 2, e, 0x3acf2096c14e1b7fca61f3eee671d3421087e6919bfb43a8ac6ca187d41int, 0x19745ef76d601f918e154de96683253c37ed80fbf01ef81644d10462bd7int);
}

proof fn lemma_q236_base_4()
    requires
        pow(2, 0x17a1a299ef1cea434652311d3nat) % q236() == 0x19745ef76d601f918e154de96683253c37ed80fbf01ef81644d10462bd7int,
    ensures
        pow(2, 0xbd0d14cf78e7521a329188e9fa496anat) % q236() == 0xa118eb0f9d8184bab59e8e45df736d65fba3c64f4aa855bc8921ac18308int,
{
    let e: nat = 0x17a1a299ef1cea434652311d3nat;
    let e = primes::lemma_chain_double(q236(), 2, e, 0x19745ef76d601f918e154de96683253c37ed80fbf01ef81644d10462bd7int, 0x18a032b6dbdd0ffa50f8321ad648db97637a5b429266fc8dc93238518c3int);
    let e = primes::lemma_chain_double(q236(), 2, e, 0x18a032b6dbdd0ffa50f8321ad648db97637a5b429266fc8dc93238518c3int, 0x58168a9cc810950795f992994ff8ecceab43b9ae9c616d7df3da615edc5int);
    let e = primes::lemma_chain_double(q236(), 2, e, 0x58168a9cc810950795f992994ff8ecceab43b9ae9c616d7df3da615edc5int, 0x32ab2873918a7aecbfb6d6af28c203c819c0c0017539810a225c1ebc092int);
    let e = primes::lemma_chain_double(q236(), 2, e, 0x32ab2873918a7aecbfb6d6af28c203c819c0c0017539810a225c1ebc092int, 0x327b0dfc6db9e6a5625a8cf945eba5c566a6c267735a886152c835a29c3int);
    let e = primes::lemma_chain_square(q236(), 2, e, 0x327b0dfc6db9e6a5625a8cf945eba5c566a6c267735a886152c835a29c3int, 0x5641d4e5de2cc434d8ff2a159299498cca60897ed388a0aef15ff0da0ceint);
    let e = primes::lemma_chain_double(q236(), 2, e, 0x5641d4e5de2cc434d8ff2a159299498cca60897ed388a0aef15ff0da0ceint, 0x55ee202d2b055d37b42d41d71c452087956e4aed2b02bb73b7d4052f56fint);
    let e = primes::lemma_chain_square(q236(), 2, e, 0x55ee202d2b055d37b42d41d71c452087956e4aed2b02bb73b7d4052f56fint, 0x9823bc824ddf4238bf45872426c1302f752184c5056f87a8f42c1600555int);
    let e = primes::lemma_chain_square(q236(), 2, e, 0x9823bc824ddf4238bf45872426c1302f752184c5056f87a8f42c1600555int, 0x3b697d501b0714f8d317f10949e2b67188f4cafb4cccc75d9b98460108fint);
    let e = primes::lemma_chain_double(q236(), 2, e, 0x3b697d501b0714f8d317f10949e2b67188f4cafb4cccc75d9b98460108fint, 0x3380985bbb3964a6cc6fbfc5444ec2fb50c1af4cd9673da926edf837d0dint);
    let e = primes::lemma_chain_square(q236(), 2, e, 0x3380985bbb3964a6cc6fbfc5444ec2fb50c1af4cd9673da926edf837d0dint, 0x52b2f1167be7a4b9fc1a2da3db30dd39977591d38cde11632591e04a443int);
    let e = primes::lemma_chain_square(q236(), 2, e, 0x52b2f1167be7a4b9fc1a2da3db30dd39977591d38cde11632591e04a443int, 0x15ffe601f5b00c84e6b79ed19993fac9d4e536125b1eb5a8d2a9339d2bint);
    let e = primes::lemma_chain_double(q236(), 2, e, 0x15ffe601f5b00c84e6b79ed19993fac9d4e536125b1eb5a8d2a9339d2bint, 0x99016ae6d7a7f95a1e2c2c8154174bb97e560efde2921b4b187b3a2976eint);
    let e = primes::lemma_chain_square(q236(), 2, e, 0x99016ae6d7a7f95a1e2c2c8154174bb97e560efde2921b4b187b3a2976eint, 0x3a40cd496b38c85262acc65b5751cf807ec56bf6ee4146d56ab4a25e977int);
    let e = primes::lemma_chain_square(q236(), 2, e, 0x3a40cd496b38c85262acc65b5751cf807ec56bf6ee4146d56ab4a25e977int, 0x650348bc16e94643c3355253b78e6752af906a3eb5bc54cf2993163f998int);
    let e = primes::lemma_chain_double(q236(), 2, e, 0x650348bc16e94643c3355253b78e6752af906a3eb5bc54cf2993163f998int, 0x955deee08c97abfb04f70d7ac170d444f78674df8f534264a84f7ac6bc5int);
    let e = primes::lemma_chain_square(q236(), 2, e, 0x955deee08c97abfb04f70d7ac170d444f78674df8f534264a84f7ac6bc5int, 0x377735aedb37e55d19ff1c50169c5922f560053366812d8f0df5f653597int);
    let e = primes::lemma_chain_double(q236(), 2, e, 0x377735aedb37e55d19ff1c50169c5922f560053366812d8f0df5f653597int, 0x8acc4a87344f44985b9ab5599431a6b28010d329ab6b431cc39822a21b5int);
    let e = primes::lemma_chain_double(q236(), 2, e, 0x8acc4a87344f44985b9ab5599431a6b28010d329ab6b431cc39822a21b5int, 0x5c23c73e3442a30395230ce026bfb02114263a1ee539024c0bb8ec877cfint);
    let e = primes::lemma_chain_square(q236(), 2, e, 0x5c23c73e3442a30395230ce026bfb02114263a1ee539024c0bb8ec877cfint, 0x497b1976e2c5196437c64570ab1267dc3ee2476cb1f39398a436a2a1147int);
    let e = primes::lemma_chain_double(q236(), 2, e, 0x497b1976e2c5196437c64570ab1267dc3ee2476cb1f39398a436a2a1147int, 0x67c3655c3d4c03a9e39cad8d9e6fc7d03deac383138d118a925cfcc81a0int);
    let e = primes::lemma_chain_square(q236(), 2, e, 0x67c3655c3d4c03a9e39cad8d9e6fc7d03deac383138d118a925cfcc81a0int, 0x645b08dfbcd1d8f70ba37aa8fe62a64990262ab94952a38617885b46dc7int);
    let e = primes::lemma_chain_double(q236(), 2, e, 0x645b08dfbcd1d8f70ba37aa8fe62a64990262ab94952a38617885b46dc7int, 0x3b4de569432f428a4d9321e098af4893fe8cf220fcc35aea5991e93fac5int);
    let e = primes::lemma_chain_square(q236(), 2, e, 0x3b4de569432f428a4d9321e098af4893fe8cf220fcc35aea5991e93fac5int, 0xa118eb0f9d8184bab59e8e45df736d65fba3c64f4aa855bc8921ac18308int);
}

spec fn q236_root() -> int {
    0xa118eb0f9d8184bab59e8e45df736d65fba3c64f4aa855bc8921ac18308int
}

proof fn lemma_q236_power_0()
    ensures
        pow(q236_root(), 0x1d0f854) % q236() == 0x74c104ec735378a8d431c6416d23a65b4d32ba1fe7a5b66b328f7e86abbint,
{
    lemma_pow1(q236_root());
    let e: nat = 0x1;
    let e = primes::lemma_chain_double(q236(), q236_root(), e, 0xa118eb0f9d8184bab59e8e45df736d65fba3c64f4aa855bc8921ac18308int, 0x8b4cf1d206f83670a1bd65b3b5531c0696ae852450b960b7180d25e9d0eint);
    let e = primes::lemma_chain_double(q236(), q236_root(), e, 0x8b4cf1d206f83670a1bd65b3b5531c0696ae852450b960b7180d25e9d0eint, 0x1c285ecdff9df456e8a2d1eda35f795e719047659a5285709f272407023int);
    let e = primes::lemma_chain_square(q236(), q236_root(), e, 0x1c285ecdff9df456e8a2d1eda35f795e719047659a5285709f272407023int, 0x58dc130308dd4efe1f821ac60fa137b9ef44bdb398e9534e07e281a56eint);
    let e = primes::lemma_chain_double(q236(), q236_root(), e, 0x58dc130308dd4efe1f821ac60fa137b9ef44bdb398e9534e07e281a56eint, 0x655b44735bea9793d26cfbf9ca08b390404b9898b7cf1e07232912a8115int);
    let e = primes::lemma_chain_square(q236(), q236_root(), e, 0x655b44735bea9793d26cfbf9ca08b390404b9898b7cf1e07232912a8115int, 0x7d85cfde4f00836c342a258930be7dfa0b10a763f916e2724f0cfaab568int);
    let e = primes::lemma_chain_square(q236(), q236_root(), e, 0x7d85cfde4f00836c342a258930be7dfa0b10a763f916e2724f0cfaab568int, 0x1a28daf693cccc624e0bed7ddb8357c1a09d9fbb2c782a4021cd0ebd287int);
    let e = primes::lemma_chain_square(q236(), q236_root(), e, 0x1a28daf693cccc624e0bed7ddb8357c1a09d9fbb2c782a4021cd0ebd287int, 0x96b3210909a8c8117c615e847ef91d9bb7579d4c7da760f5028d0d749eeint);
    let e = primes::lemma_chain_square(q236(), q236_root(), e, 0x96b3210909a8c8117c615e847ef91d9bb7579d4c7da760f5028d0d749eeint, 0x2dbabdb7fd3ab0e5cff3421d4262010e8b6108db546c1226ba5df25b038int);
    let e = primes::lemma_chain_double(q236(), q236_root(), e, 0x2dbabdb7fd3ab0e5cff3421d4262010e8b6108db546c1226ba5df25b038int, 0x2639a6ecb2839b20f25da83ede3c574b0807b352e7cdd33d4a86415a61dint);
    let e = primes::lemma_chain_double(q236(), q236_root(), e, 0x2639a6ecb2839b20f25da83ede3c574b0807b352e7cdd33d4a86415a61dint, 0x8c4d6986c02ced31ce7b901472c22d56dc72f9e4e6b86b514b041922c02int);
    let e = primes::lemma_chain_double(q236(), q236_root(), e, 0x8c4d6986c02ced31ce7b901472c22d56dc72f9e4e6b86b514b041922c02int, 0x23d6a1da936a6f2e2c3d154bbd725a5227612211b8fad6a6ae7b8c04b12int);
    let e = primes::lemma_chain_double(q236(), q236_root(), e, 0x23d6a1da936a6f2e2c3d154bbd725a5227612211b8fad6a6ae7b8c04b12int, 0x42febfad9ff7e99106a420f115b3593a12dd9d56589eb9a41d337a7d765int);
    let e = primes::lemma_chain_double(q236(), q236_root(), e, 0x42febfad9ff7e99106a420f115b3593a12dd9d56589eb9a41d337a7d765int, 0x66e62422dac05613028954ef8af6a89794fe4cb8fc39a01a67918ac4463int);
    let e = primes::lemma_chain_square(q236(), q236_root(), e, 0x66e62422dac05613028954ef8af6a89794fe4cb8fc39a01a67918ac4463int, 0x894eb11f6f65cb412df97787a79fdecac2b4d5cdb7c3af60da3a9e4ec3aint);
    let e = primes::lemma_chain_square(q236(), q236_root(), e, 0x894eb11f6f65cb412df97787a79fdecac2b4d5cdb7c3af60da3a9e4ec3aint, 0x73e2b308c4d77136eb35c70ef4781525bbb4035cd27c88fb02700bbe077int);
    let e = primes::lemma_chain_square(q236(), q236_root(), e, 0x73e2b308c4d77136eb35c70ef4781525bbb4035cd27c88fb02700bbe077int, 0x574efbe0432d1bc1463bd79851e1159e6493f1f88ab6e3f87cc00b870f2int);
    let e = primes::lemma_chain_square(q236(), q236_root(), e, 0x574efbe0432d1bc1463bd79851e1159e6493f1f88ab6e3f87cc00b870f2int, 0xa48ce48fa3f1e6756db9b4c730858ecadac6628919b4ae5b86a2d798ccbint);
    let e = primes::lemma_chain_double(q236(), q236_root(), e, 0xa48ce48fa3f1e6756db9b4c730858ecadac6628919b4ae5b86a2d798ccbint, 0x23f1ac0147de32b6d27b265ee0c64efc7feafb559ea73d02b864e47663dint);
    let e = primes::lemma_chain_square(q236(), q236_root(), e, 0x23f1ac0147de32b6d27b265ee0c64efc7feafb559ea73d02b864e47663dint, 0xa4221117ec614844a3207f77b9b3be05f68d922de37afd7a54e101a8de5int);
    let e = primes::lemma_chain_double(q236(), q236_root(), e, 0xa4221117ec614844a3207f77b9b3be05f68d922de37afd7a54e101a8de5int, 0x8d71be0bb741e4d19d20f2a0efcabd38cb0e8c70cb88838738e8b98e6dint);
    let e = primes::lemma_chain_square(q236(), q236_root(), e, 0x8d71be0bb741e4d19d20f2a0efcabd38cb0e8c70cb88838738e8b98e6dint, 0x7e3eca5495a5e3c2212eb8688487e79bc6c042389f01a1b706748ef3332int);
    let e = primes::lemma_chain_double(q236(), q236_root(), e, 0x7e3eca5495a5e3c2212eb8688487e79bc6c042389f01a1b706748ef3332int, 0x63b8ebd93c11954871c32fc2e372d743a77edaff8020cfdc80700af7c9bint);
    let e = primes::lemma_chain_square(q236(), q236_root(), e, 0x63b8ebd93c11954871c32fc2e372d743a77edaff8020cfdc80700af7c9bint, 0x6997c13781fe17841280a22b659c00834a959d6138ec9d3f2821d9d2c64int);
    let e = primes::lemma_chain_square(q236(), q236_root(), e, 0x6997c13781fe17841280a22b659c00834a959d6138ec9d3f2821d9d2c64int, 0x74c104ec735378a8d431c6416d23a65b4d32ba1fe7a5b66b328f7e86abbint);
}

proof fn lemma_q236_power_1()
    requires
        pow(q236_root(), 0x1d0f854) % q236() == 0x74c104ec735378a8d431c6416d23a65b4d32ba1fe7a5b66b328f7e86abbint,
    ensures
        pow(q236_root(), 0x1d0f8548ef702) % q236() == 0x2c1ad7e1850542ce850cfef0c518fc6cf35c902715ad4cd1bff9d07c107int,
{
    let e: nat = 0x1d0f854;
    let e = primes::lemma_chain_double(q236(), q236_root(), e, 0x74c104ec735378a8d431c6416d23a65b4d32ba1fe7a5b66b328f7e86abbint, 0x45deae5d1733e9e844d8f1737a466b03c3269c73dc12c13607bd020f10cint);
    let e = primes::lemma_chain_square(q236(), q236_root(), e, 0x45deae5d1733e9e844d8f1737a466b03c3269c73dc12c13607bd020f10cint, 0x6710d0b65bc78428d08d3841ce3ace388c1477d55df1ee64b52783b69feint);
    let e = primes::lemma_chain_square(q236(), q236_root(), e, 0x6710d0b65bc78428d08d3841ce3ace388c1477d55df1ee64b52783b69feint, 0x5109b0515e8fba2c205ecedd1416f736fecc816926b9a887bbbc62ff635int);
    let e = primes::lemma_chain_square(q236(), q236_root(), e, 0x5109b0515e8fba2c205ecedd1416f736fecc816926b9a887bbbc62ff635int, 0x3ebd9d5d55ca7513761120e402f7b2b4d5939bad7c4b6e0a39953e4a3e9int);
    let e = primes::lemma_chain_double(q236(), q236_root(), e, 0x3ebd9d5d55ca7513761120e402f7b2b4d5939bad7c4b6e0a39953e4a3e9int, 0x3917f5d4e24b10f3b58aaacad3399baa5982d0d3819b4be1d9ed76dff91int);
    let e = primes::lemma_chain_double(q236(), q236_root(), e, 0x3917f5d4e24b10f3b58aaacad3399baa5982d0d3819b4be1d9ed76dff91int, 0x4d92e60734b92151fa93fb30fcc01c2ec6c0908308f274a4f83c793714dint);
    let e = primes::lemma_chain_double(q236(), q236_root(), e, 0x4d92e60734b92151fa93fb30fcc01c2ec6c0908308f274a4f83c793714dint, 0x8c4e4b1bd51e029a05cebe12fcd639608ca9d69136c13fec807f0df59f1int);
    let e = primes::lemma_chain_square(q236(), q236_root(), e, 0x8c4e4b1bd51e029a05cebe12fcd639608ca9d69136c13fec807f0df59f1int, 0x9a26dab0ae6058921ce8ffa267c0979fa078023d696f6e94053fe1c9183int);
    let e = primes::lemma_chain_double(q236(), q236_root(), e, 0x9a26dab0ae6058921ce8ffa267c0979fa078023d696f6e94053fe1c9183int, 0xa3dfd549c46392b28ec4e53be7d094e059fa1b1a6e42df45b515096160int);
    let e = primes::lemma_chain_double(q236(), q236_root(), e, 0xa3dfd549c46392b28ec4e53be7d094e059fa1b1a6e42df45b515096160int, 0xa256c07ca7201adeaa71af560709965872f70b47bb573b9afc65c68e8f1int);
    let e = primes::lemma_chain_double(q236(), q236_root(), e, 0xa256c07ca7201adeaa71af560709965872f70b47bb573b9afc65c68e8f1int, 0xc21b19452b898884e91a01ccf71d26c0c00f96f6de89e8a751442eee1bint);
    let e = primes::lemma_chain_double(q236(), q236_root(), e, 0xc21b19452b898884e91a01ccf71d26c0c00f96f6de89e8a751442eee1bint, 0x88399345eba7ddb31ce1dbc66032b1c2f14a87c26500aca741141a040baint);
    let e = primes::lemma_chain_square(q236(), q236_root(), e, 0x88399345eba7ddb31ce1dbc66032b1c2f14a87c26500aca741141a040baint, 0x1521b4139d59dd46e5565b9db568908af5f45f9eaeef2ebe1a7d5d9f911int);
    let e = primes::lemma_chain_double(q236(), q236_root(), e, 0x1521b4139d59dd46e5565b9db568908af5f45f9eaeef2ebe1a7d5d9f911int, 0x814b321561d7d0ed77172c7837bf54c460708ffbd230922f89ae1fba2a2int);
    let e = primes::lemma_chain_double(q236(), q236_root(), e, 0x814b321561d7d0ed77172c7837bf54c460708ffbd230922f89ae1fba2a2int, 0x4145cdc672cce1babe03b600ef34e5cc90c4a8f76dafbaa7e74f4d58d14int);
    let e = primes::lemma_chain_double(q236(), q236_root(), e, 0x4145cdc672cce1babe03b600ef34e5cc90c4a8f76dafbaa7e74f4d58d14int, 0x5a7ae6b65105339b61c12d319c3c1057b4b930f763c5b98b7d5373db59cint);
    let e = primes::lemma_chain_square(q236(), q236_root(), e, 0x5a7ae6b65105339b61c12d319c3c1057b4b930f763c5b98b7d5373db59cint, 0x4c37276d9691be7c056b2f28a7d7fc2d5573e792c34a16d50a712730344int);
    let e = primes::lemma_chain_square(q236(), q236_root(), e, 0x4c37276d9691be7c056b2f28a7d7fc2d5573e792c34a16d50a712730344int, 0x1275dddf30f6f5b353ed555df41b1d14ab2c410f2cf2d59ff3b3f828283int);
    let e = primes::lemma_chain_square(q236(), q236_root(), e, 0x1275dddf30f6f5b353ed555df41b1d14ab2c410f2cf2d59ff3b3f828283int, 0x4909b9ea2ec9a7b910cf3eb8bafb40f4867d33792b4378132e9998d4c8aint);
    let e = primes::lemma_chain_square(q236(), q236_root(), e, 0x4909b9ea2ec9a7b910cf3eb8bafb40f4867d33792b4378132e9998d4c8aint, 0x135ca7a6083f56b92b0f3166b6afb9183c66bd7e221f4124a64ffc7b79int);
    let e = primes::lemma_chain_square(q236(), q236_root(), e, 0x135ca7a6083f56b92b0f3166b6afb9183c66bd7e221f4124a64ffc7b79int, 0x937e3ad229d4b3d482feb386306ef59a45880b0eb66769396237b6737eaint);
    let e = primes::lemma_chain_square(q236(), q236_root(), e, 0x937e3ad229d4b3d482feb386306ef59a45880b0eb66769396237b6737eaint, 0x826cb454bce2819745430223de1b84d36322a6db64e1542fc42e29adac0int);
    let e = primes::lemma_chain_double(q236(), q236_root(), e, 0x826cb454bce2819745430223de1b84d36322a6db64e1542fc42e29adac0int, 0x5bc94b0f9f61f6290a8e318de8176e243bf0ac26d0870c5dc8fc7072899int);
    let e = primes::lemma_chain_square(q236(), q236_root(), e, 0x5bc94b0f9f61f6290a8e318de8176e243bf0ac26d0870c5dc8fc7072899int, 0x2c1ad7e1850542ce850cfef0c518fc6cf35c902715ad4cd1bff9d07c107int);
}

proof fn lemma_q236_power_2()
    requires
        pow(q236_root(), 0x1d0f8548ef702) % q236() == 0x2c1ad7e1850542ce850cfef0c518fc6cf35c902715ad4cd1bff9d07c107int,
    ensures
        pow(q236_root(), 0x1d0f8548ef702b42f26nat) % q236() == 0x93f5ebfe0513c5946b27e33a8f8f0c1bb4b0b37aa8d2963757fc6e501b8int,
{
    let e: nat = 0x1d0f8548ef702;
    let e = primes::lemma_chain_double(q236(), q236_root(), e, 0x2c1ad7e1850542ce850cfef0c518fc6cf35c902715ad4cd1bff9d07c107int, 0xdb193a211c8411a640a2dc782009608f9d15f6db4a3705061675dcae21int);
    let e = primes::lemma_chain_square(q236(), q236_root(), e, 0xdb193a211c8411a640a2dc782009608f9d15f6db4a3705061675dcae21int, 0x8cb0df9f9bd995ebdbd0b2f81b2b02679640fc30253f82212897489dfa2int);
    let e = primes::lemma_chain_double(q236(), q236_root(), e, 0x8cb0df9f9bd995ebdbd0b2f81b2b02679640fc30253f82212897489dfa2int, 0x41a0bd2693151d443b62e7c331b15e77c8072326dd16e247efb7bfbbe39int);
    let e = primes::lemma_chain_double(q236(), q236_root(), e, 0x41a0bd2693151d443b62e7c331b15e77c8072326dd16e247efb7bfbbe39int, 0x8c5a87bb28f66d2845b1dbad230965d7c341f1338e57e9e0e55bdae2de3int);
    let e = primes::lemma_chain_square(q236(), q236_root(), e, 0x8c5a87bb28f66d2845b1dbad230965d7c341f1338e57e9e0e55bdae2de3int, 0x3c9ba986d51528485eba12677a53fb2e15dbf3be3898cd080468f3081ceint);
    let e = primes::lemma_chain_double(q236(), q236_root(), e, 0x3c9ba986d51528485eba12677a53fb2e15dbf3be3898cd080468f3081ceint, 0x22fb53421c84439ebc0659b177cb219085ba041bffb4b250c37468e8cdbint);
    let e = primes::lemma_chain_square(q236(), q236_root(), e, 0x22fb53421c84439ebc0659b177cb219085ba041bffb4b250c37468e8cdbint, 0x3adf545ec73b51fedeb89bde091359c2417c7ff0a2a6cf0a26dc49f2e97int);
    let e = primes::lemma_chain_square(q236(), q236_root(), e, 0x3adf545ec73b51fedeb89bde091359c2417c7ff0a2a6cf0a26dc49f2e97int, 0x1d5ea61f2cbe225b538f19004456a066c711d2b2922dc61a9db9402d113int);
    let e = primes::lemma_chain_square(q236(), q236_root(), e, 0x1d5ea61f2cbe225b538f19004456a066c711d2b2922dc61a9db9402d113int, 0x8085b9363e04ff6f91ca4f7359073735fc00b5b247abd03f5e7c6be0adaint);
    let e = primes::lemma_chain_square(q236(), q236_root(), e, 0x8085b9363e04ff6f91ca4f7359073735fc00b5b247abd03f5e7c6be0adaint, 0x6fa4d8eabfdcf11a306015cf431ce0f5ca2d1d066e00531ca107ef9c104int);
    let e = primes::lemma_chain_double(q236(), q236_root(), e, 0x6fa4d8eabfdcf11a306015cf431ce0f5ca2d1d066e00531ca107ef9c104int, 0xc333e695c557dea1833a6d4c2ebd8e9becd7e01880c70229f73ef0ee6fint);
    let e = primes::lemma_chain_square(q236(), q236_root(), e, 0xc333e695c557dea1833a6d4c2ebd8e9becd7e01880c70229f73ef0ee6fint, 0x7c1736c3918a05259e02cfdbc326c5aee5ae2ad0dcca4f58ae46f24fb3cint);
    let e = primes::lemma_chain_double(q236(), q236_root(), e, 0x7c1736c3918a05259e02cfdbc326c5aee5ae2ad0dcca4f58ae46f24fb3cint, 0x42a137b599d4ccaff49da9f7f91a3595e00e3c24721375b63d046801884int);
    let e = primes::lemma_chain_double(q236(), q236_root(), e, 0x42a137b599d4ccaff49da9f7f91a3595e00e3c24721375b63d046801884int, 0xa2fd1fa64ee822268ee8214a7640ee860028ccf5af3de686026eb2aec62int);
    let e = primes::lemma_chain_double(q236(), q236_root(), e, 0xa2fd1fa64ee822268ee8214a7640ee860028ccf5af3de686026eb2aec62int, 0xe0b5ae692be86abe4f0763d240a8c16e14af973a0442bf342a9877f25fint);
    let e = primes::lemma_chain_double(q236(), q236_root(), e, 0xe0b5ae692be86abe4f0763d240a8c16e14af973a0442bf342a9877f25fint, 0x13d8e5901f6c8ba1bab7a879e53b73cdeefe2764865bd0c251e5ea3c736int);
    let e = primes::lemma_chain_square(q236(), q236_root(), e, 0x13d8e5901f6c8ba1bab7a879e53b73cdeefe2764865bd0c251e5ea3c736int, 0x5544d14241e0efc6ed836c880257df8dbd63fd0ba6502c7b66617d9db60int);
    let e = primes::lemma_chain_square(q236(), q236_root(), e, 0x5544d14241e0efc6ed836c880257df8dbd63fd0ba6502c7b66617d9db60int, 0x2d276a198937bd057addbbc7a952e6195bdd1515b34a80a614de2f38034int);
    let e = primes::lemma_chain_double(q236(), q236_root(), e, 0x2d276a198937bd057addbbc7a952e6195bdd1515b34a80a614de2f38034int, 0x4dbda4b7be7c597933d2c2e02ed65b14f8b8beb749fb71e27a01b85eac5int);
    let e = primes::lemma_chain_square(q236(), q236_root(), e, 0x4dbda4b7be7c597933d2c2e02ed65b14f8b8beb749fb71e27a01b85eac5int, 0x77a9083eb4f4dc2edd89f62f8727a4dae6f8febd5f7fb1b4f019b79ab95int);
    let e = primes::lemma_chain_square(q236(), q236_root(), e, 0x77a9083eb4f4dc2edd89f62f8727a4dae6f8febd5f7fb1b4f019b79ab95int, 0x112745b5b0ac7355ea2834b6a1f04b75b62f6ce591b21e384cae733b0e9int);
    let e = primes::lemma_chain_double(q236(), q236_root(), e, 0x112745b5b0ac7355ea2834b6a1f04b75b62f6ce591b21e384cae733b0e9int, 0xdc15c24c992029e8c4e6786e220ee4015fd80b154bd30e5036f1c04e50int);
    let e = primes::lemma_chain_double(q236(), q236_root(), e, 0xdc15c24c992029e8c4e6786e220ee4015fd80b154bd30e5036f1c04e50int, 0x7879a5f59674f0f8baee443d58990af1d4b8284319cc263bb828de171d2int);
    let e = primes::lemma_chain_square(q236(), q236_root(), e, 0x7879a5f59674f0f8baee443d58990af1d4b8284319cc263bb828de171d2int, 0x93f5ebfe0513c5946b27e33a8f8f0c1bb4b0b37aa8d2963757fc6e501b8int);
}

proof fn lemma_q236_power_3()
    requires
        pow(q236_root(), 0x1d0f8548ef702b42f26nat) % q236() == 0x93f5ebfe0513c5946b27e33a8f8f0c1bb4b0b37aa8d2963757fc6e501b8int,
    ensures
        pow(q236_root(), 0x1d0f8548ef702b42f26f0e72bnat) % q236() == 0x807d90dbedcf9cbe1f6bbb8a98036e5a745f2dbbf2f461b0ac3cdae2a48int,
{
    let e: nat = 0x1d0f8548ef702b42f26nat;
    let e = primes::lemma_chain_double(q236(), q236_root(), e, 0x93f5ebfe0513c5946b27e33a8f8f0c1bb4b0b37aa8d2963757fc6e501b8int, 0x1b38053a9c01248edb08b3a320656956ef9d30e027ff2e771a3ad53c1a6int);
    let e = primes::lemma_chain_double(q236(), q236_root(), e, 0x1b38053a9c01248edb08b3a320656956ef9d30e027ff2e771a3ad53c1a6int, 0x894e47a3ad01834d18fe42e9715023a1e148048095ef7e52e8cdc825f73int);
    let e = primes::lemma_chain_double(q236(), q236_root(), e, 0x894e47a3ad01834d18fe42e9715023a1e148048095ef7e52e8cdc825f73int, 0x87eb4cb255a29a8e7c5a4e5083a911c9193628ec41e6c414f36ebcf160bint);
    let e = primes::lemma_chain_double(q236(), q236_root(), e, 0x87eb4cb255a29a8e7c5a4e5083a911c9193628ec41e6c414f36ebcf160bint, 0x1647086a7fed5d421930ecffc127b37ccc7e8dff61932f69b557cd2d278int);
    let e = primes::lemma_chain_square(q236(), q236_root(), e, 0x1647086a7fed5d421930ecffc127b37ccc7e8dff61932f69b557cd2d278int, 0xccae0b69a05f5ce20b55c81b50394bdfe023d0428cb66710b71d1c8354int);
    let e = primes::lemma_chain_square(q236(), q236_root(), e, 0xccae0b69a05f5ce20b55c81b50394bdfe023d0428cb66710b71d1c8354int, 0x5ab97eaa58158e091556f2ce0cf87d59cd724f6ba26f4922eb6d418ed55int);
    let e = primes::lemma_chain_square(q236(), q236_root(), e, 0x5ab97eaa58158e091556f2ce0cf87d59cd724f6ba26f4922eb6d418ed55int, 0x576f3c4c28aec4e2460338906ab9ac647159bbe6483e87e60682c6b6c3int);
    let e = primes::lemma_chain_square(q236(), q236_root(), e, 0x576f3c4c28aec4e2460338906ab9ac647159bbe6483e87e60682c6b6c3int, 0xa26416b484a38c5754ce27f60fb4cea2629e2d5714467911e7350832f6cint);
    let e = primes::lemma_chain_double(q236(), q236_root(), e, 0xa26416b484a38c5754ce27f60fb4cea2629e2d5714467911e7350832f6cint, 0x25f1bebb0dd9b80cc0aa701df7c2f76d1e3076919f7c7b0f234463399d8int);
    let e = primes::lemma_chain_double(q236(), q236_root(), e, 0x25f1bebb0dd9b80cc0aa701df7c2f76d1e3076919f7c7b0f234463399d8int, 0xa879d94320d3c13283e150de5974f6f506b02c944574488f3763b3a604bint);
    let e = primes::lemma_chain_double(q236(), q236_root(), e, 0xa879d94320d3c13283e150de5974f6f506b02c944574488f3763b3a604bint, 0x64cac31c919b935f1547c173a2ecab65db86cdc408a49da5b2070910130int);
    let e = primes::lemma_chain_square(q236(), q236_root(), e, 0x64cac31c919b935f1547c173a2ecab65db86cdc408a49da5b2070910130int, 0xa3f671f44ffffcca283fe63d27efa101bf0c5b32fc4037fad2dd847c3e5int);
    let e = primes::lemma_chain_square(q236(), q236_root(), e, 0xa3f671f44ffffcca283fe63d27efa101bf0c5b32fc4037fad2dd847c3e5int, 0x1f1faa2ad73d39374e4b9a14393289259e73ff1d149fd4c38a014fc8e2cint);
    let e = primes::lemma_chain_double(q236(), q236_root(), e, 0x1f1faa2ad73d39374e4b9a14393289259e73ff1d149fd4c38a014fc8e2cint, 0x98b79ecec4294ccd223ef062fb80e95a357d0c0ad2128f3807443f2945cint);
    let e = primes::lemma_chain_double(q236(), q236_root(), e, 0x98b79ecec4294ccd223ef062fb80e95a357d0c0ad2128f3807443f2945cint, 0x42a75d74dd5854e48c5bc6f3120861bfa26cdc4b107213726e674ef60d3int);
    let e = primes::lemma_chain_double(q236(), q236_root(), e, 0x42a75d74dd5854e48c5bc6f3120861bfa26cdc4b107213726e674ef60d3int, 0x71b521f7b180d00e938ba880945963d153c59e511ca39a951bbbe6e0b3aint);
    let e = primes::lemma_chain_square(q236(), q236_root(), e, 0x71b521f7b180d00e938ba880945963d153c59e511ca39a951bbbe6e0b3aint, 0x452787058f602bea144998ad11ac27816a18e6dbb18035d5a8e033003a6int);
    let e = primes::lemma_chain_square(q236(), q236_root(), e, 0x452787058f602bea144998ad11ac27816a18e6dbb18035d5a8e033003a6int, 0xa4158e4956f643d130fda6719c0cdddd354fcc534d071877fd1882a4b61int);
    let e = primes::lemma_chain_double(q236(), q236_root(), e, 0xa4158e4956f643d130fda6719c0cdddd354fcc534d071877fd1882a4b61int, 0x1eef041bbbe4684ed28066981df940860160a7f2a67079c025a8bcc97eeint);
    let e = primes::lemma_chain_square(q236(), q236_root(), e, 0x1eef041bbbe4684ed28066981df940860160a7f2a67079c025a8bcc97eeint, 0x47aff62216702f36f429db368b159192106d9e80a240d5a69216f1286ccint);
    let e = primes::lemma_chain_double(q236(), q236_root(), e, 0x47aff62216702f36f429db368b159192106d9e80a240d5a69216f1286ccint, 0x3640de1fdecfb7b133784f9091e75f84e8a6fe8cff6469f06a72a559eacint);
    let e = primes::lemma_chain_square(q236(), q236_root(), e, 0x3640de1fdecfb7b133784f9091e75f84e8a6fe8cff6469f06a72a559eacint, 0x2f1aad0673654ce104a16d68c2d269ca9db6af558e83ddb81b12f05e607int);
    let e = primes::lemma_chain_double(q236(), q236_root(), e, 0x2f1aad0673654ce104a16d68c2d269ca9db6af558e83ddb81b12f05e607int, 0xaa8753e2e48c553a6ee84837a7afaa12e90be701a6d6ebc59a010d5907cint);
    let e = primes::lemma_chain_double(q236(), q236_root(), e, 0xaa8753e2e48c553a6ee84837a7afaa12e90be701a6d6ebc59a010d5907cint, 0x807d90dbedcf9cbe1f6bbb8a98036e5a745f2dbbf2f461b0ac3cdae2a48int);
}

proof fn lemma_q236_power_4()
    requires
        pow(q236_root(), 0x1d0f8548ef702b42f26f0e72bnat) % q236() == 0x807d90dbedcf9cbe1f6bbb8a98036e5a745f2dbbf2f461b0ac3cdae2a48int,
    ensures
        pow(q236_root(), 0xe87c2a477b815a1793787395b23e1nat) % q236() == 0x1,
{
    let e: nat = 0x1d0f8548ef702b42f26f0e72bnat;
    let e = primes::lemma_chain_square(q236(), q236_root(), e, 0x807d90dbedcf9cbe1f6bbb8a98036e5a745f2dbbf2f461b0ac3cdae2a48int, 0x8c36d937b7fb8d95297ae3f389bd5be20a467de384373d8a4fdd91c9628int);
    let e = primes::lemma_chain_double(q236(), q236_root(), e, 0x8c36d937b7fb8d95297ae3f389bd5be20a467de384373d8a4fdd91c9628int, 0x5eb4cba33076bea583df5bfa75196061584655185920758313975605f60int);
    let e = primes::lemma_chain_double(q236(), q236_root(), e, 0x5eb4cba33076bea583df5bfa75196061584655185920758313975605f60int, 0x231fd69125647c9c3524a011dcefd665c1ec24fd92619a6b2314f466802int);
    let e = primes::lemma_chain_square(q236(), q236_root(), e, 0x231fd69125647c9c3524a011dcefd665c1ec24fd92619a6b2314f466802int, 0x5afd89e3f5f0e9cf0d27a20fd9880b987003ab470ec2c75450aefb7672eint);
    let e = primes::lemma_chain_square(q236(), q236_root(), e, 0x5afd89e3f5f0e9cf0d27a20fd9880b987003ab470ec2c75450aefb7672eint, 0x29dbd3ecd3042d5e90b82161bf909eb5bb0722739ab4fb5798e80b6a3a7int);
    let e = primes::lemma_chain_double(q236(), q236_root(), e, 0x29dbd3ecd3042d5e90b82161bf909eb5bb0722739ab4fb5798e80b6a3a7int, 0x6df099dba2f52c4847641c2fdfc3bf113296c14ff325005e0b844d7cf59int);
    let e = primes::lemma_chain_square(q236(), q236_root(), e, 0x6df099dba2f52c4847641c2fdfc3bf113296c14ff325005e0b844d7cf59int, 0x430f5a0aceb9a83e8cecc8696a4a796abd5746ff3b4aad08f17e18a89f2int);
    let e = primes::lemma_chain_square(q236(), q236_root(), e, 0x430f5a0aceb9a83e8cecc8696a4a796abd5746ff3b4aad08f17e18a89f2int, 0x89f866642659d689db1147413bde07bb95836b8f48acf66afeb0a783d37int);
    let e = primes::lemma_chain_square(q236(), q236_root(), e, 0x89f866642659d689db1147413bde07bb95836b8f48acf66afeb0a783d37int, 0x4cec2728adecc3dac46ad3cda7a0378037a6d6430311d36321168174082int);
    let e = primes::lemma_chain_double(q236(), q236_root(), e, 0x4cec2728adecc3dac46ad3cda7a0378037a6d6430311d36321168174082int, 0x593999941d53fa862093b8c1312ed5dd5da4c9cfee977a895d43bdb4496int);
    let e = primes::lemma_chain_double(q236(), q236_root(), e, 0x593999941d53fa862093b8c1312ed5dd5da4c9cfee977a895d43bdb4496int, 0xa7f2a89537e29ecc3ef90f60dbb855ebdbd8184e6922ec0915f7e3b8486int);
    let e = primes::lemma_chain_double(q236(), q236_root(), e, 0xa7f2a89537e29ecc3ef90f60dbb855ebdbd8184e6922ec0915f7e3b8486int, 0x3140a2a0e25c94e183f329a89f21ddd6b15fb46c014a58949715bdaf083int);
    let e = primes::lemma_chain_double(q236(), q236_root(), e, 0x3140a2a0e25c94e183f329a89f21ddd6b15fb46c014a58949715bdaf083int, 0x1dec702ff514def393a13de3791001b6fec476630ba72aca68d010bb15aint);
    let e = primes::lemma_chain_double(q236(), q236_root(), e, 0x1dec702ff514def393a13de3791001b6fec476630ba72aca68d010bb15aint, 0x65daae495df8bf03f796cd0fb17417360decc828634efa5843fcb38975int);
    let e = primes::lemma_chain_square(q236(), q236_root(), e, 0x65daae495df8bf03f796cd0fb17417360decc828634efa5843fcb38975int, 0x9d6ef5f5f52fef9387c54ea455f297eab23cc8947f1566a17c9ec5cccafint);
    let e = primes::lemma_chain_square(q236(), q236_root(), e, 0x9d6ef5f5f52fef9387c54ea455f297eab23cc8947f1566a17c9ec5cccafint, 0x5b12fd89764032e8cf229dcee5c41333b78d93fcce1b082fd78b6aa59d9int);
    let e = primes::lemma_chain_square(q236(), q236_root(), e, 0x5b12fd89764032e8cf229dcee5c41333b78d93fcce1b082fd78b6aa59d9int, 0xd5132c9e69001a4c28ac6027327fd2ad76e94ff28a7be4fb3616a5677aint);
    let e = primes::lemma_chain_square(q236(), q236_root(), e, 0xd5132c9e69001a4c28ac6027327fd2ad76e94ff28a7be4fb3616a5677aint, 0x1169c6da3a43d317a0dd55f1163954c1dddae49eb6508bedb8c8bbe36c5int);
    let e = primes::lemma_chain_double(q236(), q236_root(), e, 0x1169c6da3a43d317a0dd55f1163954c1dddae49eb6508bedb8c8bbe36c5int, 0x1);
}

pub proof fn lemma_q236_prime()
    ensures
        primes::is_prime(q236()),
{
    lemma_q116_prime();
    lemma_q236_base_0();
    lemma_q236_base_1();
    lemma_q236_base_2();
    lemma_q236_base_3();
    lemma_q236_base_4();
    lemma_q236_power_0();
    lemma_q236_power_1();
    lemma_q236_power_2();
    lemma_q236_power_3();
    lemma_q236_power_4();
    primes::lemma_tried(q236(), q116(), 0, 0xe87c2a477b815a1793787395b23e2int);
    primes::lemma_tried(q236(), q116(), 1, 0x1d0f8548ef702b42f26f0e72b647c3int);
    primes::lemma_tried(q236(), q116(), 2, 0x2b9747ed672840e46ba695ac116ba4int);
    primes::lemma_certify(
        q236(),
        q116(),
        0xbd0d14cf78e7521a329188e9fa496anat,
        2,
        q236_root(),
        0xa35a14fb1452ddd0fca6eef50ac9bd9a369cab894104fc366d4fa595e38int,
        3,
        0x3a1f0a91dee05685e4de1ce56c8f85int,
    );
}

proof fn lemma_p_base_0()
    ensures
        pow(2, 0x5f6e2) % radix::prime() == 0x587b5882c7860235e1b4dd1a0040c4dbf4f21b56ccb70c2cb5a409f25a97a63cint,
{
    lemma_pow1(2);
    let e: nat = 0x1;
    let e = primes::lemma_chain_square(radix::prime(), 2, e, 0x2, 0x4);
    let e = primes::lemma_chain_double(radix::prime(), 2, e, 0x4, 0x20);
    let e = primes::lemma_chain_double(radix::prime(), 2, e, 0x20, 0x800);
    let e = primes::lemma_chain_double(radix::prime(), 2, e, 0x800, 0x800000);
    let e = primes::lemma_chain_double(radix::prime(), 2, e, 0x800000, 0x800000000000);
    let e = primes::lemma_chain_double(radix::prime(), 2, e, 0x800000000000, 0x800000000000000000000000int);
    let e = primes::lemma_chain_square(radix::prime(), 2, e, 0x800000000000000000000000int, 0x400000000000000000000000000000000000000000000000int);
    let e = primes::lemma_chain_double(radix::prime(), 2, e, 0x400000000000000000000000000000000000000000000000int, 0x4c0000000000000000000000000000000int);
    let e = primes::lemma_chain_double(radix::prime(), 2, e, 0x4c0000000000000000000000000000000int, 0x20000000000000000000000000000000000000000000000000000000000006aeint);
    let e = primes::lemma_chain_square(radix::prime(), 2, e, 0x20000000000000000000000000000000000000000000000000000000000006aeint, 0x18000000000000000000000000000000000000000000000000000000002cddccint);
    let e = primes::lemma_chain_double(radix::prime(), 2, e, 0x18000000000000000000000000000000000000000000000000000000002cddccint, 0x2b000000000000000000000000000000000000000000000000000fb9ff130dceint);
    let e = primes::lemma_chain_double(radix::prime(), 2, e, 0x2b000000000000000000000000000000000000000000000000000fb9ff130dceint, 0xcec00000000000000000000000000000000000001eea60dc69faed39b039c4bint);
    let e = primes::lemma_chain_double(radix::prime(), 2, e, 0xcec00000000000000000000000000000000000001eea60dc69faed39b039c4bint, 0x162216c0000000000007778a91c0dd372b6facff37ea5ac6606bd318fa0e0f79int);
    let e = primes::lemma_chain_square(radix::prime(), 2, e, 0x162216c0000000000007778a91c0dd372b6facff37ea5ac6606bd318fa0e0f79int, 0x6eb9ef646ded500ec360dc97d3aba66fad01335ae230f0694f551ed107e18b80int);
    let e = primes::lemma_chain_square(radix::prime(), 2, e, 0x6eb9ef646ded500ec360dc97d3aba66fad01335ae230f0694f551ed107e18b80int, 0x1d804e3bfbc1c5189c61a656cc00905d55b7f22ae1771e1690048c93d6e78b58int);
    let e = primes::lemma_chain_square(radix::prime(), 2, e, 0x1d804e3bfbc1c5189c61a656cc00905d55b7f22ae1771e1690048c93d6e78b58int, 0x4029dd07f147e9f9cf214b626c20bb9c254fc9c7d0b5bdf5cd1e706290bb9f73int);
    let e = primes::lemma_chain_double(radix::prime(), 2, e, 0x4029dd07f147e9f9cf214b626c20bb9c254fc9c7d0b5bdf5cd1e706290bb9f73int, 0xf10bda72989665e25b2f91d26cbc5d4ab0ae74eabcd6acd2f1164aa01ba7316int);
    let e = primes::lemma_chain_square(radix::prime(), 2, e, 0xf10bda72989665e25b2f91d26cbc5d4ab0ae74eabcd6acd2f1164aa01ba7316int, 0x587b5882c7860235e1b4dd1a0040c4dbf4f21b56ccb70c2cb5a409f25a97a63cint);
}

/// 2 to the power `(p - 1) / (2 q236())`.
spec fn p_root() -> int {
    0x587b5882c7860235e1b4dd1a0040c4dbf4f21b56ccb70c2cb5a409f25a97a63cint
}

proof fn lemma_p_power_0()
    ensures
        pow(p_root(), 0x1575f18) % radix::prime() == 0x6ab9446f2fd2cc9b0e3d84e2a3e9326ae3703f22d1f89b53655acb7921b442aeint,
{
    lemma_pow1(p_root());
    let e: nat = 0x1;
    let e = primes::lemma_chain_square(radix::prime(), p_root(), e, 0x587b5882c7860235e1b4dd1a0040c4dbf4f21b56ccb70c2cb5a409f25a97a63cint, 0xf1ba0c491eeef83c49fc1b744331bb096d4893142c187431f7b03e61a75a49int);
    let e = primes::lemma_chain_double(radix::prime(), p_root(), e, 0xf1ba0c491eeef83c49fc1b744331bb096d4893142c187431f7b03e61a75a49int, 0x193f4517b780af247c0d12fc93405a0c29569ae7d3d15c402724aa1f9e933993int);
    let e = primes::lemma_chain_square(radix::prime(), p_root(), e, 0x193f4517b780af247c0d12fc93405a0c29569ae7d3d15c402724aa1f9e933993int, 0x342a7d325b0b1ff95b5e45ca9165b32067bc4e206eb80f25089a8b32c3d11a1dint);
    let e = primes::lemma_chain_double(radix::prime(), p_root(), e, 0x342a7d325b0b1ff95b5e45ca9165b32067bc4e206eb80f25089a8b32c3d11a1dint, 0x4674cf727461e5b499e7b630cdc3d897ff308f34c0b1c9f0f586254cf0e57ec5int);
    let e = primes::lemma_chain_square(radix::prime(), p_root(), e, 0x4674cf727461e5b499e7b630cdc3d897ff308f34c0b1c9f0f586254cf0e57ec5int, 0x173b5223758edb62921c9bf8a68146cc07c570efc7c06ca7a00761d2c814953eint);
    let e = primes::lemma_chain_double(radix::prime(), p_root(), e, 0x173b5223758edb62921c9bf8a68146cc07c570efc7c06ca7a00761d2c814953eint, 0x3fb931c94be8d7ba7fb771093b7f3114816a69dbd7a700822f0c83dc6ec97586int);
    let e = primes::lemma_chain_double(radix::prime(), p_root(), e, 0x3fb931c94be8d7ba7fb771093b7f3114816a69dbd7a700822f0c83dc6ec97586int, 0x2d6ec5dbad1f34feceaf57a3320f83af9d27d8d58ff49e6e6193af828293fd6aint);
    let e = primes::lemma_chain_double(radix::prime(), p_root(), e, 0x2d6ec5dbad1f34feceaf57a3320f83af9d27d8d58ff49e6e6193af828293fd6aint, 0x628ae8bfe7a13513d9743c863082be362e43121a79a005225791fc67fcb632dfint);
    let e = primes::lemma_chain_square(radix::prime(), p_root(), e, 0x628ae8bfe7a13513d9743c863082be362e43121a79a005225791fc67fcb632dfint, 0x4280d7058e650161fa382cfca316d65987fef4b6ef59cb56a6ed4f264eceb50aint);
    let e = primes::lemma_chain_double(radix::prime(), p_root(), e, 0x4280d7058e650161fa382cfca316d65987fef4b6ef59cb56a6ed4f264eceb50aint, 0x355f47bbc7ba7dad0bac68668b542cf28dd3be241fdb35cbbec60cb34ac84423int);
    let e = primes::lemma_chain_square(radix::prime(), p_root(), e, 0x355f47bbc7ba7dad0bac68668b542cf28dd3be241fdb35cbbec60cb34ac84423int, 0x9313e5f19a530856ecc12c379512ac0493c0e915c3b8457a0736a263cc9ffd9int);
    let e = primes::lemma_chain_double(radix::prime(), p_root(), e, 0x9313e5f19a530856ecc12c379512ac0493c0e915c3b8457a0736a263cc9ffd9int, 0x3110db7e78e4ddf203adf9eee4b17b566e87ad405faab1fa7e4bf286eb192f4bint);
    let e = primes::lemma_chain_double(radix::prime(), p_root(), e, 0x3110db7e78e4ddf203adf9eee4b17b566e87ad405faab1fa7e4bf286eb192f4bint, 0x4ee711930e27b2cf82ddab17f2d824f7959dfc2a9f0da45ebf4ec8071304943bint);
    let e = primes::lemma_chain_double(radix::prime(), p_root(), e, 0x4ee711930e27b2cf82ddab17f2d824f7959dfc2a9f0da45ebf4ec8071304943bint, 0x182e43cbd97b74b336d92d28a03824624e5711b0f0aad03229d7f5f7aa8699e2int);
    let e = primes::lemma_chain_double(radix::prime(), p_root(), e, 0x182e43cbd97b74b336d92d28a03824624e5711b0f0aad03229d7f5f7aa8699e2int, 0x2c2eb665724499d77fd54849491ac8002329a5582212b668db8ac467cd929d3fint);
    let e = primes::lemma_chain_double(radix::prime(), p_root(), e, 0x2c2eb665724499d77fd54849491ac8002329a5582212b668db8ac467cd929d3fint, 0x32621427c348ebbb2e763563ed309750a5b28855d58436b91d3045100f3cca0cint);
    let e = primes::lemma_chain_square(radix::prime(), p_root(), e, 0x32621427c348ebbb2e763563ed309750a5b28855d58436b91d3045100f3cca0cint, 0x12e49f6bde7bb9edecf25e489856e1005576b78c1fdf843dfe9e3b538900e6eaint);
    let e = primes::lemma_chain_square(radix::prime(), p_root(), e, 0x12e49f6bde7bb9edecf25e489856e1005576b78c1fdf843dfe9e3b538900e6eaint, 0x2abc0b874a38e2940465b615bffdb6dc321808eaa693f78c208ffe09f41a1c6int);
    let e = primes::lemma_chain_square(radix::prime(), p_root(), e, 0x2abc0b874a38e2940465b615bffdb6dc321808eaa693f78c208ffe09f41a1c6int, 0x4c389106cfede6474cb9e4ac9a987d1237dd26d40ad6d57b0b6dd30d09e576e9int);
    let e = primes::lemma_chain_double(radix::prime(), p_root(), e, 0x4c389106cfede6474cb9e4ac9a987d1237dd26d40ad6d57b0b6dd30d09e576e9int, 0xac0c472567b0d90d38e27c67e3c5b68d1df8072caf00958bb58df36b2763361int);
    let e = primes::lemma_chain_double(radix::prime(), p_root(), e, 0xac0c472567b0d90d38e27c67e3c5b68d1df8072caf00958bb58df36b2763361int, 0x5a82f54048c1299bc033ab66eacab0c20a367a9c363e9f04828c1fcb9a866cf8int);
    let e = primes::lemma_chain_square(radix::prime(), p_root(), e, 0x5a82f54048c1299bc033ab66eacab0c20a367a9c363e9f04828c1fcb9a866cf8int, 0x42b46e1a95fb5f3a97725084bb33d6c4a294b6580b5454ea392fde331c211c50int);
    let e = primes::lemma_chain_square(radix::prime(), p_root(), e, 0x42b46e1a95fb5f3a97725084bb33d6c4a294b6580b5454ea392fde331c211c50int, 0xf2b0a87ccb37618d1481272101cbcf2299ffefb0f5b4d7481db71194151371cint);
    let e = primes::lemma_chain_square(radix::prime(), p_root(), e, 0xf2b0a87ccb37618d1481272101cbcf2299ffefb0f5b4d7481db71194151371cint, 0x6ab9446f2fd2cc9b0e3d84e2a3e9326ae3703f22d1f89b53655acb7921b442aeint);
}

proof fn lemma_p_power_1()
    requires
        pow(p_root(), 0x1575f18) % radix::prime() == 0x6ab9446f2fd2cc9b0e3d84e2a3e9326ae3703f22d1f89b53655acb7921b442aeint,
    ensures
        pow(p_root(), 0x1575f18d6129f) % radix::prime() == 0x6110a6bbff708fbbac12540ac690e6ea1326b6bce0864bf86842155d862cba56int,
{
    let e: nat = 0x1575f18;
    let e = primes::lemma_chain_double(radix::prime(), p_root(), e, 0x6ab9446f2fd2cc9b0e3d84e2a3e9326ae3703f22d1f89b53655acb7921b442aeint, 0x44bffbab5107325a6d9e61248470e9c4a900ce09fafa15fe2e490a2f7fca1c1int);
    let e = primes::lemma_chain_double(radix::prime(), p_root(), e, 0x44bffbab5107325a6d9e61248470e9c4a900ce09fafa15fe2e490a2f7fca1c1int, 0x4ab879090d1f6aad18e28ce2ae83a20588e3d80801ba6d45fe43fb11a01074f7int);
    let e = primes::lemma_chain_square(radix::prime(), p_root(), e, 0x4ab879090d1f6aad18e28ce2ae83a20588e3d80801ba6d45fe43fb11a01074f7int, 0x5da44e87f253f8acf1f3f9d71da72817c5a27765deaca0793443f55d141df32int);
    let e = primes::lemma_chain_double(radix::prime(), p_root(), e, 0x5da44e87f253f8acf1f3f9d71da72817c5a27765deaca0793443f55d141df32int, 0x731a269dc8472da21775095ddd528f29cd3beeab151fe0d8d95eebd78608476bint);
    let e = primes::lemma_chain_square(radix::prime(), p_root(), e, 0x731a269dc8472da21775095ddd528f29cd3beeab151fe0d8d95eebd78608476bint, 0x6e5fa880af41aaafff15619b0bb84882c0748b350bde7ed01a96c9884d5de8deint);
    let e = primes::lemma_chain_double(radix::prime(), p_root(), e, 0x6e5fa880af41aaafff15619b0bb84882c0748b350bde7ed01a96c9884d5de8deint, 0x15d6cc9e9afea1186ba962dd0af025ea11efeb523d317013da56329444bcb651int);
    let e = primes::lemma_chain_double(radix::prime(), p_root(), e, 0x15d6cc9e9afea1186ba962dd0af025ea11efeb523d317013da56329444bcb651int, 0x266d3b0850250a1d059e37ba58bea838c2991b4a47e2f57dcbd04e9a3c9b9440int);
    let e = primes::lemma_chain_square(radix::prime(), p_root(), e, 0x266d3b0850250a1d059e37ba58bea838c2991b4a47e2f57dcbd04e9a3c9b9440int, 0x5679a457f3f9d312d133adc8fdef7161de05d229f96e741a1616a1d3bbb18c7aint);
    let e = primes::lemma_chain_square(radix::prime(), p_root(), e, 0x5679a457f3f9d312d133adc8fdef7161de05d229f96e741a1616a1d3bbb18c7aint, 0x3c02e8b18db0def0805c51cad45268b94873ddabc53ffdfe58d3cb223fa2abb1int);
    let e = primes::lemma_chain_square(radix::prime(), p_root(), e, 0x3c02e8b18db0def0805c51cad45268b94873ddabc53ffdfe58d3cb223fa2abb1int, 0x1e421e8bc5f8278149d3539d6a06b05e578cce9da8a8dcefed198effaa38a44cint);
    let e = primes::lemma_chain_square(radix::prime(), p_root(), e, 0x1e421e8bc5f8278149d3539d6a06b05e578cce9da8a8dcefed198effaa38a44cint, 0x2361e3cfd291e017e1654f76faa969916ee7e6e261523f1535610aa7121a92ecint);
    let e = primes::lemma_chain_double(radix::prime(), p_root(), e, 0x2361e3cfd291e017e1654f76faa969916ee7e6e261523f1535610aa7121a92ecint, 0x4a0e29091d04f3a2512a99707942806df700dffb5dd417ef66f06deff45a0f3eint);
    let e = primes::lemma_chain_square(radix::prime(), p_root(), e, 0x4a0e29091d04f3a2512a99707942806df700dffb5dd417ef66f06deff45a0f3eint, 0x77298a8a57aedb56b4dc6a912b407714cfe9ba880998daef31c56c139522a7c0int);
    let e = primes::lemma_chain_square(radix::prime(), p_root(), e, 0x77298a8a57aedb56b4dc6a912b407714cfe9ba880998daef31c56c139522a7c0int, 0x149fada88136c7aae3fd0d56aa59202db1e12ec3a72020399e2dcac5356dd1fdint);
    let e = primes::lemma_chain_double(radix::prime(), p_root(), e, 0x149fada88136c7aae3fd0d56aa59202db1e12ec3a72020399e2dcac5356dd1fdint, 0x1e303b0cd2d07f9d3d938411954052e206196f9d28937c1dca564e17f90ee091int);
    let e = primes::lemma_chain_square(radix::prime(), p_root(), e, 0x1e303b0cd2d07f9d3d938411954052e206196f9d28937c1dca564e17f90ee091int, 0x20f1e54f465a32cf2be5a1530a987ed4057d48ae46bb593aca2aac6d53954abint);
    let e = primes::lemma_chain_double(radix::prime(), p_root(), e, 0x20f1e54f465a32cf2be5a1530a987ed4057d48ae46bb593aca2aac6d53954abint, 0x155e18ddcc91a358501c884099e92250a05a8d22390837d222343d540e196553int);
    let e = primes::lemma_chain_square(radix::prime(), p_root(), e, 0x155e18ddcc91a358501c884099e92250a05a8d22390837d222343d540e196553int, 0x25077c77a63c5734190e06c2f38e153ada52c9208983a49ec3e83e39ca650d0dint);
    let e = primes::lemma_chain_square(radix::prime(), p_root(), e, 0x25077c77a63c5734190e06c2f38e153ada52c9208983a49ec3e83e39ca650d0dint, 0x1dc53f7c84cd7871e8f89c2d5a42078bf34b36de79bb26fecdc37a1fae2a6d14int);
    let e = primes::lemma_chain_double(radix::prime(), p_root(), e, 0x1dc53f7c84cd7871e8f89c2d5a42078bf34b36de79bb26fecdc37a1fae2a6d14int, 0x14ba80df4ddb5ca04767c4952ff76acc34dc5a1ff2a426d7fc8e6b5eb3e03994int);
    let e = primes::lemma_chain_double(radix::prime(), p_root(), e, 0x14ba80df4ddb5ca04767c4952ff76acc34dc5a1ff2a426d7fc8e6b5eb3e03994int, 0x102eed310dc598c78a138bf4c5301ce4c20e22680f609d1bd37803f86474a538int);
    let e = primes::lemma_chain_double(radix::prime(), p_root(), e, 0x102eed310dc598c78a138bf4c5301ce4c20e22680f609d1bd37803f86474a538int, 0x721b304008abb45c8810af273a897b79ae998aab00a85bbcbf1d748534af3f0eint);
    let e = primes::lemma_chain_double(radix::prime(), p_root(), e, 0x721b304008abb45c8810af273a897b79ae998aab00a85bbcbf1d748534af3f0eint, 0x328c469eeb91194c694f3f5c7217b705a323761a6ae8171a81ec921856ccb79bint);
    let e = primes::lemma_chain_double(radix::prime(), p_root(), e, 0x328c469eeb91194c694f3f5c7217b705a323761a6ae8171a81ec921856ccb79bint, 0x6110a6bbff708fbbac12540ac690e6ea1326b6bce0864bf86842155d862cba56int);
}

proof fn lemma_p_power_2()
    requires
        pow(p_root(), 0x1575f18d6129f) % radix::prime() == 0x6110a6bbff708fbbac12540ac690e6ea1326b6bce0864bf86842155d862cba56int,
    ensures
        pow(p_root(), 0x1575f18d6129fa1e658nat) % radix::prime() == 0x1e660ac6a55e6e3111a1534f02b14663794ff79244fb34cedf622299d628ac38int,
{
    let e: nat = 0x1575f18d6129f;
    let e = primes::lemma_chain_double(radix::prime(), p_root(), e, 0x6110a6bbff708fbbac12540ac690e6ea1326b6bce0864bf86842155d862cba56int, 0x6eb93f24b46b3d9192dfbcadc190fafe864ebc562072097c14d03ff800153f07int);
    let e = primes::lemma_chain_square(radix::prime(), p_root(), e, 0x6eb93f24b46b3d9192dfbcadc190fafe864ebc562072097c14d03ff800153f07int, 0x7512e77e51dc76a239d5f7433804ae2f4e0a9567afea3dc4a1eee0ca69ab4c77int);
    let e = primes::lemma_chain_double(radix::prime(), p_root(), e, 0x7512e77e51dc76a239d5f7433804ae2f4e0a9567afea3dc4a1eee0ca69ab4c77int, 0x6bd5be009cde6a590b75978e4a77c1ea8ff41dcc67b57b72c885cbfe073ef5bbint);
    let e = primes::lemma_chain_square(radix::prime(), p_root(), e, 0x6bd5be009cde6a590b75978e4a77c1ea8ff41dcc67b57b72c885cbfe073ef5bbint, 0x56a706447989e1133d5a4b694e77dc0fb5766dae4ca20bad5ac7428ce030ba65int);
    let e = primes::lemma_chain_square(radix::prime(), p_root(), e, 0x56a706447989e1133d5a4b694e77dc0fb5766dae4ca20bad5ac7428ce030ba65int, 0xeead903d09e97b46028a885b1c3aaa02b2df2896b7708f753494e4e0474d79dint);
    let e = primes::lemma_chain_square(radix::prime(), p_root(), e, 0xeead903d09e97b46028a885b1c3aaa02b2df2896b7708f753494e4e0474d79dint, 0x6d5235f572ce77058749b94ef0c65dc3dfddff52b85d31f80ff625db5eeef237int);
    let e = primes::lemma_chain_square(radix::prime(), p_root(), e, 0x6d5235f572ce77058749b94ef0c65dc3dfddff52b85d31f80ff625db5eeef237int, 0x2db8d160d5f6d69c11bf0187ffcfa33bfc04c4ad800ca39f6766bb2f0ba7a45cint);
    let e = primes::lemma_chain_double(radix::prime(), p_root(), e, 0x2db8d160d5f6d69c11bf0187ffcfa33bfc04c4ad800ca39f6766bb2f0ba7a45cint, 0x2c52f6504552d1f069178d2accaf226b7d62df2e6cd69ae9cbeb3c1ff7fe737bint);
    let e = primes::lemma_chain_double(radix::prime(), p_root(), e, 0x2c52f6504552d1f069178d2accaf226b7d62df2e6cd69ae9cbeb3c1ff7fe737bint, 0x328a021bfb7bd62ff8949e79c534e313c7b086ef1e4735ced0ee98313f7015b7int);
    let e = primes::lemma_chain_double(radix::prime(), p_root(), e, 0x328a021bfb7bd62ff8949e79c534e313c7b086ef1e4735ced0ee98313f7015b7int, 0x60fc05cffaf7e55b0fa8bee35f9472582038bf6306ec1e0bdf3d33248dcf1aebint);
    let e = primes::lemma_chain_double(radix::prime(), p_root(), e, 0x60fc05cffaf7e55b0fa8bee35f9472582038bf6306ec1e0bdf3d33248dcf1aebint, 0x7903cfebd0e304e69f6853ecec793fd6ae367f7f6f412881923783d4b5228b3bint);
    let e = primes::lemma_chain_square(radix::prime(), p_root(), e, 0x7903cfebd0e304e69f6853ecec793fd6ae367f7f6f412881923783d4b5228b3bint, 0x2088a85bfeed3aa50710c8f24742a0bad652ba7e4c2bbb0578cd3ed942694a2bint);
    let e = primes::lemma_chain_square(radix::prime(), p_root(), e, 0x2088a85bfeed3aa50710c8f24742a0bad652ba7e4c2bbb0578cd3ed942694a2bint, 0x126ee220acd3667a4f7286bbaacdb76d37eb2baabcd768640c7c4897c36a077aint);
    let e = primes::lemma_chain_double(radix::prime(), p_root(), e, 0x126ee220acd3667a4f7286bbaacdb76d37eb2baabcd768640c7c4897c36a077aint, 0x1bec22b73f1ebe9e2be79b8026dc0f2fcfc621bcc85d37f779934e85b0e3f75int);
    let e = primes::lemma_chain_double(radix::prime(), p_root(), e, 0x1bec22b73f1ebe9e2be79b8026dc0f2fcfc621bcc85d37f779934e85b0e3f75int, 0x5d83eeeaf1181c67834c4b73a62478cd7b3343019b008547d04a4ad730b378a2int);
    let e = primes::lemma_chain_square(radix::prime(), p_root(), e, 0x5d83eeeaf1181c67834c4b73a62478cd7b3343019b008547d04a4ad730b378a2int, 0x408bb1af6f2e580b0e1b2810ab3dd9cbf8766a309398165714a58144c3f56e75int);
    let e = primes::lemma_chain_square(radix::prime(), p_root(), e, 0x408bb1af6f2e580b0e1b2810ab3dd9cbf8766a309398165714a58144c3f56e75int, 0x436a55c2bf5f9d48d428f4c48d8c2c80d997388b64af202916032a7ae61b0a45int);
    let e = primes::lemma_chain_double(radix::prime(), p_root(), e, 0x436a55c2bf5f9d48d428f4c48d8c2c80d997388b64af202916032a7ae61b0a45int, 0x5e8329a140ea37ee47a4a37c99bc1fd2821d4f2367dd59405b6f1973213de519int);
    let e = primes::lemma_chain_square(radix::prime(), p_root(), e, 0x5e8329a140ea37ee47a4a37c99bc1fd2821d4f2367dd59405b6f1973213de519int, 0x68276ce741cdcd7cd38a0a23412b8c00192f9fa1cf0286c05c2c4c083e00abfbint);
    let e = primes::lemma_chain_double(radix::prime(), p_root(), e, 0x68276ce741cdcd7cd38a0a23412b8c00192f9fa1cf0286c05c2c4c083e00abfbint, 0x6f03e2ab27c668b140af959a1a2dfc09e60591017f4ca0811d9e7878c826d833int);
    let e = primes::lemma_chain_double(radix::prime(), p_root(), e, 0x6f03e2ab27c668b140af959a1a2dfc09e60591017f4ca0811d9e7878c826d833int, 0x65f91803860db24fdb3c2e6ab54ce95d4e1234928c497cafdd66ded0ab07676int);
    let e = primes::lemma_chain_square(radix::prime(), p_root(), e, 0x65f91803860db24fdb3c2e6ab54ce95d4e1234928c497cafdd66ded0ab07676int, 0x6a6071a7dcea1af2065a435440a0f69f10605d6e4fbc49a74fbe68c0520e6df9int);
    let e = primes::lemma_chain_square(radix::prime(), p_root(), e, 0x6a6071a7dcea1af2065a435440a0f69f10605d6e4fbc49a74fbe68c0520e6df9int, 0x9d68e8f7e638e308f449d21597c233445fa35a03fba5325c27aa27e64e8a0aaint);
    let e = primes::lemma_chain_square(radix::prime(), p_root(), e, 0x9d68e8f7e638e308f449d21597c233445fa35a03fba5325c27aa27e64e8a0aaint, 0x1e660ac6a55e6e3111a1534f02b14663794ff79244fb34cedf622299d628ac38int);
}

proof fn lemma_p_power_3()
    requires
        pow(p_root(), 0x1575f18d6129fa1e658nat) % radix::prime() == 0x1e660ac6a55e6e3111a1534f02b14663794ff79244fb34cedf622299d628ac38int,
    ensures
        pow(p_root(), 0x1575f18d6129fa1e658599575nat) % radix::prime() == 0x1f10acfb28274da7536bad3457258530786d3e2edf8c74b3192a0e1464870211int,
{
    let e: nat = 0x1575f18d6129fa1e658nat;
    let e = primes::lemma_chain_square(radix::prime(), p_root(), e, 0x1e660ac6a55e6e3111a1534f02b14663794ff79244fb34cedf622299d628ac38int, 0x31baffa49c932c8580091787aa71cbf7afeb155addf3a741960cea738a144461int);
    let e = primes::lemma_chain_double(radix::prime(), p_root(), e, 0x31baffa49c932c8580091787aa71cbf7afeb155addf3a741960cea738a144461int, 0x6aa84cad8b1fcf9ce7e801991fd5b209d363e86c9642215c209aa1c39a897867int);
    let e = primes::lemma_chain_square(radix::prime(), p_root(), e, 0x6aa84cad8b1fcf9ce7e801991fd5b209d363e86c9642215c209aa1c39a897867int, 0x3354ac63e7f1af4710c8fd03e4c9f856224a7b4725fd467e5b49a20d85909e0fint);
    let e = primes::lemma_chain_double(radix::prime(), p_root(), e, 0x3354ac63e7f1af4710c8fd03e4c9f856224a7b4725fd467e5b49a20d85909e0fint, 0x1bcda639c157d20d1e8b0a940e38113368e3c2070315d32b1f72e421343dfb98int);
    let e = primes::lemma_chain_double(radix::prime(), p_root(), e, 0x1bcda639c157d20d1e8b0a940e38113368e3c2070315d32b1f72e421343dfb98int, 0x60e778212e92ae45dffa57271d0b4c724228039bbdb6cb82d61568700ec38ad2int);
    let e = primes::lemma_chain_square(radix::prime(), p_root(), e, 0x60e778212e92ae45dffa57271d0b4c724228039bbdb6cb82d61568700ec38ad2int, 0x4fd6c4a4f2ab92028ad7e8e7c28dbbb894eb8fb08a50e4f99399372c6bcadb5cint);
    let e = primes::lemma_chain_square(radix::prime(), p_root(), e, 0x4fd6c4a4f2ab92028ad7e8e7c28dbbb894eb8fb08a50e4f99399372c6bcadb5cint, 0x8e20f917865a60bfe6eea56e5a27f5e58e78075aab5448e3a58f3295c0aaad2int);
    let e = primes::lemma_chain_double(radix::prime(), p_root(), e, 0x8e20f917865a60bfe6eea56e5a27f5e58e78075aab5448e3a58f3295c0aaad2int, 0x3ad5ef2e7589759f4f787fd70f24fb2bfc5baa7ced68ca387fa5722b4e3ed151int);
    let e = primes::lemma_chain_double(radix::prime(), p_root(), e, 0x3ad5ef2e7589759f4f787fd70f24fb2bfc5baa7ced68ca387fa5722b4e3ed151int, 0x24b9e6431181a21b770735950c020fd30db7c0f3a55e23d1cafe876c43ec2d02int);
    let e = primes::lemma_chain_square(radix::prime(), p_root(), e, 0x24b9e6431181a21b770735950c020fd30db7c0f3a55e23d1cafe876c43ec2d02int, 0x20fde7fc9957dd11a867a2c4b307c7c91963ea072b897998cdb7069db572793dint);
    let e = primes::lemma_chain_square(radix::prime(), p_root(), e, 0x20fde7fc9957dd11a867a2c4b307c7c91963ea072b897998cdb7069db572793dint, 0x4402e1f3f886ba24b3bd24737f90d2caac855b45851565ceaac2928b1b2d0a72int);
    let e = primes::lemma_chain_double(radix::prime(), p_root(), e, 0x4402e1f3f886ba24b3bd24737f90d2caac855b45851565ceaac2928b1b2d0a72int, 0x77f2a173cf55d4b9ff2ac78dfc52f7e645f2ace723dacda9c9a5f14d98146ff0int);
    let e = primes::lemma_chain_square(radix::prime(), p_root(), e, 0x77f2a173cf55d4b9ff2ac78dfc52f7e645f2ace723dacda9c9a5f14d98146ff0int, 0x3932051069dfadf21477fefcab7348a9903e003c16b75e6318d9e0285848ddebint);
    let e = primes::lemma_chain_double(radix::prime(), p_root(), e, 0x3932051069dfadf21477fefcab7348a9903e003c16b75e6318d9e0285848ddebint, 0x4f08b10694f8bd12f4b0f81c2b354b0ee9d959e4d3f2528c310a68a5d5b886b0int);
    let e = primes::lemma_chain_square(radix::prime(), p_root(), e, 0x4f08b10694f8bd12f4b0f81c2b354b0ee9d959e4d3f2528c310a68a5d5b886b0int, 0x14b1fe595c3851a79800d11aa61b32ad562b0804f1ccc9638003b5c100fa144eint);
    let e = primes::lemma_chain_double(radix::prime(), p_root(), e, 0x14b1fe595c3851a79800d11aa61b32ad562b0804f1ccc9638003b5c100fa144eint, 0x1913b430d3bed47d6d434456d366c498bab6e145b8b4c87ec3075d987c028e23int);
    let e = primes::lemma_chain_square(radix::prime(), p_root(), e, 0x1913b430d3bed47d6d434456d366c498bab6e145b8b4c87ec3075d987c028e23int, 0x1d195d06b273bcc82e61e90bde48be28925c10c7324c09f6689300f5673d0b77int);
    let e = primes::lemma_chain_double(radix::prime(), p_root(), e, 0x1d195d06b273bcc82e61e90bde48be28925c10c7324c09f6689300f5673d0b77int, 0x74b19b266de50c9d576260060a827790e1c998d276b1f41683f06bfdbcd418f5int);
    let e = primes::lemma_chain_double(radix::prime(), p_root(), e, 0x74b19b266de50c9d576260060a827790e1c998d276b1f41683f06bfdbcd418f5int, 0x3c35f78da2bc40a9ed94cd839c4ebb7774e599b87b52ce36371cda3dfaec6caaint);
    let e = primes::lemma_chain_double(radix::prime(), p_root(), e, 0x3c35f78da2bc40a9ed94cd839c4ebb7774e599b87b52ce36371cda3dfaec6caaint, 0x7e93f600f4774362015c07919c713bb4cfd6f86e81792c138c2af0f45d4427c4int);
    let e = primes::lemma_chain_square(radix::prime(), p_root(), e, 0x7e93f600f4774362015c07919c713bb4cfd6f86e81792c138c2af0f45d4427c4int, 0x277ac56a20c44869c38c29e923b1da1c6cafd3fd200a2d0b97cff5307d9cff79int);
    let e = primes::lemma_chain_double(radix::prime(), p_root(), e, 0x277ac56a20c44869c38c29e923b1da1c6cafd3fd200a2d0b97cff5307d9cff79int, 0x22d3d7c0e7638a7aec46a134db3a7af80177b97591d063ff579fab1de267a0bbint);
    let e = primes::lemma_chain_square(radix::prime(), p_root(), e, 0x22d3d7c0e7638a7aec46a134db3a7af80177b97591d063ff579fab1de267a0bbint, 0x69393507a6f478a3572216f6bca96457e9a90e344f912dc66f5f1fdcac41d9d2int);
    let e = primes::lemma_chain_double(radix::prime(), p_root(), e, 0x69393507a6f478a3572216f6bca96457e9a90e344f912dc66f5f1fdcac41d9d2int, 0x1f10acfb28274da7536bad3457258530786d3e2edf8c74b3192a0e1464870211int);
}

proof fn lemma_p_power_4()
    requires
        pow(p_root(), 0x1575f18d6129fa1e658599575nat) % radix::prime() == 0x1f10acfb28274da7536bad3457258530786d3e2edf8c74b3192a0e1464870211int,
    ensures
        pow(p_root(), 0x1575f18d6129fa1e65859957570c9b7nat) % radix::prime() == 0x538173be31f59da19123892d8f3f11924dc3e609b971ac13b3d0e9a9f1dea70dint,
{
    let e: nat = 0x1575f18d6129fa1e658599575nat;
    let e = primes::lemma_chain_square(radix::prime(), p_root(), e, 0x1f10acfb28274da7536bad3457258530786d3e2edf8c74b3192a0e1464870211int, 0x566677300075fe883e8bf85ae3ab2c651070c4e90506db5f60d0ea2c95ce42d3int);
    let e = primes::lemma_chain_double(radix::prime(), p_root(), e, 0x566677300075fe883e8bf85ae3ab2c651070c4e90506db5f60d0ea2c95ce42d3int, 0x66aa8715cb136030e5574c168da417ce8372b9442034c3cada8228bf496e755dint);
    let e = primes::lemma_chain_double(radix::prime(), p_root(), e, 0x66aa8715cb136030e5574c168da417ce8372b9442034c3cada8228bf496e755dint, 0xd3fa57c77f93f4c68f237abe2a110ee20b6e9dba3c34ca824bcf23bf531ed45int);
    let e = primes::lemma_chain_double(radix::prime(), p_root(), e, 0xd3fa57c77f93f4c68f237abe2a110ee20b6e9dba3c34ca824bcf23bf531ed45int, 0x6151b149cff4374d6120f3ef27ce91bac72a68f766211f58f2fe8a697fb04681int);
    let e = primes::lemma_chain_square(radix::prime(), p_root(), e, 0x6151b149cff4374d6120f3ef27ce91bac72a68f766211f58f2fe8a697fb04681int, 0x2435441ace3107bb452c944b643468bd8fc12a3b2393df1d92f6681acd02e7a6int);
    let e = primes::lemma_chain_square(radix::prime(), p_root(), e, 0x2435441ace3107bb452c944b643468bd8fc12a3b2393df1d92f6681acd02e7a6int, 0xef4e8a6b5335e718464d99ea63238c1f431cc85f2ce304b9955ecf813853b00int);
    let e = primes::lemma_chain_square(radix::prime(), p_root(), e, 0xef4e8a6b5335e718464d99ea63238c1f431cc85f2ce304b9955ecf813853b00int, 0x98b21d7ea0c1f5075e6bf5604cfb981a0cc754b65b7fd36c0280fe24dd5e069int);
    let e = primes::lemma_chain_square(radix::prime(), p_root(), e, 0x98b21d7ea0c1f5075e6bf5604cfb981a0cc754b65b7fd36c0280fe24dd5e069int, 0x70375f32e278a7366b098a856fcff94eb55ef90f8e8eae6573dcec0d1e3b3ee4int);
    let e = primes::lemma_chain_double(radix::prime(), p_root(), e, 0x70375f32e278a7366b098a856fcff94eb55ef90f8e8eae6573dcec0d1e3b3ee4int, 0x7374bfe3740f59f0f04759722950930a6ec06e05892bda890d7d10b8fb9701adint);
    let e = primes::lemma_chain_double(radix::prime(), p_root(), e, 0x7374bfe3740f59f0f04759722950930a6ec06e05892bda890d7d10b8fb9701adint, 0x5e82d966a2c5f67ba7fe7693bbb489b534ea6d38c80586ce11a13ca0ce48efb2int);
    let e = primes::lemma_chain_square(radix::prime(), p_root(), e, 0x5e82d966a2c5f67ba7fe7693bbb489b534ea6d38c80586ce11a13ca0ce48efb2int, 0x32018dbca6c2d15a87ecacb643fb5b22717ffe896d86cdfb62aa032e8d4ef0dint);
    let e = primes::lemma_chain_square(radix::prime(), p_root(), e, 0x32018dbca6c2d15a87ecacb643fb5b22717ffe896d86cdfb62aa032e8d4ef0dint, 0x4d72af793f012f3144a98a1b96ccd45a7144dcf75fd557d92941d9d9b6f1a811int);
    let e = primes::lemma_chain_double(radix::prime(), p_root(), e, 0x4d72af793f012f3144a98a1b96ccd45a7144dcf75fd557d92941d9d9b6f1a811int, 0x7e512d95543c42b85934fbc4755dd9900978d3eb990c380637be8ccbc75cbfb5int);
    let e = primes::lemma_chain_square(radix::prime(), p_root(), e, 0x7e512d95543c42b85934fbc4755dd9900978d3eb990c380637be8ccbc75cbfb5int, 0x3fb7fda957cff97a18f25d50d2025558a4af39169f1c0afe615a2c2e8be44016int);
    let e = primes::lemma_chain_square(radix::prime(), p_root(), e, 0x3fb7fda957cff97a18f25d50d2025558a4af39169f1c0afe615a2c2e8be44016int, 0x3ed15abdadd1691bd68bf917ac7d495bafeae9413ec5b655bfd7767c8fbf5878int);
    let e = primes::lemma_chain_double(radix::prime(), p_root(), e, 0x3ed15abdadd1691bd68bf917ac7d495bafeae9413ec5b655bfd7767c8fbf5878int, 0x4f60f56b97b0483c85cb43c946f5fa5c16d475f91ab44f7207cf6a82fee3ea1int);
    let e = primes::lemma_chain_double(radix::prime(), p_root(), e, 0x4f60f56b97b0483c85cb43c946f5fa5c16d475f91ab44f7207cf6a82fee3ea1int, 0x3ed5894d9c8c637b1b5e44a8d33558c184a676a4113fdf95baf9a90731f836d7int);
    let e = primes::lemma_chain_square(radix::prime(), p_root(), e, 0x3ed5894d9c8c637b1b5e44a8d33558c184a676a4113fdf95baf9a90731f836d7int, 0x7aec489208ba02e91257d345b6ff9cdaeaf37db31c57c05b786554b186a99333int);
    let e = primes::lemma_chain_double(radix::prime(), p_root(), e, 0x7aec489208ba02e91257d345b6ff9cdaeaf37db31c57c05b786554b186a99333int, 0xb7edfd62ff33158b2442ed2e6b44d71b84cd98f4b96bb64dbec65398adf4f2eint);
    let e = primes::lemma_chain_double(radix::prime(), p_root(), e, 0xb7edfd62ff33158b2442ed2e6b44d71b84cd98f4b96bb64dbec65398adf4f2eint, 0x18cc47d910ade64b9219115ac8c50c3f71135f0f96896774123cf74de689714cint);
    let e = primes::lemma_chain_square(radix::prime(), p_root(), e, 0x18cc47d910ade64b9219115ac8c50c3f71135f0f96896774123cf74de689714cint, 0x7be1914630ca25aad4af9bf3f17d6b1b3288e939f0e9059f9245d83365cd848cint);
    let e = primes::lemma_chain_double(radix::prime(), p_root(), e, 0x7be1914630ca25aad4af9bf3f17d6b1b3288e939f0e9059f9245d83365cd848cint, 0x6e507e549ad5e64a8bfd4af49a8fb97e248028e3ab018df80ced2bc264dbff3fint);
    let e = primes::lemma_chain_double(radix::prime(), p_root(), e, 0x6e507e549ad5e64a8bfd4af49a8fb97e248028e3ab018df80ced2bc264dbff3fint, 0x606d0d7c8b4b26c1f9ece87d6aa9aa7603936289dea9f90fdb453fb421436947int);
    let e = primes::lemma_chain_double(radix::prime(), p_root(), e, 0x606d0d7c8b4b26c1f9ece87d6aa9aa7603936289dea9f90fdb453fb421436947int, 0x538173be31f59da19123892d8f3f11924dc3e609b971ac13b3d0e9a9f1dea70dint);
}

proof fn lemma_p_power_5()
    requires
        pow(p_root(), 0x1575f18d6129fa1e65859957570c9b7nat) % radix::prime() == 0x538173be31f59da19123892d8f3f11924dc3e609b971ac13b3d0e9a9f1dea70dint,
    ensures
        pow(p_root(), 0x1575f18d6129fa1e65859957570c9b7d9b322nat) % radix::prime() == 0x5810a04f1cd81ed8e7cd3241f4285462560e114366e53b1b55eb4d07055dfab2int,
{
    let e: nat = 0x1575f18d6129fa1e65859957570c9b7nat;
    let e = primes::lemma_chain_double(radix::prime(), p_root(), e, 0x538173be31f59da19123892d8f3f11924dc3e609b971ac13b3d0e9a9f1dea70dint, 0x66a2a0f4c3aafddbaeb0c7d5906a1dfa6e9b528157bd721315aee627d944582fint);
    let e = primes::lemma_chain_double(radix::prime(), p_root(), e, 0x66a2a0f4c3aafddbaeb0c7d5906a1dfa6e9b528157bd721315aee627d944582fint, 0x74f68d68b39d69a0f68f599db6b855424208d28e995d11d5756ea63c3ec92f6cint);
    let e = primes::lemma_chain_square(radix::prime(), p_root(), e, 0x74f68d68b39d69a0f68f599db6b855424208d28e995d11d5756ea63c3ec92f6cint, 0x2d7db69b1d28df6956b9bc26a561eab3a4f91ed271293b3a43b5164e32610899int);
    let e = primes::lemma_chain_double(radix::prime(), p_root(), e, 0x2d7db69b1d28df6956b9bc26a561eab3a4f91ed271293b3a43b5164e32610899int, 0x786736e79aae253961a086bb2d39e67e54aa0736b977793ecebf883cec25e3d5int);
    let e = primes::lemma_chain_double(radix::prime(), p_root(), e, 0x786736e79aae253961a086bb2d39e67e54aa0736b977793ecebf883cec25e3d5int, 0x1c27e72bcf7bd118ac0605dc8d0254edd190c0eab7e3d097740f1f9f8fcc703bint);
    let e = primes::lemma_chain_square(radix::prime(), p_root(), e, 0x1c27e72bcf7bd118ac0605dc8d0254edd190c0eab7e3d097740f1f9f8fcc703bint, 0x3662fbf29d4a5453e74ffa5345b5ccb54c96630512014d4791418e2052a8aa5dint);
    let e = primes::lemma_chain_square(radix::prime(), p_root(), e, 0x3662fbf29d4a5453e74ffa5345b5ccb54c96630512014d4791418e2052a8aa5dint, 0x516cc47a0a2f85fdebb43217d0baf54a9f0683131d05e05ebde75bc1aab21a55int);
    let e = primes::lemma_chain_double(radix::prime(), p_root(), e, 0x516cc47a0a2f85fdebb43217d0baf54a9f0683131d05e05ebde75bc1aab21a55int, 0x195ed3c5dc7233d332a201c682a0f46dadd2c6adcef5630aa9c9b431303606e8int);
    let e = primes::lemma_chain_double(radix::prime(), p_root(), e, 0x195ed3c5dc7233d332a201c682a0f46dadd2c6adcef5630aa9c9b431303606e8int, 0x7173af3fe151203b29466396bcfcc94959879dd1743bc64c5433da4a71b8d1deint);
    let e = primes::lemma_chain_square(radix::prime(), p_root(), e, 0x7173af3fe151203b29466396bcfcc94959879dd1743bc64c5433da4a71b8d1deint, 0x3f1cb0cfb5c7bfb88b009016bdaf1853284d2a9d440466646002d303b4c007a4int);
    let e = primes::lemma_chain_double(radix::prime(), p_root(), e, 0x3f1cb0cfb5c7bfb88b009016bdaf1853284d2a9d440466646002d303b4c007a4int, 0x5547cc0bd75a736841ad379b26a020bdaa28e27d71542ea15a8053f8e7cec00dint);
    let e = primes::lemma_chain_double(radix::prime(), p_root(), e, 0x5547cc0bd75a736841ad379b26a020bdaa28e27d71542ea15a8053f8e7cec00dint, 0x3717d7adf44608679bca56c5cc6a3ea886410c981ede811a7ddb7d26c02b1211int);
    let e = primes::lemma_chain_square(radix::prime(), p_root(), e, 0x3717d7adf44608679bca56c5cc6a3ea886410c981ede811a7ddb7d26c02b1211int, 0x609263cb4b635d590b4aa64de6a74b6398e039f461811ff9980b709bb5ab37b3int);
    let e = primes::lemma_chain_square(radix::prime(), p_root(), e, 0x609263cb4b635d590b4aa64de6a74b6398e039f461811ff9980b709bb5ab37b3int, 0x5b03ad4188eb393a96c354149435d01940a62f450414284d3b6b75cc817b86e2int);
    let e = primes::lemma_chain_double(radix::prime(), p_root(), e, 0x5b03ad4188eb393a96c354149435d01940a62f450414284d3b6b75cc817b86e2int, 0x7602357af2e85080d60895e0816dd85a38a973254e4a98138fe0c710b3b1d855int);
    let e = primes::lemma_chain_double(radix::prime(), p_root(), e, 0x7602357af2e85080d60895e0816dd85a38a973254e4a98138fe0c710b3b1d855int, 0x12aeff289d2a226b619fc1a40761c2f0d84af16b250312651854fbff6ca6a292int);
    let e = primes::lemma_chain_square(radix::prime(), p_root(), e, 0x12aeff289d2a226b619fc1a40761c2f0d84af16b250312651854fbff6ca6a292int, 0x375b8bb9867b766b8bf1e874a48fdd7f28cc015deafd91de7af634d34e37eb67int);
    let e = primes::lemma_chain_square(radix::prime(), p_root(), e, 0x375b8bb9867b766b8bf1e874a48fdd7f28cc015deafd91de7af634d34e37eb67int, 0x49e400bb6eecb5bb35a63d70a3b14d383697a2a1066295456ac571acb5fe1673int);
    let e = primes::lemma_chain_double(radix::prime(), p_root(), e, 0x49e400bb6eecb5bb35a63d70a3b14d383697a2a1066295456ac571acb5fe1673int, 0x3618f0c604266310db1a7c87782d3a3d9c7e5d35fb8191e51bcf595ab79c25b2int);
    let e = primes::lemma_chain_square(radix::prime(), p_root(), e, 0x3618f0c604266310db1a7c87782d3a3d9c7e5d35fb8191e51bcf595ab79c25b2int, 0x5cb23a07f0029392f6e377875706d02f20992fdf2a2241e0b4fdb4585212bce7int);
    let e = primes::lemma_chain_square(radix::prime(), p_root(), e, 0x5cb23a07f0029392f6e377875706d02f20992fdf2a2241e0b4fdb4585212bce7int, 0x3a17e061dd8da486f43ea02de964c7da16072d41e1a3653e74aefe745848021aint);
    let e = primes::lemma_chain_square(radix::prime(), p_root(), e, 0x3a17e061dd8da486f43ea02de964c7da16072d41e1a3653e74aefe745848021aint, 0x3307c8530ac39ebbf5db17b92442821a11572fe1d1c4025906708a5662b4ad60int);
    let e = primes::lemma_chain_double(radix::prime(), p_root(), e, 0x3307c8530ac39ebbf5db17b92442821a11572fe1d1c4025906708a5662b4ad60int, 0x2cb7a64ad91c6e00d3681637a662cc18f50fecdcf86de3454a38379b5ea55c1bint);
    let e = primes::lemma_chain_square(radix::prime(), p_root(), e, 0x2cb7a64ad91c6e00d3681637a662cc18f50fecdcf86de3454a38379b5ea55c1bint, 0x5810a04f1cd81ed8e7cd3241f4285462560e114366e53b1b55eb4d07055dfab2int);
}

proof fn lemma_p_power_6()
    requires
        pow(p_root(), 0x1575f18d6129fa1e65859957570c9b7d9b322nat) % radix::prime() == 0x5810a04f1cd81ed8e7cd3241f4285462560e114366e53b1b55eb4d07055dfab2int,
    ensures
        pow(p_root(), 0x1575f18d6129fa1e65859957570c9b7d9b32288cf38nat) % radix::prime() == 0x2a5ea2c514438720624e33dedaa9fbe605e55ace3a1e9aac58494d9b1fd482ccint,
{
    let e: nat = 0x1575f18d6129fa1e65859957570c9b7d9b322nat;
    let e = primes::lemma_chain_double(radix::prime(), p_root(), e, 0x5810a04f1cd81ed8e7cd3241f4285462560e114366e53b1b55eb4d07055dfab2int, 0x3c4e7c96679b08858d322eec02fae9e31f39245bddb173a0b7497fd59442e392int);
    let e = primes::lemma_chain_square(radix::prime(), p_root(), e, 0x3c4e7c96679b08858d322eec02fae9e31f39245bddb173a0b7497fd59442e392int, 0xb972427e4c493c9f1c0b75916300016d8512f160839cce8e768552b972af872int);
    let e = primes::lemma_chain_square(radix::prime(), p_root(), e, 0xb972427e4c493c9f1c0b75916300016d8512f160839cce8e768552b972af872int, 0x71ab9d963eae7ec2edd9a35fbb7783f3a0e59c1397a457477e09dcf1994adb35int);
    let e = primes::lemma_chain_square(radix::prime(), p_root(), e, 0x71ab9d963eae7ec2edd9a35fbb7783f3a0e59c1397a457477e09dcf1994adb35int, 0x6aaa7687155754d752cd79d9700db5927e1eb54bd705463382dd210abb661ab5int);
    let e = primes::lemma_chain_double(radix::prime(), p_root(), e, 0x6aaa7687155754d752cd79d9700db5927e1eb54bd705463382dd210abb661ab5int, 0x4e2098922f5fcdc40905febe65676eb139042647586106a600d457ef1a27c1fdint);
    let e = primes::lemma_chain_square(radix::prime(), p_root(), e, 0x4e2098922f5fcdc40905febe65676eb139042647586106a600d457ef1a27c1fdint, 0x6049bb9862b7dad5420b469e9c5f643a3d67fb1933538f3a9ac6c2bb90c260b6int);
    let e = primes::lemma_chain_square(radix::prime(), p_root(), e, 0x6049bb9862b7dad5420b469e9c5f643a3d67fb1933538f3a9ac6c2bb90c260b6int, 0x431d4ca5f9a6619d484fdbecc62cf2c34aeb433192ec227869d926aa800c61cfint);
    let e = primes::lemma_chain_square(radix::prime(), p_root(), e, 0x431d4ca5f9a6619d484fdbecc62cf2c34aeb433192ec227869d926aa800c61cfint, 0x734cd3108ddf15e0e5e1c19aa5df9297e03066eb0567d3349f47da79e01335f7int);
    let e = primes::lemma_chain_double(radix::prime(), p_root(), e, 0x734cd3108ddf15e0e5e1c19aa5df9297e03066eb0567d3349f47da79e01335f7int, 0x70f5c6ff6fdb235af85416f9cbf49bea826ebd1eb1a29d7ea845ddf4c08e98faint);
    let e = primes::lemma_chain_double(radix::prime(), p_root(), e, 0x70f5c6ff6fdb235af85416f9cbf49bea826ebd1eb1a29d7ea845ddf4c08e98faint, 0x16f864faf980e62709a036cc1ef05b5d2353e5ce38525fcb8468fdd7d31741int);
    let e = primes::lemma_chain_square(radix::prime(), p_root(), e, 0x16f864faf980e62709a036cc1ef05b5d2353e5ce38525fcb8468fdd7d31741int, 0x1db381927f44ae1e9dd744d1726181f09da6ed1c763351fb9d1f5c5c8d2664ceint);
    let e = primes::lemma_chain_square(radix::prime(), p_root(), e, 0x1db381927f44ae1e9dd744d1726181f09da6ed1c763351fb9d1f5c5c8d2664ceint, 0x71be1da760f4c39d9e1d7af6a79959da6f603a79ace48605ee447483ad957fcint);
    let e = primes::lemma_chain_double(radix::prime(), p_root(), e, 0x71be1da760f4c39d9e1d7af6a79959da6f603a79ace48605ee447483ad957fcint, 0x4175bdeebfcb5d5893a0a49beaede9237daed6ad8340cc31b4f2daf069e7d4a1int);
    let e = primes::lemma_chain_double(radix::prime(), p_root(), e, 0x4175bdeebfcb5d5893a0a49beaede9237daed6ad8340cc31b4f2daf069e7d4a1int, 0x28b2f106994517157bad4ed8678d0f2842ee2f9c9e7247e9b2985047955e9b45int);
    let e = primes::lemma_chain_double(radix::prime(), p_root(), e, 0x28b2f106994517157bad4ed8678d0f2842ee2f9c9e7247e9b2985047955e9b45int, 0x6d9fbb6d27590a1c58503f40c525a598ffe4304bcf4f19f5ea41fe34a317b14dint);
    let e = primes::lemma_chain_double(radix::prime(), p_root(), e, 0x6d9fbb6d27590a1c58503f40c525a598ffe4304bcf4f19f5ea41fe34a317b14dint, 0x483aa37005b23ce542f013a0414090aabce56c357076706553f90ebabd10a55aint);
    let e = primes::lemma_chain_square(radix::prime(), p_root(), e, 0x483aa37005b23ce542f013a0414090aabce56c357076706553f90ebabd10a55aint, 0x5f8984f906d5441c391eb22925f43727c64cb6d8d120c7c028480661a0aad9edint);
    let e = primes::lemma_chain_square(radix::prime(), p_root(), e, 0x5f8984f906d5441c391eb22925f43727c64cb6d8d120c7c028480661a0aad9edint, 0x1d4ae2fa1e3969eff503165d9c0e164de64116fe5a5c53d2febff879f91d02e8int);
    let e = primes::lemma_chain_double(radix::prime(), p_root(), e, 0x1d4ae2fa1e3969eff503165d9c0e164de64116fe5a5c53d2febff879f91d02e8int, 0x2d1b1fed529e781c92b544ffcc8305e7d165bc18a952dc4e52c7fe0433aa3317int);
    let e = primes::lemma_chain_double(radix::prime(), p_root(), e, 0x2d1b1fed529e781c92b544ffcc8305e7d165bc18a952dc4e52c7fe0433aa3317int, 0x2c8fb7907d4822a8a4d7245fa8182f0ac022a15a0db22e9c6db2b64c8cda31f3int);
    let e = primes::lemma_chain_double(radix::prime(), p_root(), e, 0x2c8fb7907d4822a8a4d7245fa8182f0ac022a15a0db22e9c6db2b64c8cda31f3int, 0x65d59d4119460aceae578286940e5607c900a046a26cb3f16736e1607ecfb9eeint);
    let e = primes::lemma_chain_square(radix::prime(), p_root(), e, 0x65d59d4119460aceae578286940e5607c900a046a26cb3f16736e1607ecfb9eeint, 0x666085ad24b2f2dda30823d0e147b54d255a48d44dca7879c43a4beb6437f04int);
    let e = primes::lemma_chain_square(radix::prime(), p_root(), e, 0x666085ad24b2f2dda30823d0e147b54d255a48d44dca7879c43a4beb6437f04int, 0x5cbf708319f71ae6b02c4f3c1f5c85b93278b717b882863c033bd4a8974fef09int);
    let e = primes::lemma_chain_square(radix::prime(), p_root(), e, 0x5cbf708319f71ae6b02c4f3c1f5c85b93278b717b882863c033bd4a8974fef09int, 0x2a5ea2c514438720624e33dedaa9fbe605e55ace3a1e9aac58494d9b1fd482ccint);
}

proof fn lemma_p_power_7()
    requires
        pow(p_root(), 0x1575f18d6129fa1e65859957570c9b7d9b32288cf38nat) % radix::prime() == 0x2a5ea2c514438720624e33dedaa9fbe605e55ace3a1e9aac58494d9b1fd482ccint,
    ensures
        pow(p_root(), 0x1575f18d6129fa1e65859957570c9b7d9b32288cf3835bf00nat) % radix::prime() == 0x2a25440ed8fe4dc8b6c08632942cb9aa89bfed75b475ff0e6b3693ec46ff4d31int,
{
    let e: nat = 0x1575f18d6129fa1e65859957570c9b7d9b32288cf38nat;
    let e = primes::lemma_chain_square(radix::prime(), p_root(), e, 0x2a5ea2c514438720624e33dedaa9fbe605e55ace3a1e9aac58494d9b1fd482ccint, 0x6427967fa190c1210d62cdce84c941dff01bedd6cd8b6b8536dfdf292224ab1bint);
    let e = primes::lemma_chain_square(radix::prime(), p_root(), e, 0x6427967fa190c1210d62cdce84c941dff01bedd6cd8b6b8536dfdf292224ab1bint, 0x33932da903b6f4f883d8ac0281a1509642b69d1f9e88c5607420c7e62801d08aint);
    let e = primes::lemma_chain_double(radix::prime(), p_root(), e, 0x33932da903b6f4f883d8ac0281a1509642b69d1f9e88c5607420c7e62801d08aint, 0x165d1d4135f4b9a9afdfb41ce7dadd6928e841d0ebed4b907c5ee1c82b4198e8int);
    let e = primes::lemma_chain_double(radix::prime(), p_root(), e, 0x165d1d4135f4b9a9afdfb41ce7dadd6928e841d0ebed4b907c5ee1c82b4198e8int, 0x647c8a8d2eb8ad1c6f00da3c745146835b5c42ff2de64d7c2345defe1d68f06eint);
    let e = primes::lemma_chain_square(radix::prime(), p_root(), e, 0x647c8a8d2eb8ad1c6f00da3c745146835b5c42ff2de64d7c2345defe1d68f06eint, 0x6802e818520dd7868199b56365b3dce67be4bbbc6538f37533ae47823af5af44int);
    let e = primes::lemma_chain_double(radix::prime(), p_root(), e, 0x6802e818520dd7868199b56365b3dce67be4bbbc6538f37533ae47823af5af44int, 0x1a5e991d73d3678ea6e26275de04ad788e5500fe949fa7f0d93072399a5ffcc8int);
    let e = primes::lemma_chain_square(radix::prime(), p_root(), e, 0x1a5e991d73d3678ea6e26275de04ad788e5500fe949fa7f0d93072399a5ffcc8int, 0x2a0ac36d9fbd71d2df3a4cadd6e98f88f6c762ade33c38e1c63d1915758dbd9int);
    let e = primes::lemma_chain_double(radix::prime(), p_root(), e, 0x2a0ac36d9fbd71d2df3a4cadd6e98f88f6c762ade33c38e1c63d1915758dbd9int, 0x63cadc4a3ab8e134284ec412edb8aaeaf363392e2ba85fe4d7928ea20fde9690int);
    let e = primes::lemma_chain_double(radix::prime(), p_root(), e, 0x63cadc4a3ab8e134284ec412edb8aaeaf363392e2ba85fe4d7928ea20fde9690int, 0x3c42f5f2ec61632dab6b9720eb1d390decd8ebae8b0613e2b7fe47b225d70745int);
    let e = primes::lemma_chain_square(radix::prime(), p_root(), e, 0x3c42f5f2ec61632dab6b9720eb1d390decd8ebae8b0613e2b7fe47b225d70745int, 0x3fe4332b65078599a85c651774a1a1fa37ebedfb1c9a00496a5e9b1c0c446c6fint);
    let e = primes::lemma_chain_double(radix::prime(), p_root(), e, 0x3fe4332b65078599a85c651774a1a1fa37ebedfb1c9a00496a5e9b1c0c446c6fint, 0x7972e87301230fe6309066e42017223ebd03b655c3a24bf9e00049d2673668b1int);
    let e = primes::lemma_chain_double(radix::prime(), p_root(), e, 0x7972e87301230fe6309066e42017223ebd03b655c3a24bf9e00049d2673668b1int, 0x4e04e4f41001492c36020a49eafcf7433795caf7676808d6a2432691102006abint);
    let e = primes::lemma_chain_double(radix::prime(), p_root(), e, 0x4e04e4f41001492c36020a49eafcf7433795caf7676808d6a2432691102006abint, 0x7f0e7560f7f9511beabf88ae9d12a1f6d33110ad1e33831f9cc4479af8ae4c46int);
    let e = primes::lemma_chain_double(radix::prime(), p_root(), e, 0x7f0e7560f7f9511beabf88ae9d12a1f6d33110ad1e33831f9cc4479af8ae4c46int, 0x39b2c7390268ebbab5c19a1364b53bd1b63dc114a7f7bc793d1f4ef571a1224cint);
    let e = primes::lemma_chain_double(radix::prime(), p_root(), e, 0x39b2c7390268ebbab5c19a1364b53bd1b63dc114a7f7bc793d1f4ef571a1224cint, 0x11cb1b2172526b6c9e7316cf5dc781307ff24035c15c17ff18936ea0ffcd3966int);
    let e = primes::lemma_chain_double(radix::prime(), p_root(), e, 0x11cb1b2172526b6c9e7316cf5dc781307ff24035c15c17ff18936ea0ffcd3966int, 0x34965e54e00f2b9726b8e0161a30595a56b8df097bd83e1b2c4afe4ba70dd15fint);
    let e = primes::lemma_chain_square(radix::prime(), p_root(), e, 0x34965e54e00f2b9726b8e0161a30595a56b8df097bd83e1b2c4afe4ba70dd15fint, 0x38f96d9178f90c40c2bec85fa223580382cb67d690d087dca234e40de8baf2cbint);
    let e = primes::lemma_chain_square(radix::prime(), p_root(), e, 0x38f96d9178f90c40c2bec85fa223580382cb67d690d087dca234e40de8baf2cbint, 0x13ab3e86fc4cd5783ec28221bf1d290e75df6129cfb4a0cfcf6e85a75779de75int);
    let e = primes::lemma_chain_square(radix::prime(), p_root(), e, 0x13ab3e86fc4cd5783ec28221bf1d290e75df6129cfb4a0cfcf6e85a75779de75int, 0x73b1d083bafbae88ccf2d90489e38e480c42326f83a7aee065788070e24b20bint);
    let e = primes::lemma_chain_square(radix::prime(), p_root(), e, 0x73b1d083bafbae88ccf2d90489e38e480c42326f83a7aee065788070e24b20bint, 0x21134695adb30e4f572ae6b7a46ca2ea787d2b502887c9dd6618a850549d5daint);
    let e = primes::lemma_chain_square(radix::prime(), p_root(), e, 0x21134695adb30e4f572ae6b7a46ca2ea787d2b502887c9dd6618a850549d5daint, 0x1acfaa4fae8b28554fa8ea5e6a9ff9701013649c12c1d221a3416ce9fcb75a63int);
    let e = primes::lemma_chain_square(radix::prime(), p_root(), e, 0x1acfaa4fae8b28554fa8ea5e6a9ff9701013649c12c1d221a3416ce9fcb75a63int, 0x139ea97ea9aaa3c6d9047451ae77412365bb25357b2142016d72a7fdebc86e71int);
    let e = primes::lemma_chain_square(radix::prime(), p_root(), e, 0x139ea97ea9aaa3c6d9047451ae77412365bb25357b2142016d72a7fdebc86e71int, 0x139f897fa7527cd5228b8fba14dd0b1af0a017dde67b593f2cd9611dad049e1eint);
    let e = primes::lemma_chain_square(radix::prime(), p_root(), e, 0x139f897fa7527cd5228b8fba14dd0b1af0a017dde67b593f2cd9611dad049e1eint, 0x2a25440ed8fe4dc8b6c08632942cb9aa89bfed75b475ff0e6b3693ec46ff4d31int);
}

proof fn lemma_p_power_8()
    requires
        pow(p_root(), 0x1575f18d6129fa1e65859957570c9b7d9b32288cf3835bf00nat) % radix::prime() == 0x2a25440ed8fe4dc8b6c08632942cb9aa89bfed75b475ff0e6b3693ec46ff4d31int,
    ensures
        pow(p_root(), 0x1575f18d6129fa1e65859957570c9b7d9b32288cf3835bf009131f6nat) % radix::prime() == 0x779804032778e125b8eb79b772d9d7b3e73093f720b7a759309e5e4c8d850ed8int,
{
    let e: nat = 0x1575f18d6129fa1e65859957570c9b7d9b32288cf3835bf00nat;
    let e = primes::lemma_chain_double(radix::prime(), p_root(), e, 0x2a25440ed8fe4dc8b6c08632942cb9aa89bfed75b475ff0e6b3693ec46ff4d31int, 0x67e32d3208b5f89b634d005c60af090d4c13d0d1bc2b543d01f38a23dd97e240int);
    let e = primes::lemma_chain_square(radix::prime(), p_root(), e, 0x67e32d3208b5f89b634d005c60af090d4c13d0d1bc2b543d01f38a23dd97e240int, 0x5e0c9d13f09097a57f414fa5a04d4f8a4dec605213e9c732df7c1cd2d4d0b1fbint);
    let e = primes::lemma_chain_square(radix::prime(), p_root(), e, 0x5e0c9d13f09097a57f414fa5a04d4f8a4dec605213e9c732df7c1cd2d4d0b1fbint, 0x10228766829c5769728ccdf2982492e5c1d86c585707bd73ee54ab5c2acf180dint);
    let e = primes::lemma_chain_double(radix::prime(), p_root(), e, 0x10228766829c5769728ccdf2982492e5c1d86c585707bd73ee54ab5c2acf180dint, 0xc4819ecd97df27be252690f4294557419be5bd641244614449f73c065bbe038int);
    let e = primes::lemma_chain_square(radix::prime(), p_root(), e, 0xc4819ecd97df27be252690f4294557419be5bd641244614449f73c065bbe038int, 0x53cba644c6d3ec61124c0d10583438cbeb0ec56e81135ab2c6b982d072614973int);
    let e = primes::lemma_chain_square(radix::prime(), p_root(), e, 0x53cba644c6d3ec61124c0d10583438cbeb0ec56e81135ab2c6b982d072614973int, 0x22e7a766b1b29885e4a84b8b8b3e80e04db4ce86c429be706d7d58f4b1277bd3int);
    let e = primes::lemma_chain_square(radix::prime(), p_root(), e, 0x22e7a766b1b29885e4a84b8b8b3e80e04db4ce86c429be706d7d58f4b1277bd3int, 0xc1bc07645516541173e4e301008534c701eb3eb04a3bcd5c77e836df66c70dcint);
    let e = primes::lemma_chain_double(radix::prime(), p_root(), e, 0xc1bc07645516541173e4e301008534c701eb3eb04a3bcd5c77e836df66c70dcint, 0x195f0e3e05523407798d1eb49e527df022b9eaf5009f3526a7d130d7225c2e86int);
    let e = primes::lemma_chain_square(radix::prime(), p_root(), e, 0x195f0e3e05523407798d1eb49e527df022b9eaf5009f3526a7d130d7225c2e86int, 0x113aa7bd93e66392711b5defb34db615092fc9052e3f68d03b557cb65ca9389bint);
    let e = primes::lemma_chain_square(radix::prime(), p_root(), e, 0x113aa7bd93e66392711b5defb34db615092fc9052e3f68d03b557cb65ca9389bint, 0x50b82f4da7c8faf8b36a30e336d8a44fa7a59aa3872977f5568ec48c6101ba2dint);
    let e = primes::lemma_chain_double(radix::prime(), p_root(), e, 0x50b82f4da7c8faf8b36a30e336d8a44fa7a59aa3872977f5568ec48c6101ba2dint, 0x4583c61e0ef5be58348bb7bf8664d811a46eb6acd73cb13fe6aaae5b46a2a2c4int);
    let e = primes::lemma_chain_double(radix::prime(), p_root(), e, 0x4583c61e0ef5be58348bb7bf8664d811a46eb6acd73cb13fe6aaae5b46a2a2c4int, 0x6384f16fd1d5093249eee25780b6782c711954d53ae511dc669f643f15b10d11int);
    let e = primes::lemma_chain_square(radix::prime(), p_root(), e, 0x6384f16fd1d5093249eee25780b6782c711954d53ae511dc669f643f15b10d11int, 0x355de6543e533591bab9e6fd9baf068c4fb0cb2dbc762eab424f0bab06056382int);
    let e = primes::lemma_chain_square(radix::prime(), p_root(), e, 0x355de6543e533591bab9e6fd9baf068c4fb0cb2dbc762eab424f0bab06056382int, 0xd826b69a278e8d0c716157124d06fea88ad392e27133ed4ba3a93c9ea0ad0cdint);
    let e = primes::lemma_chain_square(radix::prime(), p_root(), e, 0xd826b69a278e8d0c716157124d06fea88ad392e27133ed4ba3a93c9ea0ad0cdint, 0x59e07f97b59bda285f2c25a8a8a6a17bd3ee10bb9e5ef318d41b8b27f56fa6f5int);
    let e = primes::lemma_chain_double(radix::prime(), p_root(), e, 0x59e07f97b59bda285f2c25a8a8a6a17bd3ee10bb9e5ef318d41b8b27f56fa6f5int, 0x62ad4258364f9441a6b28e125430e34b8646f0376c9e090048e8b7c72aae82a3int);
    let e = primes::lemma_chain_double(radix::prime(), p_root(), e, 0x62ad4258364f9441a6b28e125430e34b8646f0376c9e090048e8b7c72aae82a3int, 0x55d03e89ec01f5d6f6b80c0b24855ac333275f3c057fde0589a588f7f23f885int);
    let e = primes::lemma_chain_double(radix::prime(), p_root(), e, 0x55d03e89ec01f5d6f6b80c0b24855ac333275f3c057fde0589a588f7f23f885int, 0x463cd9a7b96bb1993f0e203df94b9028a01055beb696b758ba2f4e6f2c44db10int);
    let e = primes::lemma_chain_double(radix::prime(), p_root(), e, 0x463cd9a7b96bb1993f0e203df94b9028a01055beb696b758ba2f4e6f2c44db10int, 0x1dbdba9f68430cf7f285cef5e342f4687041adfe53fe6ca12532ecec8f6a2d0aint);
    let e = primes::lemma_chain_double(radix::prime(), p_root(), e, 0x1dbdba9f68430cf7f285cef5e342f4687041adfe53fe6ca12532ecec8f6a2d0aint, 0x7d7efe3e0e1199b104d853caa3c97f3af088dca01b2b86d3eec324ecf126384eint);
    let e = primes::lemma_chain_square(radix::prime(), p_root(), e, 0x7d7efe3e0e1199b104d853caa3c97f3af088dca01b2b86d3eec324ecf126384eint, 0x5ec98fb5398af6ea109abef46f890f844aafd57050ec756783caece7bf76befbint);
    let e = primes::lemma_chain_double(radix::prime(), p_root(), e, 0x5ec98fb5398af6ea109abef46f890f844aafd57050ec756783caece7bf76befbint, 0x7aa1084309d5b975250adfb647d4dd2ea4ddf91feddc4f7c3b18a64e13db31c7int);
    let e = primes::lemma_chain_double(radix::prime(), p_root(), e, 0x7aa1084309d5b975250adfb647d4dd2ea4ddf91feddc4f7c3b18a64e13db31c7int, 0x497c251074a704d666663e7fff815cff157ae6ab315ae2b326278833f678b657int);
    let e = primes::lemma_chain_square(radix::prime(), p_root(), e, 0x497c251074a704d666663e7fff815cff157ae6ab315ae2b326278833f678b657int, 0x779804032778e125b8eb79b772d9d7b3e73093f720b7a759309e5e4c8d850ed8int);
}

proof fn lemma_p_power_9()
    requires
        pow(p_root(), 0x1575f18d6129fa1e65859957570c9b7d9b32288cf3835bf009131f6nat) % radix::prime() == 0x779804032778e125b8eb79b772d9d7b3e73093f720b7a759309e5e4c8d850ed8int,
    ensures
        pow(p_root(), 0xabaf8c6b094fd0f32c2ccabab864dbecd99144679c1adf804898fb2042bnat) % radix::prime() == 0x7fffffffffffffffffffffffffffffffffffffffffffffffffffffffffffffecint,
{
    let e: nat = 0x1575f18d6129fa1e65859957570c9b7d9b32288cf3835bf009131f6nat;
    let e = primes::lemma_chain_square(radix::prime(), p_root(), e, 0x779804032778e125b8eb79b772d9d7b3e73093f720b7a759309e5e4c8d850ed8int, 0x5f5034269976643cb9d8e03dd57ccd231fa16a66c79d51a66c879583ab67766dint);
    let e = primes::lemma_chain_double(radix::prime(), p_root(), e, 0x5f5034269976643cb9d8e03dd57ccd231fa16a66c79d51a66c879583ab67766dint, 0x2abd98f7f850da0dee194a1456a7a91096c04a31e0cff3ad732ace86915913feint);
    let e = primes::lemma_chain_square(radix::prime(), p_root(), e, 0x2abd98f7f850da0dee194a1456a7a91096c04a31e0cff3ad732ace86915913feint, 0x6beb2e87c09f3ee550f7818cfc8601289022ed61e88a508acf5568b12972c6a2int);
    let e = primes::lemma_chain_square(radix::prime(), p_root(), e, 0x6beb2e87c09f3ee550f7818cfc8601289022ed61e88a508acf5568b12972c6a2int, 0x3882b53e39915aaf95431c9b8b22fc6fd7560cf728094b67374aab3af58ff0dbint);
    let e = primes::lemma_chain_square(radix::prime(), p_root(), e, 0x3882b53e39915aaf95431c9b8b22fc6fd7560cf728094b67374aab3af58ff0dbint, 0x6bed10843b56bb2e857e985fcd9fcc89d1c3470b4609cb26203fb30c9757bb2cint);
    let e = primes::lemma_chain_square(radix::prime(), p_root(), e, 0x6bed10843b56bb2e857e985fcd9fcc89d1c3470b4609cb26203fb30c9757bb2cint, 0x4cdd9483e1c4176679fe1de3f96ec39c89a42fade04cd1fe44968cf088c95333int);
    let e = primes::lemma_chain_square(radix::prime(), p_root(), e, 0x4cdd9483e1c4176679fe1de3f96ec39c89a42fade04cd1fe44968cf088c95333int, 0x1b15a4b81accfeacb8c9cd01e307c602ce67ea77c457d5eac6c39c5657225215int);
    let e = primes::lemma_chain_square(radix::prime(), p_root(), e, 0x1b15a4b81accfeacb8c9cd01e307c602ce67ea77c457d5eac6c39c5657225215int, 0x7665bdb55a01f0d012e89ecceb440abd6ee8d914c3f3296c8c9b4d3d242f444cint);
    let e = primes::lemma_chain_double(radix::prime(), p_root(), e, 0x7665bdb55a01f0d012e89ecceb440abd6ee8d914c3f3296c8c9b4d3d242f444cint, 0x4941af98deb657afe73c48fd10b4e985356fc3d77649ff48861a13f2aff7f1e5int);
    let e = primes::lemma_chain_square(radix::prime(), p_root(), e, 0x4941af98deb657afe73c48fd10b4e985356fc3d77649ff48861a13f2aff7f1e5int, 0x2aeee574e88f830756938e64f44f4c344bce1b27cc1b92306eb01732303e843bint);
    let e = primes::lemma_chain_square(radix::prime(), p_root(), e, 0x2aeee574e88f830756938e64f44f4c344bce1b27cc1b92306eb01732303e843bint, 0x5f1209051ec62933908d7664864b849a9f313c2be2b918ed4c965f59db23092bint);
    let e = primes::lemma_chain_square(radix::prime(), p_root(), e, 0x5f1209051ec62933908d7664864b849a9f313c2be2b918ed4c965f59db23092bint, 0x47006af951dcc9564c5306caeeb65ad2387deb17740fee8e417a965e14051c10int);
    let e = primes::lemma_chain_square(radix::prime(), p_root(), e, 0x47006af951dcc9564c5306caeeb65ad2387deb17740fee8e417a965e14051c10int, 0x27499a931c001d7494ea5944699b9bfa6c77d286d14b934792c1faf057c5d695int);
    let e = primes::lemma_chain_double(radix::prime(), p_root(), e, 0x27499a931c001d7494ea5944699b9bfa6c77d286d14b934792c1faf057c5d695int, 0x5e85d30308438f95d12fcbe6654a93c74655ff1c3498061183dbff28cc3725e5int);
    let e = primes::lemma_chain_square(radix::prime(), p_root(), e, 0x5e85d30308438f95d12fcbe6654a93c74655ff1c3498061183dbff28cc3725e5int, 0x2987107a3dac6cc34695a6fd0b21776ff1bea4954c894b28062bf5bd9a7f2563int);
    let e = primes::lemma_chain_double(radix::prime(), p_root(), e, 0x2987107a3dac6cc34695a6fd0b21776ff1bea4954c894b28062bf5bd9a7f2563int, 0x6843b258f66bf8fe8106342a85fdfcc8607b2d81e5fed66b9e82316ebf66e94int);
    let e = primes::lemma_chain_square(radix::prime(), p_root(), e, 0x6843b258f66bf8fe8106342a85fdfcc8607b2d81e5fed66b9e82316ebf66e94int, 0x5be0842af386f22659e14cd4374779e2d818ed268a24b8e923d4f1a5bd75b33dint);
    let e = primes::lemma_chain_double(radix::prime(), p_root(), e, 0x5be0842af386f22659e14cd4374779e2d818ed268a24b8e923d4f1a5bd75b33dint, 0xc640f1fba0bbcbe990b5939883ac1091634fca6401d13d675be81cb9b45f984int);
    let e = primes::lemma_chain_double(radix::prime(), p_root(), e, 0xc640f1fba0bbcbe990b5939883ac1091634fca6401d13d675be81cb9b45f984int, 0x7fffffffffffffffffffffffffffffffffffffffffffffffffffffffffffffecint);
}

/// 2 is not a square modulo the prime: its power `(p - 1) / 2` is -1.
pub proof fn lemma_two_euler()
    ensures
        pow(2, ((radix::prime() - 1) / 2) as nat) % radix::prime() == radix::prime() - 1,
{
    lemma_p_base_0();
    lemma_p_power_0();
    lemma_p_power_1();
    lemma_p_power_2();
    lemma_p_power_3();
    lemma_p_power_4();
    lemma_p_power_5();
    lemma_p_power_6();
    lemma_p_power_7();
    lemma_p_power_8();
    lemma_p_power_9();
    let n = radix::prime();
    lemma_pow_multiplies(2, 390882, q236() as nat);
    lemma_pow_mod_noop(pow(2, 390882), q236() as nat, n);
    assert(((n - 1) / 2) as nat == 390882 * q236() as nat);
}

/// 2^255 - 19 is prime.
pub proof fn lemma_p_prime()
    ensures
        primes::is_prime(radix::prime()),
{
    lemma_q236_prime();
    lemma_p_base_0();
    lemma_p_power_0();
    lemma_p_power_1();
    lemma_p_power_2();
    lemma_p_power_3();
    lemma_p_power_4();
    lemma_p_power_5();
    lemma_p_power_6();
    lemma_p_power_7();
    lemma_p_power_8();
    lemma_p_power_9();
    let n = radix::prime();
    // The root of the certificate is the square of the one above.
    lemma_pow_adds(2, 390882, 390882);
    lemma_mul_mod_noop_general(pow(2, 390882), pow(2, 390882), n);
    lemma_pow_adds(p_root(), q236() as nat, q236() as nat);
    lemma_mul_mod_noop_general(pow(p_root(), q236() as nat), pow(p_root(), q236() as nat), n);
    lemma_pow_multiplies(p_root(), 2, q236() as nat);
    lemma_pow_adds(p_root(), 1, 1);
    lemma_pow1(p_root());
    lemma_pow_mod_noop(pow(p_root(), 2), q236() as nat, n);
    primes::lemma_certify(
        n,
        q236(),
        781764,
        2,
        0xf1ba0c491eeef83c49fc1b744331bb096d4893142c187431f7b03e61a75a49int,
        0x7acaff384090e983b641a51e1df0807078e467d06ab8164555f0f7fd51653bdcint,
        0,
        0xabaf8c6b094fd0f32c2ccabab864dbecd99144679c1adf804898fb2042cint,
    );
}

} // verus!
