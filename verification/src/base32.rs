//! RFC 4648 base32 without padding, lower case, as Tor writes addresses.

use data_encoding::BASE32_NOPAD;
use vstd::prelude::*;

verus! {

/// Five-bit group `j` of a byte string, most significant bit first; bits past the end
/// are 0.
pub open spec fn group(s: Seq<u8>, j: int) -> int {
    let k = (5 * j) / 8;
    let off = (5 * j) % 8;
    let hi = if k < s.len() {
        s[k] as int
    } else {
        0
    };
    let lo = if k + 1 < s.len() {
        s[k + 1] as int
    } else {
        0
    };
    let window = 256 * hi + lo;
    (if off == 0 {
        window / 2048
    } else if off == 1 {
        window / 1024
    } else if off == 2 {
        window / 512
    } else if off == 3 {
        window / 256
    } else if off == 4 {
        window / 128
    } else if off == 5 {
        window / 64
    } else if off == 6 {
        window / 32
    } else {
        window / 16
    }) % 32
}

/// How many symbols `n` bytes encode to.
pub open spec fn encoded_len(n: int) -> int {
    (8 * n + 4) / 5
}

/// The upper-case symbol of a five-bit group: `A` to `Z`, then `2` to `7`.
pub open spec fn upper_symbol(v: int) -> u8 {
    if v < 26 {
        (65 + v) as u8
    } else {
        (24 + v) as u8
    }
}

/// The lower-case symbol of a five-bit group: `a` to `z`, then `2` to `7`.
pub open spec fn lower_symbol(v: int) -> u8 {
    if v < 26 {
        (97 + v) as u8
    } else {
        (24 + v) as u8
    }
}

/// The upper-case encoding.
pub open spec fn upper_encoding(s: Seq<u8>) -> Seq<u8> {
    Seq::new(encoded_len(s.len() as int) as nat, |j: int| upper_symbol(group(s, j)))
}

/// The lower-case encoding.
pub open spec fn lower_encoding(s: Seq<u8>) -> Seq<u8> {
    Seq::new(encoded_len(s.len() as int) as nat, |j: int| lower_symbol(group(s, j)))
}

pub proof fn lemma_group_range(s: Seq<u8>, j: int)
    ensures
        0 <= group(s, j) < 32,
{
}

/// Groups that lie within the first `m` bytes do not depend on the rest.
pub proof fn lemma_group_prefix(s: Seq<u8>, m: int, j: int)
    requires
        0 <= j,
        0 <= m <= s.len(),
        5 * (j + 1) <= 8 * m,
    ensures
        group(s.take(m), j) == group(s, j),
{
    let k = (5 * j) / 8;
    let off = (5 * j) % 8;
    assert(k < m);
    if k + 1 < m {
        assert(s.take(m)[k + 1] == s[k + 1]);
    } else {
        assert(off <= 3);
    }
}

/// `Encoding::encode_len` of `BASE32_NOPAD` gives the number of symbols for `len` bytes,
/// and does not panic up to `usize::MAX / 512`.
#[verifier::external_body]
fn nopad_encode_len(len: usize) -> (r: usize)
    requires
        len <= usize::MAX / 512,
    ensures
        r == encoded_len(len as int),
{
    BASE32_NOPAD.encode_len(len)
}

/// `Encoding::encode_mut` of `BASE32_NOPAD` fills a buffer of exactly the encoded length
/// with the upper-case encoding of the input.
#[verifier::external_body]
fn nopad_encode_mut(input: &[u8], output: &mut [u8])
    requires
        input@.len() <= usize::MAX / 512,
        old(output)@.len() == encoded_len(input@.len() as int),
    ensures
        final(output)@ == upper_encoding(input@),
{
    BASE32_NOPAD.encode_mut(input, output)
}

/// ASCII lower case of one byte.
fn lower(b: u8) -> (r: u8)
    ensures
        r == if 65 <= b <= 90 {
            (b + 32) as u8
        } else {
            b
        },
{
    if b >= 65 && b <= 90 {
        b + 32
    } else {
        b
    }
}

/// The lower-case encoding of a byte string.
pub fn encode_lower(input: &[u8]) -> (out: Vec<u8>)
    requires
        input@.len() <= usize::MAX / 512,
    ensures
        out@ == lower_encoding(input@),
{
    let n: usize = nopad_encode_len(input.len());
    let mut out: Vec<u8> = Vec::new();
    out.resize(n, 0u8);
    nopad_encode_mut(input, out.as_mut_slice());
    let ghost up = out@;
    for i in 0..n
        invariant
            n == out@.len(),
            n == encoded_len(input@.len() as int),
            up == upper_encoding(input@),
            forall|j: int| 0 <= j < i ==> #[trigger] out@[j] == lower_encoding(input@)[j],
            forall|j: int| i <= j < n ==> #[trigger] out@[j] == up[j],
    {
        proof {
            lemma_group_range(input@, i as int);
            assert(out@[i as int] == up[i as int]);
        }
        let b: u8 = lower(out[i]);
        out.set(i, b);
    }
    assert(out@ =~= lower_encoding(input@));
    out
}

/// Byte `i` of a byte string, and 0 past its end.
pub open spec fn byte_or_zero(s: Seq<u8>, i: int) -> int {
    if 0 <= i < s.len() {
        s[i] as int
    } else {
        0
    }
}

/// The value of a symbol: its place in the alphabet.
pub open spec fn symbol_value(c: u8) -> int {
    "abcdefghijklmnopqrstuvwxyz234567"@.index_of(c as char)
}

/// The symbol of a value is the one at that place in the alphabet, and no other.
pub proof fn lemma_symbol_value(v: int)
    requires
        0 <= v < 32,
    ensures
        "abcdefghijklmnopqrstuvwxyz234567"@.len() == 32,
        "abcdefghijklmnopqrstuvwxyz234567"@[v] == lower_symbol(v) as char,
        symbol_value(lower_symbol(v)) == v,
        lower_symbol(v) < 128,
{
    reveal_strlit("abcdefghijklmnopqrstuvwxyz234567");
    let a = "abcdefghijklmnopqrstuvwxyz234567"@;
    let c = lower_symbol(v) as char;
    assert forall|i: int| 0 <= i < 32 implies #[trigger] a[i] == lower_symbol(i) as char by {}
    assert(a[v] == c);
    let i = a.index_of(c);
    assert(0 <= i < 32 && a[i] == c);
    assert(lower_symbol(i) as char == lower_symbol(v) as char);
}

/// Five bits of two neighbouring bytes, by where they start.
proof fn lemma_window(hi: int, lo: int)
    requires
        0 <= hi < 256,
        0 <= lo < 256,
    ensures
        ((256 * hi + lo) / 2048) % 32 == hi / 8,
        ((256 * hi + lo) / 1024) % 32 == (hi / 4) % 32,
        ((256 * hi + lo) / 512) % 32 == (hi / 2) % 32,
        ((256 * hi + lo) / 256) % 32 == hi % 32,
        ((256 * hi + lo) / 128) % 32 == 2 * (hi % 16) + lo / 128,
        ((256 * hi + lo) / 64) % 32 == 4 * (hi % 8) + lo / 64,
        ((256 * hi + lo) / 32) % 32 == 8 * (hi % 4) + lo / 32,
        ((256 * hi + lo) / 16) % 32 == 16 * (hi % 2) + lo / 16,
{
    let h = hi as u16;
    let l = lo as u16;
    assert(((256 * h + l) / 2048) % 32 == h / 8 && ((256 * h + l) / 1024) % 32 == (h / 4) % 32 && (
    (256 * h + l) / 512) % 32 == (h / 2) % 32 && ((256 * h + l) / 256) % 32 == h % 32 && ((256 * h
        + l) / 128) % 32 == 2 * (h % 16) + l / 128 && ((256 * h + l) / 64) % 32 == 4 * (h % 8) + l
        / 64 && ((256 * h + l) / 32) % 32 == 8 * (h % 4) + l / 32 && ((256 * h + l) / 16) % 32 == 16
        * (h % 2) + l / 16) by (bit_vector)
        requires
            h < 256,
            l < 256,
    ;
}

/// The eight groups of five bytes, one by one.
proof fn lemma_block_groups(s: Seq<u8>, b: int)
    requires
        0 <= b,
    ensures
        ({
            let k = 5 * b;
            let j = 8 * b;
            &&& group(s, j) == byte_or_zero(s, k) / 8
            &&& group(s, j + 1) == 4 * (byte_or_zero(s, k) % 8) + byte_or_zero(s, k + 1) / 64
            &&& group(s, j + 2) == (byte_or_zero(s, k + 1) / 2) % 32
            &&& group(s, j + 3) == 16 * (byte_or_zero(s, k + 1) % 2) + byte_or_zero(s, k + 2) / 16
            &&& group(s, j + 4) == 2 * (byte_or_zero(s, k + 2) % 16) + byte_or_zero(s, k + 3) / 128
            &&& group(s, j + 5) == (byte_or_zero(s, k + 3) / 4) % 32
            &&& group(s, j + 6) == 8 * (byte_or_zero(s, k + 3) % 4) + byte_or_zero(s, k + 4) / 32
            &&& group(s, j + 7) == byte_or_zero(s, k + 4) % 32
        }),
{
    let k = 5 * b;
    let j = 8 * b;
    lemma_group_window(s, j, k, 0);
    lemma_group_window(s, j + 1, k, 5);
    lemma_group_window(s, j + 2, k + 1, 2);
    lemma_group_window(s, j + 3, k + 1, 7);
    lemma_group_window(s, j + 4, k + 2, 4);
    lemma_group_window(s, j + 5, k + 3, 1);
    lemma_group_window(s, j + 6, k + 3, 6);
    lemma_group_window(s, j + 7, k + 4, 3);
}

/// A group from the byte and the bit that it starts at.
proof fn lemma_group_window(s: Seq<u8>, j: int, k: int, off: int)
    requires
        0 <= k,
        0 <= off < 8,
        5 * j == 8 * k + off,
    ensures
        ({
            let hi = byte_or_zero(s, k);
            let lo = byte_or_zero(s, k + 1);
            group(s, j) == if off == 0 {
                hi / 8
            } else if off == 1 {
                (hi / 4) % 32
            } else if off == 2 {
                (hi / 2) % 32
            } else if off == 3 {
                hi % 32
            } else if off == 4 {
                2 * (hi % 16) + lo / 128
            } else if off == 5 {
                4 * (hi % 8) + lo / 64
            } else if off == 6 {
                8 * (hi % 4) + lo / 32
            } else {
                16 * (hi % 2) + lo / 16
            }
        }),
{
    assert((5 * j) / 8 == k && (5 * j) % 8 == off);
    lemma_window(byte_or_zero(s, k), byte_or_zero(s, k + 1));
}

/// Eight groups of five bits make the same number as five bytes.
proof fn lemma_regroup(a: int, b: int, c: int, d: int, e: int)
    requires
        0 <= a < 256,
        0 <= b < 256,
        0 <= c < 256,
        0 <= d < 256,
        0 <= e < 256,
    ensures
        0x8_0000_0000 * (a / 8) + 0x4000_0000 * (4 * (a % 8) + b / 64) + 0x200_0000 * ((b / 2) % 32)
            + 0x10_0000 * (16 * (b % 2) + c / 16) + 0x8000 * (2 * (c % 16) + d / 128) + 1024 * ((d
            / 4) % 32) + 32 * (8 * (d % 4) + e / 32) + e % 32 == 0x1_0000_0000 * a + 0x100_0000 * b
            + 0x1_0000 * c + 256 * d + e,
{
    assert(a == 8 * (a / 8) + a % 8);
    assert(b == 64 * (b / 64) + 2 * ((b / 2) % 32) + b % 2);
    assert(c == 16 * (c / 16) + c % 16);
    assert(d == 128 * (d / 128) + 4 * ((d / 4) % 32) + d % 4);
    assert(e == 32 * (e / 32) + e % 32);
}

/// An encoding is the same number as the bytes, block for block: the eight symbols of a
/// block, as digits to base 32, make the number that its five bytes make to base 256. Bytes
/// past the end count as 0.
pub proof fn law_blocks_keep_value(s: Seq<u8>, b: int)
    requires
        0 <= b,
        8 * b + 8 <= lower_encoding(s).len(),
    ensures
        ({
            let e = lower_encoding(s);
            let j = 8 * b;
            let k = 5 * b;
            0x8_0000_0000 * symbol_value(e[j]) + 0x4000_0000 * symbol_value(e[j + 1]) + 0x200_0000
                * symbol_value(e[j + 2]) + 0x10_0000 * symbol_value(e[j + 3]) + 0x8000
                * symbol_value(e[j + 4]) + 1024 * symbol_value(e[j + 5]) + 32 * symbol_value(
                e[j + 6],
            ) + symbol_value(e[j + 7]) == 0x1_0000_0000 * byte_or_zero(s, k) + 0x100_0000
                * byte_or_zero(s, k + 1) + 0x1_0000 * byte_or_zero(s, k + 2) + 256 * byte_or_zero(
                s,
                k + 3,
            ) + byte_or_zero(s, k + 4)
        }),
{
    let j = 8 * b;
    lemma_block_groups(s, b);
    assert forall|i: int| j <= i < j + 8 implies symbol_value(#[trigger] lower_encoding(s)[i])
        == group(s, i) by {
        lemma_group_range(s, i);
        lemma_symbol_value(group(s, i));
    }
    let e = lower_encoding(s);
    let k = 5 * b;
    lemma_regroup(
        byte_or_zero(s, k),
        byte_or_zero(s, k + 1),
        byte_or_zero(s, k + 2),
        byte_or_zero(s, k + 3),
        byte_or_zero(s, k + 4),
    );
    assert(symbol_value(e[j]) == group(s, j));
    assert(symbol_value(e[j + 1]) == group(s, j + 1));
    assert(symbol_value(e[j + 2]) == group(s, j + 2));
    assert(symbol_value(e[j + 3]) == group(s, j + 3));
    assert(symbol_value(e[j + 4]) == group(s, j + 4));
    assert(symbol_value(e[j + 5]) == group(s, j + 5));
    assert(symbol_value(e[j + 6]) == group(s, j + 6));
    assert(symbol_value(e[j + 7]) == group(s, j + 7));
}

/// Five bytes are known by the number that they make.
pub proof fn lemma_same_bytes(
    a: (int, int, int, int, int),
    b: (int, int, int, int, int),
)
    requires
        0 <= a.0 < 256,
        0 <= a.1 < 256,
        0 <= a.2 < 256,
        0 <= a.3 < 256,
        0 <= a.4 < 256,
        0 <= b.0 < 256,
        0 <= b.1 < 256,
        0 <= b.2 < 256,
        0 <= b.3 < 256,
        0 <= b.4 < 256,
        0x1_0000_0000 * a.0 + 0x100_0000 * a.1 + 0x1_0000 * a.2 + 256 * a.3 + a.4 == 0x1_0000_0000
            * b.0 + 0x100_0000 * b.1 + 0x1_0000 * b.2 + 256 * b.3 + b.4,
    ensures
        a == b,
{
    assert(a.0 == b.0);
    assert(a.1 == b.1);
    assert(a.2 == b.2);
    assert(a.3 == b.3);
}

} // verus!
