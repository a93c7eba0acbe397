//! Strings: growing and shrinking them by a character, ASCII bytes as text, decimals,
//! columns.

use vstd::prelude::*;
use vstd::string::StrSliceExecFns;
use vstd::string::StringExecFns;

verus! {

/// `String::push` appends the character.
pub assume_specification[ String::push ](s: &mut String, c: char)
    ensures
        final(s)@ == old(s)@.push(c),
;

/// `String::pop` removes and returns the last character, if there is one.
pub assume_specification[ String::pop ](s: &mut String) -> (r: Option<char>)
    ensures
        old(s)@.len() == 0 ==> r is None && final(s)@ == old(s)@,
        old(s)@.len() > 0 ==> r == Some(old(s)@.last()) && final(s)@ == old(s)@.drop_last(),
;

/// ASCII bytes as characters.
pub open spec fn chars_of(bytes: Seq<u8>) -> Seq<char> {
    Seq::new(bytes.len(), |i: int| bytes[i] as char)
}

/// The text of ASCII bytes.
pub fn ascii_string(bytes: &[u8]) -> (s: String)
    requires
        forall|i: int| 0 <= i < bytes@.len() ==> #[trigger] bytes@[i] < 128,
    ensures
        s@ == chars_of(bytes@),
{
    let mut s: String = String::new();
    for i in 0..bytes.len()
        invariant
            s@ == chars_of(bytes@.take(i as int)),
            forall|k: int| 0 <= k < bytes@.len() ==> #[trigger] bytes@[k] < 128,
    {
        assert(bytes@[i as int] < 128);
        s.push(bytes[i] as char);
        assert(s@ =~= chars_of(bytes@.take(i + 1)));
    }
    assert(bytes@.take(bytes@.len() as int) =~= bytes@);
    s
}

/// A character of the base32 alphabet in lower case.
pub open spec fn base32_char(c: char) -> bool {
    ('a' <= c && c <= 'z') || ('2' <= c && c <= '7')
}

pub fn is_base32_char(c: char) -> (r: bool)
    ensures
        r == base32_char(c),
{
    let v: u32 = c as u32;
    (v >= 97 && v <= 122) || (v >= 50 && v <= 55)
}

/// The decimal digits of a number, most significant first.
pub open spec fn decimal(n: nat) -> Seq<char>
    decreases n,
{
    if n < 10 {
        seq![(48 + n) as char]
    } else {
        decimal(n / 10).push((48 + n % 10) as char)
    }
}

/// The number in decimal.
pub fn decimal_string(n: u128) -> (s: String)
    ensures
        s@ == decimal(n as nat),
    decreases n,
{
    let digit: char = (48 + (n % 10) as u8) as char;
    if n < 10 {
        let mut s: String = String::new();
        s.push(digit);
        assert(s@ =~= decimal(n as nat));
        s
    } else {
        let mut s: String = decimal_string(n / 10);
        s.push(digit);
        s
    }
}

/// Two texts in a row.
pub fn joined(a: &str, b: &str) -> (s: String)
    ensures
        s@ == a@ + b@,
{
    let mut s: String = String::new();
    s.append(a);
    s.append(b);
    assert(s@ =~= a@ + b@);
    s
}

/// So many spaces.
pub open spec fn spaces(n: nat) -> Seq<char> {
    Seq::new(n, |i: int| ' ')
}

/// A text filled up with spaces on the right.
pub open spec fn padded(s: Seq<char>, width: nat) -> Seq<char> {
    s + spaces(
        if s.len() < width {
            (width - s.len()) as nat
        } else {
            0
        },
    )
}

/// A text filled up with spaces on the left.
pub open spec fn aligned_right(s: Seq<char>, width: nat) -> Seq<char> {
    spaces(
        if s.len() < width {
            (width - s.len()) as nat
        } else {
            0
        },
    ) + s
}

/// Fills a text up with spaces on the right.
pub fn pad(s: &str, width: usize) -> (r: String)
    ensures
        r@ == padded(s@, width as nat),
{
    let n: usize = s.unicode_len();
    let mut r: String = String::from_str(s);
    let mut i: usize = n;
    assert(r@ =~= s@ + spaces(0));
    while i < width
        invariant
            n <= i,
            i <= width || i == n,
            n == s@.len(),
            r@ == s@ + spaces((i - n) as nat),
        decreases width - i,
    {
        r.push(' ');
        i = i + 1;
        assert(r@ =~= s@ + spaces((i - n) as nat));
    }
    r
}

/// Fills a text up with spaces on the left.
pub fn align_right(s: &str, width: usize) -> (r: String)
    ensures
        r@ == aligned_right(s@, width as nat),
{
    let n: usize = s.unicode_len();
    let mut r: String = String::new();
    let mut i: usize = n;
    assert(r@ =~= spaces(0));
    while i < width
        invariant
            n <= i,
            i <= width || i == n,
            n == s@.len(),
            r@ == spaces((i - n) as nat),
        decreases width - i,
    {
        r.push(' ');
        i = i + 1;
        assert(r@ =~= spaces((i - n) as nat));
    }
    r.append(s);
    r
}

/// Three texts in a row.
pub fn joined3(a: &str, b: &str, c: &str) -> (s: String)
    ensures
        s@ == a@ + b@ + c@,
{
    let mut s: String = joined(a, b);
    s.append(c);
    s
}

// ---- what texts say ----

/// The number that digits say.
pub open spec fn numeral(s: Seq<char>) -> int
    decreases s.len(),
{
    if s.len() == 0 {
        0
    } else {
        10 * numeral(s.drop_last()) + (s.last() as int - '0' as int)
    }
}

/// A number in decimal is made of digits, says the number, and has no 0 in front unless it is
/// 0 itself.
pub proof fn law_decimal(n: nat)
    ensures
        decimal(n).len() > 0,
        numeral(decimal(n)) == n,
        forall|i: int| 0 <= i < decimal(n).len() ==> '0' <= #[trigger] decimal(n)[i] <= '9',
        n > 0 ==> decimal(n)[0] != '0',
        n == 0 ==> decimal(n) == seq!['0'],
    decreases n,
{
    let s = decimal(n);
    if n < 10 {
        assert(s.drop_last() =~= Seq::empty());
        assert(numeral(s.drop_last()) == 0);
        assert(s =~= seq![(48 + n) as char]);
    } else {
        law_decimal(n / 10);
        assert(s.drop_last() =~= decimal(n / 10));
        assert forall|i: int| 0 <= i < s.len() implies '0' <= #[trigger] s[i] <= '9' by {
            if i < s.len() - 1 {
                assert(decimal(n / 10)[i] == s[i]);
            }
        }
        assert(decimal(n / 10)[0] == s[0]);
    }
}

/// The executable decimal says the number.
pub proof fn law_decimal_string(n: u128, s: String)
    requires
        call_ensures(decimal_string, (n,), s),
    ensures
        numeral(s@) == n,
        s@.len() > 0,
        n > 0 ==> s@[0] != '0',
{
    law_decimal(n as nat);
}

/// A column is as wide as it should be, or as its text if that is wider: the text, and spaces
/// on the one side.
pub proof fn law_columns(s: &str, width: usize, left: String, right: String)
    requires
        call_ensures(pad, (s, width), left),
        call_ensures(align_right, (s, width), right),
    ensures
        s@.len() <= width ==> left@.len() == width && right@.len() == width,
        s@.len() > width ==> left@ == s@ && right@ == s@,
        left@.take(s@.len() as int) == s@,
        right@.skip(right@.len() - s@.len()) == s@,
        forall|i: int| s@.len() <= i < left@.len() ==> #[trigger] left@[i] == ' ',
        forall|i: int| 0 <= i < right@.len() - s@.len() ==> #[trigger] right@[i] == ' ',
{
    law_padding(s@, width as nat);
    assert(left@.take(s@.len() as int) =~= s@);
    assert(right@.skip(right@.len() - s@.len()) =~= s@);
    if s@.len() > width {
        assert(left@ =~= s@);
        assert(right@ =~= s@);
    }
}

/// The same of the columns themselves.
pub proof fn law_padding(s: Seq<char>, width: nat)
    ensures
        padded(s, width).len() == if s.len() < width {
            width
        } else {
            s.len()
        },
        padded(s, width).take(s.len() as int) == s,
        forall|i: int|
            s.len() <= i < padded(s, width).len() ==> #[trigger] padded(s, width)[i] == ' ',
        aligned_right(s, width).len() == padded(s, width).len(),
        aligned_right(s, width).skip(aligned_right(s, width).len() - s.len()) == s,
        forall|i: int|
            0 <= i < aligned_right(s, width).len() - s.len() ==> #[trigger] aligned_right(s, width)[
            i] == ' ',
{
    assert(padded(s, width).take(s.len() as int) =~= s);
    assert(aligned_right(s, width).skip(aligned_right(s, width).len() - s.len()) =~= s);
}

/// Bytes below 128 become the characters of the same number, one for one.
pub proof fn law_ascii_string(bytes: &[u8], s: String)
    requires
        call_ensures(ascii_string, (bytes,), s),
        forall|i: int| 0 <= i < bytes@.len() ==> #[trigger] bytes@[i] < 128,
    ensures
        s@.len() == bytes@.len(),
        forall|i: int| 0 <= i < s@.len() ==> (#[trigger] s@[i]) as int == bytes@[i],
{
    assert forall|i: int| 0 <= i < s@.len() implies (#[trigger] s@[i]) as int == bytes@[i] by {
        assert(bytes@[i] < 128);
    }
}

/// A character is of the alphabet exactly if the alphabet holds it.
pub proof fn law_base32_char(c: char, r: bool)
    requires
        call_ensures(is_base32_char, (c,), r),
    ensures
        r == "abcdefghijklmnopqrstuvwxyz234567"@.contains(c),
{
    reveal_strlit("abcdefghijklmnopqrstuvwxyz234567");
    let a = "abcdefghijklmnopqrstuvwxyz234567"@;
    if 'a' <= c && c <= 'z' {
        assert(a[c as int - 97] == c);
    } else if '2' <= c && c <= '7' {
        assert(a[c as int - 24] == c);
    } else if a.contains(c) {
        let i = choose|i: int| 0 <= i < a.len() && a[i] == c;
        assert(a.len() == 32);
        assert(a[i] as int == if i < 26 {
            97 + i
        } else {
            24 + i
        });
    }
}

} // verus!
