//! Where a pattern can stand, and times in words.

use crate::crypto;
use crate::crypto::{Backend, MatchType, ADDRESS_LEN, MAX_DEVICE_PREFIX};
use crate::text;
use crate::text::{decimal_string, joined, joined3};
use vstd::prelude::*;
use vstd::string::StringExecFns;

verus! {

/// The chance of a key: so many places, each with one chance in 32 to the number of
/// characters. More than certain is certain.
#[derive(Clone, Copy, PartialEq, Eq, Debug, Structural)]
pub struct Odds {
    pub places: usize,
    pub chars: usize,
}

/// Characters of an address that a search looks at. The device knows only what comes from
/// the public key; a pattern too long for it is matched on the host.
pub open spec fn spec_window(pattern_len: nat, backend: Backend) -> nat {
    if backend == Backend::Gpu && pattern_len <= 48 {
        48
    } else {
        56
    }
}

/// Places where a pattern can stand.
pub open spec fn spec_places(pattern_len: nat, match_type: MatchType, backend: Backend) -> nat {
    match match_type {
        MatchType::Prefix => 1,
        MatchType::Suffix => 1,
        MatchType::Anywhere => {
            let window = spec_window(pattern_len, backend);
            if pattern_len < window {
                (window - pattern_len + 1) as nat
            } else {
                1
            }
        },
    }
}

/// The chance of a key.
pub fn match_odds(pattern_len: usize, match_type: &MatchType, backend: &Backend) -> (r: Odds)
    ensures
        r == (Odds {
            places: spec_places(pattern_len as nat, *match_type, *backend) as usize,
            chars: pattern_len,
        }),
{
    let places: usize = match match_type {
        MatchType::Prefix => 1,
        MatchType::Suffix => 1,
        MatchType::Anywhere => {
            let window: usize = if *backend == Backend::Gpu && pattern_len <= MAX_DEVICE_PREFIX {
                MAX_DEVICE_PREFIX
            } else {
                ADDRESS_LEN
            };
            window.saturating_sub(pattern_len) + 1
        },
    };
    Odds { places, chars: pattern_len }
}

/// The places of a search over the whole address are the positions at which the pattern
/// can stand in it.
pub proof fn law_places_are_positions(pattern: Seq<u8>, public: Seq<u8>, i: int)
    requires
        public.len() == 32,
        crypto::occurs_at(pattern, crypto::onion_address(public), i),
    ensures
        0 <= i < spec_places(pattern.len(), MatchType::Anywhere, Backend::Cpu),
{
    crypto::law_address_shape(public);
}

/// The device has fewer places than the CPU while it can match, and as many otherwise.
pub proof fn law_device_window(pattern_len: nat)
    ensures
        pattern_len <= 48 ==> spec_places(pattern_len, MatchType::Anywhere, Backend::Gpu) + 8
            == spec_places(pattern_len, MatchType::Anywhere, Backend::Cpu),
        pattern_len > 48 ==> spec_places(pattern_len, MatchType::Anywhere, Backend::Gpu)
            == spec_places(pattern_len, MatchType::Anywhere, Backend::Cpu),
{
}

/// A time of whole seconds in words, if it is shorter than a year of 365 days.
pub open spec fn time_words(secs: nat) -> Option<Seq<char>> {
    if secs < 60 {
        Some(text::decimal(secs) + "s"@)
    } else if secs < 3600 {
        Some(text::decimal(secs / 60) + "m "@ + text::decimal(secs % 60) + "s"@)
    } else if secs < 86_400 {
        Some(text::decimal(secs / 3600) + "h "@ + text::decimal((secs % 3600) / 60) + "m"@)
    } else if secs < 31_536_000 {
        Some(text::decimal(secs / 86_400) + "d "@ + text::decimal((secs % 86_400) / 3600) + "h"@)
    } else {
        None
    }
}

fn two_units(a: u64, unit_a: &str, b: u64, unit_b: &str) -> (r: String)
    ensures
        r@ == text::decimal(a as nat) + unit_a@ + text::decimal(b as nat) + unit_b@,
{
    let mut r: String = joined3(
        decimal_string(a as u128).as_str(),
        unit_a,
        decimal_string(b as u128).as_str(),
    );
    r.append(unit_b);
    r
}

/// A time of whole seconds in words, if it is shorter than a year of 365 days.
pub fn seconds_text(secs: u64) -> (r: Option<String>)
    ensures
        r is Some <==> time_words(secs as nat) is Some,
        r matches Some(s) ==> time_words(secs as nat) == Some(s@),
{
    if secs < 60 {
        Some(joined(decimal_string(secs as u128).as_str(), "s"))
    } else if secs < 3600 {
        Some(two_units(secs / 60, "m ", secs % 60, "s"))
    } else if secs < 86_400 {
        Some(two_units(secs / 3600, "h ", (secs % 3600) / 60, "m"))
    } else if secs < 31_536_000 {
        Some(two_units(secs / 86_400, "d ", (secs % 86_400) / 3600, "h"))
    } else {
        None
    }
}

/// A pattern of `n` characters may stand at position `i` of what a search looks at, `window`
/// characters of an address.
pub open spec fn may_stand(match_type: MatchType, n: int, window: int, i: int) -> bool {
    &&& 0 <= i && i + n <= window
    &&& match_type is Prefix ==> i == 0
    &&& match_type is Suffix ==> i + n == window
}

/// The places of the odds are counted, not estimated: they are as many as there are positions
/// where the match type lets a pattern of the length stand. On either backend there is exactly
/// one for a prefix, the first, and one for a suffix, the last. Anywhere, the CPU looks at all
/// 56 characters, and the GPU at the first 48 if the pattern fits there.
pub proof fn law_places_are_counted(
    n: usize,
    match_type: MatchType,
    backend: Backend,
    window: int,
    r: Odds,
)
    requires
        call_ensures(match_odds, (n, &match_type, &backend), r),
        n <= 56,
        window == if match_type is Anywhere && backend is Gpu && n <= 48 {
            48int
        } else {
            56
        },
    ensures
        r.chars == n,
        exists|places: Seq<int>|
            {
                &&& #[trigger] places.len() == r.places
                &&& forall|k: int, l: int| 0 <= k < l < places.len() ==> places[k] != places[l]
                &&& forall|i: int| #[trigger]
                    places.contains(i) <==> may_stand(match_type, n as int, window, i)
            },
{
    let places = match match_type {
        MatchType::Prefix => seq![0int],
        MatchType::Suffix => seq![56 - n],
        MatchType::Anywhere => Seq::new((window - n + 1) as nat, |k: int| k),
    };
    assert(places.len() == r.places);
    assert forall|i: int| #[trigger] places.contains(i) <==> may_stand(
        match_type,
        n as int,
        window,
        i,
    ) by {
        if may_stand(match_type, n as int, window, i) {
            if match_type is Anywhere {
                assert(places[i] == i);
            } else {
                assert(places[0] == i);
            }
        }
    }
}

/// A pattern longer than an address counts one place, and every length counts itself.
pub proof fn law_odds_of_long_patterns(
    n: usize,
    match_type: MatchType,
    backend: Backend,
    r: Odds,
)
    requires
        call_ensures(match_odds, (n, &match_type, &backend), r),
        n > 56,
    ensures
        r == (Odds { places: 1, chars: n }),
{
}

/// A time in words adds up: its two figures, in their units, make up all of the time but less
/// than one of the smaller unit, and the smaller figure never makes up a whole larger unit.
pub proof fn law_words_add_up(secs: u64, r: Option<String>)
    requires
        call_ensures(seconds_text, (secs,), r),
    ensures
        secs < 60 ==> r is Some && r->0@ == text::decimal(secs as nat) + "s"@,
        60 <= secs < 3600 ==> r is Some && exists|m: nat, s: nat|
            r->0@ == #[trigger] text::decimal(m) + "m "@ + #[trigger] text::decimal(s) + "s"@
                && 60 * m + s == secs && s < 60,
        3600 <= secs < 24 * 3600 ==> r is Some && exists|h: nat, m: nat|
            r->0@ == #[trigger] text::decimal(h) + "h "@ + #[trigger] text::decimal(m) + "m"@
                && 3600 * h + 60 * m <= secs < 3600 * h + 60 * (m + 1) && m < 60,
        24 * 3600 <= secs < 365 * 24 * 3600 ==> r is Some && exists|d: nat, h: nat|
            r->0@ == #[trigger] text::decimal(d) + "d "@ + #[trigger] text::decimal(h) + "h"@
                && 86_400 * d + 3600 * h <= secs < 86_400 * d + 3600 * (h + 1) && h < 24,
        secs >= 365 * 24 * 3600 ==> r is None,
{
    let t = secs as nat;
    if 60 <= t < 3600 {
        let m = t / 60;
        let s = t % 60;
        assert(r->0@ == text::decimal(m) + "m "@ + text::decimal(s) + "s"@);
    } else if 3600 <= t < 86_400 {
        let h = t / 3600;
        let m = (t % 3600) / 60;
        assert(r->0@ == text::decimal(h) + "h "@ + text::decimal(m) + "m"@);
    } else if 86_400 <= t < 31_536_000 {
        let d = t / 86_400;
        let h = (t % 86_400) / 3600;
        assert(r->0@ == text::decimal(d) + "d "@ + text::decimal(h) + "h"@);
    }
}

} // verus!
