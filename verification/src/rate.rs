//! Throughput of a running search: the rate over the last two seconds, and a history of
//! one sample per second.

use std::collections::VecDeque;
use vstd::arithmetic::div_mod::*;
use vstd::prelude::*;

verus! {

/// One second, in nanoseconds.
pub const SECOND: u64 = 1_000_000_000;

/// Longest history: one sample per second for 80 seconds.
pub const HISTORY_LEN: usize = 80;

/// A rate as a count over a time in nanoseconds.
#[derive(Clone, Copy, PartialEq, Eq, Debug, Structural)]
pub struct Rate {
    pub count: u64,
    pub nanos: u64,
}

impl Rate {
    /// Whole keys per second, rounded down.
    pub open spec fn spec_per_second(self) -> int {
        (self.count * 1_000_000_000) / self.nanos as int
    }

    /// Keys per second to the nearest whole number, ties to the even one.
    pub open spec fn spec_rounded(self) -> int {
        let q = self.spec_per_second();
        let rest = (self.count * 1_000_000_000) % self.nanos as int;
        if 2 * rest > self.nanos || (2 * rest == self.nanos && q % 2 == 1) {
            q + 1
        } else {
            q
        }
    }

    /// Whole keys per second, rounded down, or the largest number that fits.
    pub fn per_second(&self) -> (r: u64)
        requires
            self.nanos > 0,
        ensures
            r == if self.spec_per_second() <= u64::MAX {
                self.spec_per_second()
            } else {
                u64::MAX as int
            },
    {
        let q: u128 = (self.count as u128 * 1_000_000_000u128) / self.nanos as u128;
        if q > u64::MAX as u128 {
            u64::MAX
        } else {
            q as u64
        }
    }

    /// Keys per second to the nearest whole number, ties to the even one.
    pub fn rounded(&self) -> (r: u128)
        requires
            self.nanos > 0,
        ensures
            r == self.spec_rounded(),
    {
        let total: u128 = self.count as u128 * 1_000_000_000u128;
        let nanos: u128 = self.nanos as u128;
        let q: u128 = total / nanos;
        let rest: u128 = total % nanos;
        assert(q <= total) by {
            lemma_div_is_ordered_by_denominator(total as int, 1, nanos as int);
        }
        if 2 * rest > nanos || (2 * rest == nanos && q % 2 == 1) {
            q + 1
        } else {
            q
        }
    }
}

/// Tracks the total of a counter over time. Times are in nanoseconds.
pub struct RateTracker {
    /// Samples of the last two seconds: time and total.
    pub samples: Vec<(u64, u64)>,
    /// The rate over those samples, once it is known.
    pub last_rate: Option<Rate>,
    /// One rate per second, the latest last.
    pub history: VecDeque<u64>,
    /// When the last entry went into the history.
    pub last_sampled_at: Option<u64>,
}

/// Samples not older than `cutoff`, in order.
pub open spec fn recent(s: Seq<(u64, u64)>, cutoff: u64) -> Seq<(u64, u64)>
    decreases s.len(),
{
    if s.len() == 0 {
        Seq::empty()
    } else {
        let rest = recent(s.drop_last(), cutoff);
        if s.last().0 >= cutoff {
            rest.push(s.last())
        } else {
            rest
        }
    }
}

/// Start of the two-second window.
pub open spec fn window_start(now: u64) -> u64 {
    if now >= 2_000_000_000 {
        (now - 2_000_000_000) as u64
    } else {
        0
    }
}

/// A window that a rate is taken over: it spans more than ten milliseconds.
pub open spec fn has_rate(s: Seq<(u64, u64)>) -> bool {
    s.len() >= 2 && s.last().0 > s[0].0 && s.last().0 - s[0].0 > 10_000_000
}

/// The rate over a window, or the one before if the window has none.
pub open spec fn window_rate(s: Seq<(u64, u64)>, before: Option<Rate>) -> Option<Rate> {
    if has_rate(s) {
        Some(Rate { count: (s.last().1 - s[0].1) as u64, nanos: (s.last().0 - s[0].0) as u64 })
    } else {
        before
    }
}

/// A history entry is due: a second has passed since the last, and there is a rate.
pub open spec fn sample_due(last: Option<u64>, now: u64, rate: Option<Rate>) -> bool {
    (match last {
        Some(t) => now >= t && now - t >= 1_000_000_000,
        None => true,
    }) && (match rate {
        Some(r) => r.count > 0,
        None => false,
    })
}

/// The value of a history entry.
pub open spec fn sample_value(rate: Rate) -> u64 {
    if rate.spec_per_second() <= u64::MAX {
        rate.spec_per_second() as u64
    } else {
        u64::MAX
    }
}

/// A history with one entry more, and the oldest dropped past 80.
pub open spec fn extended(h: Seq<u64>, v: u64) -> Seq<u64> {
    let g = h.push(v);
    if g.len() > 80 {
        g.drop_first()
    } else {
        g
    }
}

impl RateTracker {
    /// What every tracker keeps: a bounded history, and rates over some time.
    pub open spec fn wf(&self) -> bool {
        &&& self.history@.len() <= 80
        &&& self.last_rate matches Some(r) ==> r.nanos > 0
    }

    /// If a rate is taken, the total has not fallen since the oldest sample of the window.
    pub open spec fn accepts_total(&self, now: u64, total: u64) -> bool {
        let window = recent(self.samples@.push((now, total)), window_start(now));
        has_rate(window) ==> window[0].1 <= total
    }

    /// Whether a rate can be taken from the total, or none is due: see `accepts_total`.
    pub fn check_total(&self, now: u64, total: u64) -> (r: bool)
        ensures
            r == self.accepts_total(now, total),
    {
        let cutoff: u64 = if now >= 2_000_000_000 {
            now - 2_000_000_000
        } else {
            0
        };
        let ghost all = self.samples@;
        proof {
            lemma_recent_last(all, (now, total), cutoff);
        }
        for i in 0..self.samples.len()
            invariant
                all == self.samples@,
                cutoff == window_start(now),
                recent(all.take(i as int), cutoff).len() == 0,
                recent(all.push((now, total)), cutoff) == recent(all, cutoff).push((now, total)),
        {
            proof {
                assert(all.take(i + 1).drop_last() =~= all.take(i as int));
            }
            let s: (u64, u64) = self.samples[i];
            if s.0 >= cutoff {
                proof {
                    lemma_recent_first(all, (i + 1) as nat, cutoff);
                    lemma_recent_first(all, i as nat, cutoff);
                }
                return !(now > s.0 && now - s.0 > 10_000_000) || s.1 <= total;
            }
        }
        assert(all.take(all.len() as int) =~= all);
        true
    }

    /// Nothing noted yet.
    pub open spec fn is_new(&self) -> bool {
        &&& self.samples@.len() == 0
        &&& self.last_rate is None
        &&& self.history@.len() == 0
        &&& self.last_sampled_at is None
    }

    /// The tracker after the total at a time is noted.
    pub open spec fn updated(&self, now: u64, total: u64, post: RateTracker) -> bool {
        &&& post.samples@ == recent(self.samples@.push((now, total)), window_start(now))
        &&& post.last_rate == window_rate(post.samples@, self.last_rate)
        &&& if sample_due(self.last_sampled_at, now, post.last_rate) {
            &&& post.history@ == extended(self.history@, sample_value(post.last_rate->0))
            &&& post.last_sampled_at == Some(now)
        } else {
            &&& post.history@ == self.history@
            &&& post.last_sampled_at == self.last_sampled_at
        }
    }

    pub fn new() -> (r: RateTracker)
        ensures
            r.is_new(),
            r.wf(),
    {
        RateTracker {
            samples: Vec::new(),
            last_rate: None,
            history: VecDeque::new(),
            last_sampled_at: None,
        }
    }

    /// Notes the total at a time.
    pub fn update(&mut self, now: u64, total: u64)
        requires
            old(self).wf(),
            old(self).accepts_total(now, total),
        ensures
            final(self).wf(),
            old(self).updated(now, total, *final(self)),
    {
        let cutoff: u64 = if now >= 2_000_000_000 {
            now - 2_000_000_000
        } else {
            0
        };
        self.samples.push((now, total));
        let ghost all = self.samples@;
        let mut kept: Vec<(u64, u64)> = Vec::new();
        for i in 0..self.samples.len()
            invariant
                all == self.samples@,
                kept@ == recent(all.take(i as int), cutoff),
        {
            proof {
                assert(all.take(i + 1).drop_last() =~= all.take(i as int));
            }
            let s: (u64, u64) = self.samples[i];
            if s.0 >= cutoff {
                kept.push(s);
            }
        }
        proof {
            assert(all.take(all.len() as int) =~= all);
            lemma_recent_last(old(self).samples@, (now, total), cutoff);
        }
        self.samples = kept;
        let n: usize = self.samples.len();
        if n >= 2 {
            let first: (u64, u64) = self.samples[0];
            let last: (u64, u64) = self.samples[n - 1];
            if last.0 > first.0 && last.0 - first.0 > 10_000_000 {
                self.last_rate = Some(Rate { count: last.1 - first.1, nanos: last.0 - first.0 });
            }
        }
        let due: bool = match self.last_sampled_at {
            Some(t) => now >= t && now - t >= SECOND,
            None => true,
        };
        if let Some(rate) = self.last_rate {
            if due && rate.count > 0 {
                let v: u64 = rate.per_second();
                self.history.push_back(v);
                if self.history.len() > HISTORY_LEN {
                    let ghost before = self.history@;
                    let _ = self.history.pop_front();
                    assert(self.history@ =~= before.drop_first());
                }
                self.last_sampled_at = Some(now);
            }
        }
    }
}

/// The oldest sample of a longer run is that of a shorter one that has any.
proof fn lemma_recent_first(s: Seq<(u64, u64)>, n: nat, cutoff: u64)
    requires
        n <= s.len(),
    ensures
        recent(s.take(n as int), cutoff).len() > 0 ==> recent(s, cutoff).len() > 0 && recent(
            s,
            cutoff,
        )[0] == recent(s.take(n as int), cutoff)[0],
    decreases s.len() - n,
{
    if n == s.len() {
        assert(s.take(n as int) =~= s);
    } else {
        lemma_recent_first(s, n + 1, cutoff);
        assert(s.take(n as int + 1).drop_last() =~= s.take(n as int));
    }
}

/// The newest sample always stays in the window.
proof fn lemma_recent_last(s: Seq<(u64, u64)>, x: (u64, u64), cutoff: u64)
    requires
        x.0 >= cutoff,
    ensures
        recent(s.push(x), cutoff) == recent(s, cutoff).push(x),
{
    assert(s.push(x).drop_last() =~= s);
}

// ---- what the figures say ----

/// Whole keys per second are the most that the count reaches: that many seconds' worth fits
/// into it, and one more does not.
pub proof fn law_per_second(rate: Rate, r: u64)
    requires
        rate.nanos > 0,
        call_ensures(Rate::per_second, (&rate,), r),
    ensures
        r * rate.nanos <= rate.count * 1_000_000_000,
        r < u64::MAX ==> rate.count * 1_000_000_000 < (r + 1) * rate.nanos,
{
    lemma_whole_seconds(rate);
}

proof fn lemma_whole_seconds(rate: Rate)
    requires
        rate.nanos > 0,
    ensures
        sample_value(rate) * rate.nanos <= rate.count * 1_000_000_000,
        sample_value(rate) < u64::MAX ==> rate.count * 1_000_000_000 < (sample_value(rate) + 1)
            * rate.nanos,
{
    let total = rate.count * 1_000_000_000;
    let n = rate.nanos as int;
    let q = total / n;
    lemma_fundamental_div_mod(total, n);
    lemma_mod_bound(total, n);
    vstd::arithmetic::mul::lemma_mul_is_commutative(q, n);
    vstd::arithmetic::mul::lemma_mul_is_distributive_add_other_way(n, q, 1);
    if q > u64::MAX {
        vstd::arithmetic::mul::lemma_mul_inequality(u64::MAX as int, q, n);
    }
}

/// The rounded rate is at most half a key per second off, and of two that are equally near it
/// is the even one.
pub proof fn law_rounded(rate: Rate, r: u128)
    requires
        rate.nanos > 0,
        call_ensures(Rate::rounded, (&rate,), r),
    ensures
        2 * (r * rate.nanos - rate.count * 1_000_000_000) <= rate.nanos,
        2 * (rate.count * 1_000_000_000 - r * rate.nanos) <= rate.nanos,
        2 * (r * rate.nanos - rate.count * 1_000_000_000) == rate.nanos || 2 * (rate.count
            * 1_000_000_000 - r * rate.nanos) == rate.nanos ==> r % 2 == 0,
{
    lemma_rounded(rate);
}

/// How near the rounded rate is.
pub proof fn lemma_rounded(rate: Rate)
    requires
        rate.nanos > 0,
    ensures
        rate.spec_rounded() >= 0,
        2 * (rate.spec_rounded() * rate.nanos - rate.count * 1_000_000_000) <= rate.nanos,
        2 * (rate.count * 1_000_000_000 - rate.spec_rounded() * rate.nanos) <= rate.nanos,
        2 * (rate.spec_rounded() * rate.nanos - rate.count * 1_000_000_000) == rate.nanos || 2 * (
        rate.count * 1_000_000_000 - rate.spec_rounded() * rate.nanos) == rate.nanos
            ==> rate.spec_rounded() % 2 == 0,
{
    let total = rate.count * 1_000_000_000;
    let n = rate.nanos as int;
    let q = total / n;
    lemma_fundamental_div_mod(total, n);
    lemma_mod_bound(total, n);
    vstd::arithmetic::mul::lemma_mul_is_commutative(q, n);
    vstd::arithmetic::mul::lemma_mul_is_distributive_add_other_way(n, q, 1);
    let r = rate.spec_rounded();
    lemma_div_pos_is_pos(total, n);
    assert(r == q || r == q + 1);
    if r == q {
        assert(r * n == q * n);
    } else {
        assert(r * n == (q + 1) * n);
    }
}

/// The window holds the samples of the last two seconds and no others, in their order, with
/// the new one at its end.
pub proof fn law_window(t: RateTracker, now: u64, total: u64, post: RateTracker)
    requires
        t.updated(now, total, post),
    ensures
        post.samples@.len() > 0,
        post.samples@.last() == (now, total),
        forall|s: (u64, u64)|
            #![trigger post.samples@.contains(s)]
            post.samples@.contains(s) <==> s.0 + 2_000_000_000 >= now && (t.samples@.contains(s)
                || s == (now, total)),
        post.samples@.len() <= t.samples@.len() + 1,
        (forall|i: int| 0 <= i < t.samples@.len() ==> (#[trigger] t.samples@[i]).0 + 2_000_000_000
            >= now) ==> post.samples@ == t.samples@.push((now, total)),
{
    let all = t.samples@.push((now, total));
    let cutoff = window_start(now);
    lemma_recent_last(t.samples@, (now, total), cutoff);
    lemma_recent(all, cutoff);
    assert(all.drop_last() =~= t.samples@);
    assert forall|s: (u64, u64)|
        #![trigger post.samples@.contains(s)]
        post.samples@.contains(s) <==> s.0 + 2_000_000_000 >= now && (t.samples@.contains(s) || s
            == (now, total)) by {
        if all.contains(s) {
            let i = choose|i: int| 0 <= i < all.len() && all[i] == s;
            if i < t.samples@.len() {
                assert(t.samples@[i] == s);
            }
        }
        if t.samples@.contains(s) {
            let i = choose|i: int| 0 <= i < t.samples@.len() && t.samples@[i] == s;
            assert(all[i] == s);
        }
        if s == (now, total) {
            assert(all[t.samples@.len() as int] == s);
        }
    }
    if forall|i: int| 0 <= i < t.samples@.len() ==> (#[trigger] t.samples@[i]).0 + 2_000_000_000
        >= now {
        assert forall|i: int| 0 <= i < all.len() implies (#[trigger] all[i]).0 >= cutoff by {
            if i < t.samples@.len() {
                assert(t.samples@[i].0 + 2_000_000_000 >= now);
            }
        }
        lemma_recent_all(all, cutoff);
    }
}

/// What `recent` keeps.
proof fn lemma_recent(s: Seq<(u64, u64)>, cutoff: u64)
    ensures
        forall|x: (u64, u64)|
            #![trigger recent(s, cutoff).contains(x)]
            recent(s, cutoff).contains(x) <==> x.0 >= cutoff && s.contains(x),
        recent(s, cutoff).len() <= s.len(),
    decreases s.len(),
{
    if s.len() > 0 {
        let init = s.drop_last();
        let rest = recent(init, cutoff);
        let kept = recent(s, cutoff);
        lemma_recent(init, cutoff);
        assert forall|x: (u64, u64)| #![trigger kept.contains(x)] kept.contains(x) <==> x.0
            >= cutoff && s.contains(x) by {
            if kept.contains(x) {
                let i = choose|i: int| 0 <= i < kept.len() && kept[i] == x;
                if i < rest.len() {
                    assert(rest[i] == x);
                    assert(rest.contains(x));
                    let j = choose|j: int| 0 <= j < init.len() && init[j] == x;
                    assert(s[j] == x);
                } else {
                    assert(s[s.len() - 1] == x);
                }
            }
            if x.0 >= cutoff && s.contains(x) {
                let i = choose|i: int| 0 <= i < s.len() && s[i] == x;
                if i < init.len() {
                    assert(init[i] == x);
                    assert(rest.contains(x));
                    let j = choose|j: int| 0 <= j < rest.len() && rest[j] == x;
                    assert(kept[j] == x);
                } else {
                    assert(kept[kept.len() - 1] == x);
                }
            }
        }
    }
}

proof fn lemma_recent_all(s: Seq<(u64, u64)>, cutoff: u64)
    requires
        forall|i: int| 0 <= i < s.len() ==> (#[trigger] s[i]).0 >= cutoff,
    ensures
        recent(s, cutoff) == s,
    decreases s.len(),
{
    if s.len() > 0 {
        assert forall|i: int| 0 <= i < s.drop_last().len() implies (#[trigger] s.drop_last()[i]).0
            >= cutoff by {
            assert(s[i].0 >= cutoff);
        }
        lemma_recent_all(s.drop_last(), cutoff);
        assert(s[s.len() - 1].0 >= cutoff);
        assert(s.drop_last().push(s.last()) =~= s);
    }
}

/// The rate is what was gained since the oldest sample of the window over the time since then,
/// if that is more than ten milliseconds; otherwise it stays as it was.
pub proof fn law_rate_is_gain_over_time(t: RateTracker, now: u64, total: u64, post: RateTracker)
    requires
        t.accepts_total(now, total),
        t.updated(now, total, post),
    ensures
        ({
            let oldest = post.samples@[0];
            if now > oldest.0 + 10_000_000 {
                &&& post.last_rate matches Some(r)
                &&& r.nanos == now - oldest.0
                &&& r.count == total - oldest.1
            } else {
                post.last_rate == t.last_rate
            }
        }),
{
    lemma_recent_last(t.samples@, (now, total), window_start(now));
}

/// The history takes the rate, in whole keys per second, at most once a second; entries before
/// it stay in their order, and only the oldest goes once there are eighty.
pub proof fn law_history(t: RateTracker, now: u64, total: u64, post: RateTracker)
    requires
        t.wf(),
        t.updated(now, total, post),
    ensures
        post.history@.len() <= 80,
        t.last_sampled_at matches Some(at) && now < at + 1_000_000_000 ==> post.history@
            == t.history@ && post.last_sampled_at == t.last_sampled_at,
        post.last_rate is None || post.last_rate->0.count == 0 ==> post.history@ == t.history@
            && post.last_sampled_at == t.last_sampled_at,
        (t.last_sampled_at matches Some(at) ==> now >= at + 1_000_000_000)
            && post.last_rate is Some && post.last_rate->0.count > 0 ==> {
            &&& post.last_sampled_at == Some(now)
            &&& post.history@.len() == if t.history@.len() < 80 {
                t.history@.len() + 1
            } else {
                80
            }
            &&& post.history@.last() * post.last_rate->0.nanos <= post.last_rate->0.count
                * 1_000_000_000
            &&& post.history@.last() < u64::MAX ==> post.last_rate->0.count * 1_000_000_000 < (
            post.history@.last() + 1) * post.last_rate->0.nanos
            &&& t.history@.len() < 80 ==> post.history@.drop_last() == t.history@
            &&& t.history@.len() == 80 ==> post.history@.drop_last() == t.history@.drop_first()
        },
{
    if sample_due(t.last_sampled_at, now, post.last_rate) {
        let v = sample_value(post.last_rate->0);
        let g = t.history@.push(v);
        lemma_whole_seconds(post.last_rate->0);
        if t.history@.len() < 80 {
            assert(post.history@.drop_last() =~= t.history@);
        } else {
            assert(g.drop_first().drop_last() =~= t.history@.drop_first());
        }
    }
}

/// A total is refused exactly if a rate would be taken from it and it is below that of the
/// oldest sample of the last two seconds.
pub proof fn law_refused_total(t: RateTracker, now: u64, total: u64, r: bool, i: int)
    requires
        call_ensures(RateTracker::check_total, (&t, now, total), r),
        0 <= i <= t.samples@.len(),
        forall|j: int| 0 <= j < i ==> (#[trigger] t.samples@[j]).0 + 2_000_000_000 < now,
        i < t.samples@.len() ==> t.samples@[i].0 + 2_000_000_000 >= now,
    ensures
        !r <==> i < t.samples@.len() && now > t.samples@[i].0 + 10_000_000 && total
            < t.samples@[i].1,
{
    let s = t.samples@;
    let cutoff = window_start(now);
    let all = s.push((now, total));
    lemma_recent_last(s, (now, total), cutoff);
    assert forall|j: int| 0 <= j < i implies (#[trigger] s.take(i)[j]).0 < cutoff by {
        assert(s[j].0 + 2_000_000_000 < now);
    }
    lemma_recent_none(s.take(i), cutoff);
    if i < s.len() {
        assert(s.take(i + 1).drop_last() =~= s.take(i));
        assert(recent(s.take(i + 1), cutoff) =~= seq![s[i]]);
        lemma_recent_first(s, (i + 1) as nat, cutoff);
        assert(recent(all, cutoff)[0] == s[i]);
        assert(recent(all, cutoff).len() >= 2);
    } else {
        assert(s.take(i) =~= s);
        assert(recent(all, cutoff) =~= seq![(now, total)]);
    }
}

proof fn lemma_recent_none(s: Seq<(u64, u64)>, cutoff: u64)
    requires
        forall|i: int| 0 <= i < s.len() ==> (#[trigger] s[i]).0 < cutoff,
    ensures
        recent(s, cutoff).len() == 0,
    decreases s.len(),
{
    if s.len() > 0 {
        assert forall|i: int| 0 <= i < s.drop_last().len() implies (#[trigger] s.drop_last()[i]).0
            < cutoff by {
            assert(s[i].0 < cutoff);
        }
        lemma_recent_none(s.drop_last(), cutoff);
        assert(s[s.len() - 1].0 < cutoff);
    }
}

} // verus!
