//! A search on the device, one dispatch at a time: what to hand over, what to read back,
//! and what to make of it.

use crate::app::WorkerState;
use crate::crypto;
use crate::crypto::{random_bytes, MatchType};
use crate::gpu;
use crate::gpu::{
    base_params, dispatch_params, first_hit, host_match, parse_output, per_dispatch, pick_mode,
    readback_size, rebuild_pubkey, GpuKeyPair, MODE_WRITE_ALL,
};
use crate::radix;
use crate::rate::Rate;
use crate::search;
use vstd::prelude::*;

verus! {

/// A pattern that is valid and, for all practical purposes, never found: `ovdsbench42`.
pub const BENCH_PATTERN: [u8; 11] = [111, 118, 100, 115, 98, 101, 110, 99, 104, 52, 50];

/// A search in progress.
pub struct KeygenRun {
    pub match_type: MatchType,
    pub pattern: Vec<u8>,
    pub batch_k: u32,
    /// Number of the next dispatch.
    pub batch_id: u32,
    /// Who matches: the device, or the host.
    pub mode: u32,
    /// What the device gets of the pattern.
    pub symbols: Vec<u32>,
    /// Parameters that stay the same.
    pub base: [u32; 128],
}

/// The key that a record stands for. Where the device matched, it worked out `y` alone, so
/// the public key comes from the scalar.
pub open spec fn is_candidate(kp: GpuKeyPair, words: Seq<u32>, mode: u32, i: int) -> bool {
    let off = gpu::record_offset(mode, i);
    &&& kp.scalar@ == gpu::word_bytes(words, off + 8)
    &&& if mode == MODE_WRITE_ALL {
        kp.pubkey@ == gpu::word_bytes(words, off)
    } else {
        crypto::scalar_opens(kp.scalar@, kp.pubkey@)
    }
}

impl KeygenRun {
    /// The mode and the symbols are those for the pattern.
    pub open spec fn wf(&self) -> bool {
        &&& self.match_type is Anywhere ==> self.pattern@.len() > 0
        &&& self.mode == gpu::mode_for(self.match_type, self.pattern@)
        &&& gpu::symbols_for(self.match_type, self.pattern@, self.symbols@)
        &&& self.symbols@.len() <= 48
        &&& gpu::is_base_block(self.base@)
    }

    /// Whether a key has the pattern in its address.
    pub open spec fn wants(&self, kp: GpuKeyPair) -> bool {
        crypto::accepts(self.match_type, self.pattern@, kp.pubkey@)
    }

    /// What a dispatch came to: a key that has the pattern ends the search, and anything
    /// else leads to the next dispatch.
    pub open spec fn settled(
        &self,
        hit: Option<GpuKeyPair>,
        r: Option<GpuKeyPair>,
        post: KeygenRun,
    ) -> bool {
        if hit is Some && self.wants(hit->0) {
            r == hit && post == *self
        } else {
            &&& r is None
            &&& post == (KeygenRun {
                batch_id: ((self.batch_id + 1) % 0x1_0000_0000) as u32,
                ..*self
            })
        }
    }

    /// The parameter block of the next dispatch from a seed.
    pub open spec fn holds_params(&self, seed: Seq<u8>, r: Seq<u32>) -> bool {
        forall|w: int|
            0 <= w < 128 ==> #[trigger] r[w] == gpu::dispatch_word(
                self.base@,
                seed,
                self.batch_id,
                self.mode,
                self.symbols@,
                w,
            )
    }

    /// A search from the first dispatch on.
    pub fn new(match_type: MatchType, pattern: Vec<u8>, batch_k: u32) -> (r: KeygenRun)
        requires
            match_type is Anywhere ==> pattern@.len() > 0,
        ensures
            r.wf(),
            r.match_type == match_type,
            r.pattern == pattern,
            r.batch_k == batch_k,
            r.batch_id == 0,
    {
        let picked: (u32, Vec<u32>) = pick_mode(&match_type, pattern.as_slice());
        KeygenRun {
            match_type,
            pattern,
            batch_k,
            batch_id: 0,
            mode: picked.0,
            symbols: picked.1,
            base: base_params(),
        }
    }

    /// The run of a benchmark: as a search of the match type would run, for a pattern that
    /// does not turn up.
    pub fn bench(match_type: MatchType, batch_k: u32) -> (r: KeygenRun)
        ensures
            r.wf(),
            r.match_type == match_type,
            r.pattern@ == BENCH_PATTERN@,
            r.batch_k == batch_k,
            r.batch_id == 0,
            r.mode == MODE_WRITE_ALL <==> match_type is Suffix,
    {
        let mut pattern: Vec<u8> = Vec::new();
        for i in 0..11usize
            invariant
                pattern@ == BENCH_PATTERN@.take(i as int),
        {
            pattern.push(BENCH_PATTERN[i]);
            assert(pattern@ =~= BENCH_PATTERN@.take(i + 1));
        }
        proof {
            assert(BENCH_PATTERN@.take(11) =~= BENCH_PATTERN@);
            assert forall|i: int| 0 <= i < 11 implies gpu::symbol_of(
                #[trigger] BENCH_PATTERN@[i],
            ) is Some by {
                assert(BENCH_PATTERN[i] == 111 || BENCH_PATTERN[i] == 118 || BENCH_PATTERN[i] == 100
                    || BENCH_PATTERN[i] == 115 || BENCH_PATTERN[i] == 98 || BENCH_PATTERN[i] == 101
                    || BENCH_PATTERN[i] == 110 || BENCH_PATTERN[i] == 99 || BENCH_PATTERN[i] == 104
                    || BENCH_PATTERN[i] == 52 || BENCH_PATTERN[i] == 50);
            }
        }
        KeygenRun::new(match_type, pattern, batch_k)
    }

    /// Keys of a dispatch.
    pub fn keys(&self) -> (r: u64)
        ensures
            r == 16384 * self.batch_k,
    {
        per_dispatch(self.batch_k)
    }

    /// The parameter block of the next dispatch.
    pub fn params(&self, base_seed: &[u8; 32]) -> (r: [u32; 128])
        requires
            self.wf(),
        ensures
            self.holds_params(base_seed@, r@),
    {
        dispatch_params(&self.base, base_seed, self.batch_id, self.mode, self.symbols.as_slice())
    }

    /// The parameter block of the next dispatch, from a seed drawn by chance.
    pub fn fresh_params(&self) -> (r: [u32; 128])
        requires
            self.wf(),
        ensures
            exists|seed: Seq<u8>|
                seed.len() == 32 && #[trigger] self.holds_params(seed, r@),
    {
        let seed: [u8; 32] = random_bytes();
        let r: [u32; 128] = self.params(&seed);
        assert(self.holds_params(seed@, r@));
        r
    }

    /// Bytes to read back.
    pub fn readback(&self) -> (r: u64)
        ensures
            r == if self.mode != MODE_WRITE_ALL {
                16400int
            } else {
                0x10_0000 * self.batch_k
            },
    {
        readback_size(self.mode, self.batch_k)
    }

    /// The keys of a dispatch.
    pub fn candidates(&self, words: &[u32]) -> (r: Vec<GpuKeyPair>)
        requires
            4 * words@.len() >= if self.mode != MODE_WRITE_ALL {
                16400int
            } else {
                0x10_0000 * self.batch_k
            },
        ensures
            r@.len() == gpu::record_count(words@, self.mode, self.batch_k),
            forall|i: int|
                0 <= i < r@.len() ==> is_candidate(#[trigger] r@[i], words@, self.mode, i),
    {
        let records: Vec<GpuKeyPair> = parse_output(words, self.mode, self.batch_k);
        if self.mode == MODE_WRITE_ALL {
            assert forall|i: int| 0 <= i < records@.len() implies is_candidate(
                #[trigger] records@[i],
                words@,
                self.mode,
                i,
            ) by {
                assert(gpu::is_record(records@[i], words@, gpu::record_offset(self.mode, i)));
            }
            return records;
        }
        let mut r: Vec<GpuKeyPair> = Vec::new();
        for i in 0..records.len()
            invariant
                self.mode != MODE_WRITE_ALL,
                r@.len() == i,
                forall|k: int|
                    0 <= k < records@.len() ==> gpu::is_record(
                        #[trigger] records@[k],
                        words@,
                        gpu::record_offset(self.mode, k),
                    ),
                forall|k: int|
                    0 <= k < i ==> is_candidate(#[trigger] r@[k], words@, self.mode, k),
        {
            let scalar: [u8; 32] = records[i].scalar;
            let pubkey: [u8; 32] = rebuild_pubkey(&scalar);
            assert(gpu::is_record(
                records@[i as int],
                words@,
                gpu::record_offset(self.mode, i as int),
            ));
            r.push(GpuKeyPair { pubkey, scalar });
        }
        r
    }

    /// Whether a key has the pattern in its address.
    pub fn matches(&self, kp: &GpuKeyPair) -> (r: bool)
        requires
            self.wf(),
        ensures
            r == self.wants(*kp),
    {
        host_match(&self.match_type, self.pattern.as_slice(), kp)
    }

    /// The first of a few keys that has the pattern in its address.
    pub fn first_match(&self, keys: &[GpuKeyPair]) -> (r: Option<GpuKeyPair>)
        requires
            self.wf(),
        ensures
            gpu::is_first_hit(self.match_type, self.pattern@, keys@, r),
    {
        first_hit(&self.match_type, self.pattern.as_slice(), keys)
    }

    /// Takes what a dispatch came to. A key is let through only if it has the pattern in
    /// its address; otherwise the search goes on with the next dispatch.
    pub fn settle(&mut self, hit: Option<GpuKeyPair>) -> (r: Option<GpuKeyPair>)
        requires
            old(self).wf(),
        ensures
            final(self).wf(),
            old(self).settled(hit, r, *final(self)),
    {
        if let Some(kp) = hit {
            if self.matches(&kp) {
                return Some(kp);
            }
        }
        self.batch_id = self.batch_id.wrapping_add(1);
        None
    }
}

/// A benchmark in progress.
pub struct BenchRun {
    pub run: KeygenRun,
    /// Nanoseconds after which no further dispatch starts.
    pub target: u64,
    /// Keys of the dispatches so far.
    pub total: u64,
}

impl BenchRun {
    /// The run is that of a benchmark.
    pub open spec fn wf(&self) -> bool {
        &&& self.run.wf()
        &&& self.run.pattern@ == BENCH_PATTERN@
    }

    /// Keys so far with those of one dispatch more, at most what a counter holds.
    pub open spec fn next_total(&self) -> u64 {
        let sum = self.total + 16384 * self.run.batch_k;
        if sum <= u64::MAX {
            sum as u64
        } else {
            u64::MAX
        }
    }

    /// The benchmark with one dispatch more.
    pub open spec fn advanced(&self, post: BenchRun) -> bool {
        &&& post.total == self.next_total()
        &&& post.target == self.target
        &&& post.run == (KeygenRun {
            batch_id: ((self.run.batch_id + 1) % 0x1_0000_0000) as u32,
            ..self.run
        })
    }

    /// What is reported of a dispatch that ended `elapsed` nanoseconds after the start: its
    /// keys, and all keys so far over the time that has passed.
    pub open spec fn reported(&self, elapsed: u64, state: WorkerState, post: WorkerState) -> bool {
        post == (WorkerState {
            attempts: ((state.attempts + 16384 * self.run.batch_k)
                % 0x1_0000_0000_0000_0000) as u64,
            bench_rate: if elapsed > 0 {
                Some(Rate { count: self.next_total(), nanos: elapsed })
            } else {
                state.bench_rate
            },
            ..state
        })
    }

    /// A benchmark of a match type, before the first dispatch.
    pub fn new(match_type: MatchType, batch_k: u32, target: u64) -> (r: BenchRun)
        ensures
            r.wf(),
            r.run.match_type == match_type,
            r.run.batch_k == batch_k,
            r.run.batch_id == 0,
            r.run.mode == MODE_WRITE_ALL <==> match_type is Suffix,
            r.target == target,
            r.total == 0,
    {
        BenchRun { run: KeygenRun::bench(match_type, batch_k), target, total: 0 }
    }

    /// Whether another dispatch starts: nobody asked to stop, and the time is not up.
    pub fn goes_on(&self, stop: bool, elapsed: u64) -> (r: bool)
        ensures
            r == (!stop && elapsed < self.target),
    {
        !stop && elapsed < self.target
    }

    /// Takes a dispatch that ended `elapsed` nanoseconds after the start: counts its keys,
    /// puts down the rate so far, and moves on to the next one.
    pub fn dispatched(&mut self, elapsed: u64, state: &mut WorkerState)
        requires
            old(self).wf(),
        ensures
            final(self).wf(),
            old(self).advanced(*final(self)),
            old(self).reported(elapsed, *old(state), *final(state)),
    {
        let keys: u64 = self.run.keys();
        self.total = self.total.saturating_add(keys);
        state.count(keys);
        state.report_rate(self.total, elapsed);
        let _ = self.run.settle(None);
    }
}

/// After any number of dispatches a benchmark has counted the keys of each of them, and the
/// rate on record is all of them over the time at which the last one ended.
pub proof fn law_bench_rate(
    runs: Seq<BenchRun>,
    states: Seq<WorkerState>,
    times: Seq<u64>,
    n: nat,
)
    requires
        runs.len() > n,
        states.len() > n,
        times.len() >= n,
        runs[0].total == 0,
        forall|i: int| 0 <= i < n ==> (#[trigger] runs[i]).advanced(runs[i + 1]),
        forall|i: int|
            0 <= i < n ==> (#[trigger] runs[i]).reported(times[i], states[i], states[i + 1]),
        n * (16384 * runs[0].run.batch_k) <= u64::MAX,
    ensures
        runs[n as int].total == n * (16384 * runs[0].run.batch_k),
        runs[n as int].run.batch_k == runs[0].run.batch_k,
        n > 0 && times[n - 1] > 0 ==> states[n as int].bench_rate == Some(
            Rate {
                count: (n * (16384 * runs[0].run.batch_k)) as u64,
                nanos: times[n - 1],
            },
        ),
    decreases n,
{
    let keys = 16384 * runs[0].run.batch_k;
    if n > 0 {
        let m = (n - 1) as nat;
        assert(n * keys == m * keys + keys) by (nonlinear_arith)
            requires
                n == m + 1,
        ;
        law_bench_rate(runs, states, times, m);
        assert(runs[m as int].advanced(runs[n as int]));
        assert(runs[m as int].reported(times[m as int], states[m as int], states[n as int]));
    }
}

/// The device is told what to look for. For a prefix and for a pattern anywhere alike, if the
/// device can match it, the block of every dispatch holds the number of its characters and,
/// for each of them, its place in the alphabet; the mode tells the two apart. It holds the
/// number of the dispatch and the seed as well.
pub proof fn law_device_gets_pattern(run: KeygenRun, seed: [u8; 32], r: [u32; 128], i: int)
    requires
        run.wf(),
        !(run.match_type is Suffix),
        run.pattern@.len() <= 48,
        forall|k: int|
            0 <= k < run.pattern@.len() ==> "abcdefghijklmnopqrstuvwxyz234567"@.contains(
                (#[trigger] run.pattern@[k]) as char,
            ),
        call_ensures(KeygenRun::params, (&run, &seed), r),
        0 <= i < run.pattern@.len(),
    ensures
        r[10] == if run.match_type is Prefix {
            0int
        } else {
            2
        },
        r[11] == run.pattern@.len(),
        r[76 + i] < 32,
        "abcdefghijklmnopqrstuvwxyz234567"@[r[76 + i] as int] == run.pattern@[i] as char,
        r[8] == run.batch_id,
        forall|k: int|
            0 <= k < 8 ==> r[k] == #[trigger] seed[4 * k] + 256 * seed[4 * k + 1] + 0x1_0000
                * seed[4 * k + 2] + 0x100_0000 * seed[4 * k + 3],
{
    let a = "abcdefghijklmnopqrstuvwxyz234567"@;
    assert forall|k: int| 0 <= k < run.pattern@.len() implies gpu::symbol_of(
        #[trigger] run.pattern@[k],
    ) is Some by {
        gpu::lemma_symbol_is_place(run.pattern@[k]);
    }
    assert(gpu::device_pattern(run.pattern@));
    assert(r[10] == run.mode);
    assert(r[11] == run.symbols@.len());
    assert(r[76 + i] == run.symbols@[i]);
    gpu::lemma_symbol_is_place(run.pattern@[i]);
    assert forall|k: int| 0 <= k < 8 implies r[k] == #[trigger] seed[4 * k] + 256 * seed[4 * k + 1]
        + 0x1_0000 * seed[4 * k + 2] + 0x100_0000 * seed[4 * k + 3] by {
        assert(r[k] == gpu::le_word(seed@, k));
    }
}

/// A block with a seed drawn by chance tells the device the same of the pattern.
pub proof fn law_fresh_params_hold_pattern(run: KeygenRun, r: [u32; 128], i: int)
    requires
        run.wf(),
        call_ensures(KeygenRun::fresh_params, (&run,), r),
    ensures
        r[8] == run.batch_id,
        r[10] == run.mode,
        r[9] == run.base[9],
        12 <= i < 76 ==> r[i] == run.base[i],
        run.mode != 1 ==> r[11] == run.pattern@.len(),
        run.mode != 1 && 0 <= i < run.pattern@.len() ==> r[76 + i] < 32
            && "abcdefghijklmnopqrstuvwxyz234567"@[r[76 + i] as int] == run.pattern@[i] as char,
        run.mode == 1 <==> run.match_type is Suffix || run.pattern@.len() > 48 || exists|k: int|
            0 <= k < run.pattern@.len() && !"abcdefghijklmnopqrstuvwxyz234567"@.contains(
                (#[trigger] run.pattern@[k]) as char,
            ),
{
    let seed = choose|seed: Seq<u8>| seed.len() == 32 && #[trigger] run.holds_params(seed, r@);
    assert(r@[8] == run.batch_id && r@[10] == run.mode && r@[9] == run.base@[9]);
    if 12 <= i < 76 {
        assert(r@[i] == run.base@[i]);
    }
    assert forall|k: int| 0 <= k < run.pattern@.len() implies (gpu::symbol_of(
        #[trigger] run.pattern@[k],
    ) is Some <==> "abcdefghijklmnopqrstuvwxyz234567"@.contains(run.pattern@[k] as char)) by {
        gpu::lemma_symbol_is_place(run.pattern@[k]);
    }
    if run.mode != 1 {
        assert(r@[11] == run.symbols@.len());
        if 0 <= i < run.pattern@.len() {
            assert(r@[76 + i] == run.symbols@[i]);
            gpu::lemma_symbol_is_place(run.pattern@[i]);
        }
    }
}

/// Where the host matches, the device is told to return everything.
pub proof fn law_host_gets_everything(run: KeygenRun, seed: [u8; 32], r: [u32; 128])
    requires
        run.wf(),
        run.match_type is Suffix || run.pattern@.len() > 48,
        call_ensures(KeygenRun::params, (&run, &seed), r),
    ensures
        r[10] == 1,
        r[8] == run.batch_id,
        forall|k: int|
            0 <= k < 8 ==> r[k] == #[trigger] seed[4 * k] + 256 * seed[4 * k + 1] + 0x1_0000
                * seed[4 * k + 2] + 0x100_0000 * seed[4 * k + 3],
{
    assert(r[10] == run.mode);
    assert forall|k: int| 0 <= k < 8 implies r[k] == #[trigger] seed[4 * k] + 256 * seed[4 * k + 1]
        + 0x1_0000 * seed[4 * k + 2] + 0x100_0000 * seed[4 * k + 3] by {
        assert(r[k] == gpu::le_word(seed@, k));
    }
}

/// The base point goes along in every dispatch, whatever is searched for.
pub proof fn law_params_keep_base(run: KeygenRun, seed: [u8; 32], r: [u32; 128], w: int)
    requires
        run.wf(),
        call_ensures(KeygenRun::params, (&run, &seed), r),
        w == 9 || 12 <= w < 76,
    ensures
        r[w] == run.base[w],
{
    assert(r[w] == gpu::dispatch_word(
        run.base@,
        seed@,
        run.batch_id,
        run.mode,
        run.symbols@,
        w,
    ));
}

/// A search starts with the match type, the pattern and the batch size that were asked for.
pub proof fn law_new_run(match_type: MatchType, pattern: Vec<u8>, batch_k: u32, r: KeygenRun)
    requires
        call_ensures(KeygenRun::new, (match_type, pattern, batch_k), r),
    ensures
        r.match_type == match_type,
        r.pattern@ == pattern@,
        r.batch_k == batch_k,
        r.batch_id == 0,
        r.base[9] == 16384,
{
    let bt = choose|bt: Seq<u8>|
        bt.len() == 32 && radix::le_value(bt) == (radix::le_value(gpu::BX_LE@) * radix::le_value(
            gpu::BY_LE@,
        )) % radix::prime() && forall|w: int|
            0 <= w < 128 ==> #[trigger] r.base@[w] == gpu::base_word(bt, w);
    assert(r.base@[9] == gpu::base_word(bt, 9));
}

/// No key is lost and no wrong one gets through. If the address of any key of a dispatch shows
/// the pattern, looking for the first and settling gives one that does, and the search ends; if
/// none does, the search goes on with the next dispatch, for the same pattern.
pub proof fn law_dispatch_settles(
    run: KeygenRun,
    keys: &[GpuKeyPair],
    hit: Option<GpuKeyPair>,
    r: Option<GpuKeyPair>,
    post: KeygenRun,
)
    requires
        run.wf(),
        call_ensures(KeygenRun::first_match, (&run, keys), hit),
        run.settled(hit, r, post),
    ensures
        r is Some <==> exists|i: int|
            0 <= i < keys@.len() && search::shows(
                run.match_type,
                run.pattern@,
                crypto::onion_address((#[trigger] keys@[i]).pubkey@),
            ),
        r matches Some(kp) ==> keys@.contains(kp) && search::shows(
            run.match_type,
            run.pattern@,
            crypto::onion_address(kp.pubkey@),
        ),
        r is Some ==> post.batch_id == run.batch_id,
        r is None ==> post.batch_id == if run.batch_id < u32::MAX {
            run.batch_id + 1
        } else {
            0
        },
        post.match_type == run.match_type,
        post.pattern == run.pattern,
        post.batch_k == run.batch_k,
        post.mode == run.mode,
        post.symbols == run.symbols,
        post.base == run.base,
{
    assert forall|k: int| 0 <= k < keys@.len() implies crypto::accepts(
        run.match_type,
        run.pattern@,
        (#[trigger] keys@[k]).pubkey@,
    ) == search::shows(
        run.match_type,
        run.pattern@,
        crypto::onion_address(keys@[k].pubkey@),
    ) by {
        search::law_shown_is_accepted(run.match_type, run.pattern@, keys@[k].pubkey@);
    }
    assert(gpu::is_first_hit(run.match_type, run.pattern@, keys@, hit));
    if let Some(kp) = hit {
        let i = choose|i: int|
            0 <= i < keys@.len() && #[trigger] keys@[i] == kp && crypto::accepts(
                run.match_type,
                run.pattern@,
                kp.pubkey@,
            );
        assert(keys@[i] == kp);
    }
}

/// Settling by itself: whatever was handed in, only a key whose address shows the pattern
/// comes out.
pub proof fn law_settle_rechecks(
    run: KeygenRun,
    hit: Option<GpuKeyPair>,
    r: Option<GpuKeyPair>,
    post: KeygenRun,
)
    requires
        run.settled(hit, r, post),
    ensures
        r matches Some(kp) ==> hit == Some(kp) && search::shows(
            run.match_type,
            run.pattern@,
            crypto::onion_address(kp.pubkey@),
        ),
        hit matches Some(kp) && search::shows(
            run.match_type,
            run.pattern@,
            crypto::onion_address(kp.pubkey@),
        ) ==> r == hit,
{
    if let Some(kp) = hit {
        search::law_shown_is_accepted(run.match_type, run.pattern@, kp.pubkey@);
    }
}

/// Asking of one key.
pub proof fn law_run_matches(run: KeygenRun, kp: GpuKeyPair, r: bool)
    requires
        call_ensures(KeygenRun::matches, (&run, &kp), r),
    ensures
        r == search::shows(run.match_type, run.pattern@, crypto::onion_address(kp.pubkey@)),
{
    search::law_shown_is_accepted(run.match_type, run.pattern@, kp.pubkey@);
}

/// How many keys a dispatch has: where the device matched, as many as word 0 says, up to 256;
/// where it returned everything, one for every candidate.
pub proof fn law_candidate_count(run: KeygenRun, words: &[u32], r: Vec<GpuKeyPair>)
    requires
        call_ensures(KeygenRun::candidates, (&run, words), r),
    ensures
        run.mode != 1 && words@[0] <= 256 ==> r@.len() == words@[0],
        run.mode != 1 && words@[0] > 256 ==> r@.len() == 256,
        run.mode == 1 ==> r@.len() == 16384 * run.batch_k,
{
}

/// The keys of a dispatch: each has the scalar that the device wrote in its record. Where the
/// device matched, the public key is the one that the scalar opens; where it returned
/// everything, it is the one that the device wrote.
pub proof fn law_candidates(run: KeygenRun, words: &[u32], r: Vec<GpuKeyPair>, i: int, k: int)
    requires
        run.wf(),
        call_ensures(KeygenRun::candidates, (&run, words), r),
        0 <= i < r@.len(),
        0 <= k < 8,
    ensures
        ({
            let off = if run.mode == 1 {
                16 * i
            } else {
                4 + 16 * i
            };
            let p = r@[i].pubkey@;
            let s = r@[i].scalar@;
            &&& words@[off + 8 + k] == s[4 * k] + 256 * s[4 * k + 1] + 0x1_0000 * s[4 * k + 2]
                + 0x100_0000 * s[4 * k + 3]
            &&& run.mode == 1 ==> words@[off + k] == p[4 * k] + 256 * p[4 * k + 1] + 0x1_0000 * p[4
                * k + 2] + 0x100_0000 * p[4 * k + 3]
            &&& run.mode != 1 ==> crypto::scalar_opens(s, p)
        }),
{
    let off = gpu::record_offset(run.mode, i);
    assert(is_candidate(r@[i], words@, run.mode, i));
    gpu::lemma_bytes_of_word(words@, off, k);
    gpu::lemma_bytes_of_word(words@, off + 8, k);
}

/// Keys of a dispatch and bytes to read back, which are enough for all of its records.
pub proof fn law_run_sizes(run: KeygenRun, keys: u64, bytes: u64)
    requires
        run.wf(),
        call_ensures(KeygenRun::keys, (&run,), keys),
        call_ensures(KeygenRun::readback, (&run,), bytes),
    ensures
        keys == 16384 * run.batch_k,
        run.mode == 1 ==> bytes == keys * 16 * 4,
        run.mode != 1 ==> bytes == 4 * (4 + 256 * 16),
{
}

/// A benchmark runs as a search of the match type would, on the device for a prefix and
/// anywhere, on the host for a suffix, for eleven characters of the alphabet.
pub proof fn law_bench_run(match_type: MatchType, batch_k: u32, target: u64, r: BenchRun)
    requires
        call_ensures(BenchRun::new, (match_type, batch_k, target), r),
    ensures
        r.run.match_type == match_type,
        r.run.batch_k == batch_k,
        r.run.batch_id == 0,
        r.run.mode == (match match_type {
            MatchType::Prefix => 0int,
            MatchType::Suffix => 1,
            MatchType::Anywhere => 2,
        }),
        r.run.pattern@.len() == 11,
        forall|i: int|
            0 <= i < 11 ==> (#[trigger] r.run.pattern@[i]) as char == "ovdsbench42"@[i]
                && r.run.pattern@[i] < 128,
        r.target == target,
        r.total == 0,
{
    reveal_strlit("ovdsbench42");
}

/// A benchmark goes on until it is stopped or its time is up: once ended it stays ended, and
/// the last moment before the target still counts.
pub proof fn law_bench_ends(run: BenchRun, stop: bool, elapsed: u64, r: bool)
    requires
        call_ensures(BenchRun::goes_on, (&run, stop, elapsed), r),
    ensures
        stop ==> !r,
        elapsed >= run.target ==> !r,
        !stop && elapsed < run.target ==> r,
{
}

/// Each dispatch of a benchmark adds its keys to the worker's count and moves on by one; the
/// worker's other state stays.
pub proof fn law_bench_dispatch(
    run: BenchRun,
    post: BenchRun,
    elapsed: u64,
    state: WorkerState,
    after: WorkerState,
)
    requires
        run.advanced(post),
        run.reported(elapsed, state, after),
    ensures
        state.attempts + 16384 * run.run.batch_k <= u64::MAX ==> after.attempts == state.attempts
            + 16384 * run.run.batch_k,
        after.stop == state.stop,
        after.result == state.result,
        after.error == state.error,
        elapsed == 0 ==> after.bench_rate == state.bench_rate,
        elapsed > 0 ==> after.bench_rate == Some(Rate { count: post.total, nanos: elapsed }),
        run.total + 16384 * run.run.batch_k <= u64::MAX ==> post.total == run.total + 16384
            * run.run.batch_k,
        run.total + 16384 * run.run.batch_k > u64::MAX ==> post.total == u64::MAX,
        post.target == run.target,
        post.run.pattern == run.run.pattern,
        post.run.match_type == run.run.match_type,
        post.run.batch_k == run.run.batch_k,
        post.run.mode == run.run.mode,
        run.run.batch_id < u32::MAX ==> post.run.batch_id == run.run.batch_id + 1,
{
}

} // verus!
