//! The session: what is being edited, what is running, and what each key and each poll
//! of the worker does.

use crate::crypto;
use crate::crypto::{Backend, MatchType, ADDRESS_LEN};
use crate::gpu;
use crate::gpu::{batch_k_options, default_batch_k, GpuInfo, BATCH_K};
use crate::radix;
use crate::rate;
use crate::rate::{Rate, RateTracker};
use crate::text;
use crate::text::{decimal_string, is_base32_char, joined};
use vstd::prelude::*;
use vstd::string::StrSliceExecFns;
use vstd::string::StringExecFns;
use vstd::string::StringSliceAdditionalSpecFns;
use vstd::utf8::*;

verus! {

// ---- the worker ----

/// A find: the address, and the directory that its keys were written to.
pub struct FoundResult {
    pub address: String,
    pub key_path: String,
}

impl Clone for FoundResult {
    fn clone(&self) -> (r: Self)
        ensures
            r.address@ == self.address@,
            r.key_path@ == self.key_path@,
            r == *self,
    {
        FoundResult { address: self.address.clone(), key_path: self.key_path.clone() }
    }
}

/// What a worker has got to.
pub struct WorkerState {
    pub attempts: u64,
    pub stop: bool,
    pub result: Option<FoundResult>,
    pub error: Option<String>,
    /// The steady rate of a benchmark, without start-up, once it is measured.
    pub bench_rate: Option<Rate>,
}

impl WorkerState {
    /// So many keys more, wrapping.
    pub open spec fn counted(&self, n: u64, post: WorkerState) -> bool {
        post == (WorkerState {
            attempts: ((self.attempts + n) % 0x1_0000_0000_0000_0000) as u64,
            ..*self
        })
    }

    /// A find, which counts if it is the first.
    pub open spec fn published(&self, found: FoundResult, post: WorkerState) -> bool {
        &&& self.result is None ==> post == (WorkerState {
            result: Some(found),
            stop: true,
            ..*self
        })
        &&& self.result is Some ==> post == *self
    }

    /// The steady rate, if any time passed.
    pub open spec fn rated(&self, count: u64, nanos: u64, post: WorkerState) -> bool {
        post == (WorkerState {
            bench_rate: if nanos > 0 {
                Some(Rate { count, nanos })
            } else {
                self.bench_rate
            },
            ..*self
        })
    }

    /// A failure.
    pub open spec fn failed(&self, message: String, post: WorkerState) -> bool {
        post == (WorkerState { error: Some(message), stop: true, ..*self })
    }

    pub fn new() -> (r: WorkerState)
        ensures
            r.attempts == 0,
            !r.stop,
            r.result is None,
            r.error is None,
            r.bench_rate is None,
    {
        WorkerState { attempts: 0, stop: false, result: None, error: None, bench_rate: None }
    }

    pub fn attempts(&self) -> (r: u64)
        ensures
            r == self.attempts,
    {
        self.attempts
    }

    /// Asks the worker to stop.
    pub fn stop(&mut self)
        ensures
            *final(self) == (WorkerState { stop: true, ..*old(self) }),
    {
        self.stop = true;
    }

    /// Counts keys tried, wrapping.
    pub fn count(&mut self, n: u64)
        ensures
            old(self).counted(n, *final(self)),
    {
        self.attempts = self.attempts.wrapping_add(n);
    }

    /// Records a find. The first one counts and stops the search; later ones are dropped.
    pub fn publish(&mut self, found: FoundResult)
        ensures
            old(self).published(found, *final(self)),
    {
        if self.result.is_none() {
            self.result = Some(found);
            self.stop = true;
        }
    }

    /// Records the steady rate of a benchmark: keys over nanoseconds, if any passed.
    pub fn report_rate(&mut self, count: u64, nanos: u64)
        ensures
            old(self).rated(count, nanos, *final(self)),
    {
        if nanos > 0 {
            self.bench_rate = Some(Rate { count, nanos });
        }
    }

    /// Records a failure and stops.
    pub fn fail(&mut self, message: String)
        ensures
            old(self).failed(message, *final(self)),
    {
        self.error = Some(message);
        self.stop = true;
    }
}

/// Keys are counted one for one, as long as the counter holds them, and in any order.
pub proof fn law_keys_counted(w: WorkerState, m: u64, n: u64, mid: WorkerState, post: WorkerState)
    requires
        w.counted(m, mid),
        mid.counted(n, post),
    ensures
        w.attempts + m + n <= u64::MAX ==> post.attempts == w.attempts + m + n,
        (post.attempts - (w.attempts + m + n)) % 0x1_0000_0000_0000_0000 == 0,
        post.stop == w.stop,
        post.result == w.result,
        post.error == w.error,
        post.bench_rate == w.bench_rate,
{
}

/// The first find stays, stops the worker and changes nothing else; a later one is dropped.
pub proof fn law_first_find_stays(
    w: WorkerState,
    a: FoundResult,
    b: FoundResult,
    mid: WorkerState,
    post: WorkerState,
)
    requires
        w.result is None,
        w.published(a, mid),
        mid.published(b, post),
    ensures
        mid.result == Some(a),
        mid.stop,
        mid.attempts == w.attempts,
        mid.error == w.error,
        mid.bench_rate == w.bench_rate,
        post == mid,
{
}

/// A rate is put down as it was measured, the latest one stays, and one over no time is not
/// put down.
pub proof fn law_latest_rate_stays(
    w: WorkerState,
    count: u64,
    nanos: u64,
    post: WorkerState,
)
    requires
        w.rated(count, nanos, post),
    ensures
        nanos > 0 ==> post.bench_rate is Some && post.bench_rate->0.count == count
            && post.bench_rate->0.nanos == nanos,
        nanos == 0 ==> post.bench_rate == w.bench_rate,
        post.attempts == w.attempts,
        post.stop == w.stop,
        post.result == w.result,
        post.error == w.error,
{
}

/// A failure is kept with its message, stops the worker and takes nothing back.
pub proof fn law_failure_stops(w: WorkerState, message: String, post: WorkerState)
    requires
        w.failed(message, post),
    ensures
        post.stop,
        post.error is Some,
        post.error->0@ == message@,
        post.attempts == w.attempts,
        post.result == w.result,
        post.bench_rate == w.bench_rate,
{
}

// ---- choices ----

/// Which panel keys go to.
#[derive(Clone, Copy, PartialEq, Eq, Debug, Structural)]
pub enum FocusedPanel {
    Pattern,
    Actions,
}

impl FocusedPanel {
    pub open spec fn spec_toggle(self) -> FocusedPanel {
        match self {
            FocusedPanel::Pattern => FocusedPanel::Actions,
            FocusedPanel::Actions => FocusedPanel::Pattern,
        }
    }

    pub fn toggle(&self) -> (r: FocusedPanel)
        ensures
            r == self.spec_toggle(),
    {
        match self {
            FocusedPanel::Pattern => FocusedPanel::Actions,
            FocusedPanel::Actions => FocusedPanel::Pattern,
        }
    }
}

/// Toggling twice changes nothing.
pub proof fn law_panel_toggle(p: FocusedPanel)
    ensures
        p.spec_toggle().spec_toggle() == p,
        p.spec_toggle() != p,
{
}

/// A row of the search panel.
#[derive(Clone, Copy, PartialEq, Eq, Debug, Structural)]
pub enum SearchField {
    Pattern,
    Match,
    Backend,
    Batch,
}

impl SearchField {
    /// The row below; the batch row is there only if `batch`, and the last row leads back
    /// to the first.
    pub open spec fn spec_below(self, batch: bool) -> SearchField {
        match self {
            SearchField::Pattern => SearchField::Match,
            SearchField::Match => SearchField::Backend,
            SearchField::Backend => if batch {
                SearchField::Batch
            } else {
                SearchField::Pattern
            },
            SearchField::Batch => SearchField::Pattern,
        }
    }

    /// The row above, likewise.
    pub open spec fn spec_above(self, batch: bool) -> SearchField {
        match self {
            SearchField::Pattern => if batch {
                SearchField::Batch
            } else {
                SearchField::Backend
            },
            SearchField::Match => SearchField::Pattern,
            SearchField::Backend => SearchField::Match,
            SearchField::Batch => SearchField::Backend,
        }
    }

    pub fn below(&self, batch: bool) -> (r: SearchField)
        ensures
            r == self.spec_below(batch),
    {
        match self {
            SearchField::Pattern => SearchField::Match,
            SearchField::Match => SearchField::Backend,
            SearchField::Backend => if batch {
                SearchField::Batch
            } else {
                SearchField::Pattern
            },
            SearchField::Batch => SearchField::Pattern,
        }
    }

    pub fn above(&self, batch: bool) -> (r: SearchField)
        ensures
            r == self.spec_above(batch),
    {
        match self {
            SearchField::Pattern => if batch {
                SearchField::Batch
            } else {
                SearchField::Backend
            },
            SearchField::Match => SearchField::Pattern,
            SearchField::Backend => SearchField::Match,
            SearchField::Batch => SearchField::Backend,
        }
    }
}

/// Up undoes down and down undoes up, on the rows that are there.
pub proof fn law_field_moves(f: SearchField, batch: bool)
    requires
        f == SearchField::Batch ==> batch,
    ensures
        f.spec_below(batch).spec_above(batch) == f,
        f.spec_above(batch).spec_below(batch) == f,
        f.spec_below(batch) == SearchField::Batch ==> batch,
        f.spec_above(batch) == SearchField::Batch ==> batch,
{
}

// ---- measured rates ----

/// The rates measured so far, one per backend and match type.
pub struct Benchmarks {
    pub rates: [Option<Rate>; 6],
}

/// The slot of a backend and a match type.
pub open spec fn bench_slot(backend: Backend, match_type: MatchType) -> int {
    (match backend {
        Backend::Cpu => 0int,
        Backend::Gpu => 3int,
    }) + (match match_type {
        MatchType::Prefix => 0int,
        MatchType::Suffix => 1int,
        MatchType::Anywhere => 2int,
    })
}

/// Different combinations have different slots.
pub proof fn law_slots_distinct(b1: Backend, m1: MatchType, b2: Backend, m2: MatchType)
    ensures
        0 <= bench_slot(b1, m1) < 6,
        bench_slot(b1, m1) == bench_slot(b2, m2) <==> b1 == b2 && m1 == m2,
{
}

/// The slot of a backend and a match type.
pub fn slot_of(backend: Backend, match_type: MatchType) -> (r: usize)
    ensures
        r == bench_slot(backend, match_type),
        r < 6,
{
    let base: usize = match backend {
        Backend::Cpu => 0,
        Backend::Gpu => 3,
    };
    let off: usize = match match_type {
        MatchType::Prefix => 0,
        MatchType::Suffix => 1,
        MatchType::Anywhere => 2,
    };
    base + off
}

/// Every combination, in the order of the slots.
pub fn bench_slots() -> (r: Vec<(Backend, MatchType)>)
    ensures
        r@.len() == 6,
        forall|i: int| 0 <= i < 6 ==> bench_slot((#[trigger] r@[i]).0, r@[i].1) == i,
{
    vec![
        (Backend::Cpu, MatchType::Prefix),
        (Backend::Cpu, MatchType::Suffix),
        (Backend::Cpu, MatchType::Anywhere),
        (Backend::Gpu, MatchType::Prefix),
        (Backend::Gpu, MatchType::Suffix),
        (Backend::Gpu, MatchType::Anywhere),
    ]
}

impl Benchmarks {
    /// The rate of a combination, if it was measured.
    pub open spec fn spec_get(&self, backend: Backend, match_type: MatchType) -> Option<Rate> {
        self.rates[bench_slot(backend, match_type)]
    }

    /// One rate more, or another one.
    pub open spec fn remembered(
        &self,
        backend: Backend,
        match_type: MatchType,
        rate: Rate,
        post: Benchmarks,
    ) -> bool {
        post.rates@ == self.rates@.update(bench_slot(backend, match_type), Some(rate))
    }

    pub fn new() -> (r: Benchmarks)
        ensures
            forall|b: Backend, m: MatchType| #[trigger] r.spec_get(b, m) is None,
    {
        Benchmarks { rates: [None, None, None, None, None, None] }
    }

    pub fn get(&self, backend: Backend, match_type: MatchType) -> (r: Option<Rate>)
        ensures
            r == self.spec_get(backend, match_type),
    {
        self.rates[slot_of(backend, match_type)]
    }

    /// Remembers a rate; the other combinations keep theirs.
    pub fn set(&mut self, backend: Backend, match_type: MatchType, rate: Rate)
        ensures
            old(self).remembered(backend, match_type, rate, *final(self)),
    {
        let i: usize = slot_of(backend, match_type);
        self.rates[i] = Some(rate);
    }
}

/// What was remembered is what is got, for the backend and the match type that it was measured
/// on; all other combinations keep what they had.
pub proof fn law_rates_remembered(
    b: Benchmarks,
    backend: Backend,
    match_type: MatchType,
    rate: Rate,
    post: Benchmarks,
    other: (Backend, MatchType),
    r: Option<Rate>,
    before: Option<Rate>,
)
    requires
        b.remembered(backend, match_type, rate, post),
        call_ensures(Benchmarks::get, (&post, other.0, other.1), r),
        call_ensures(Benchmarks::get, (&b, other.0, other.1), before),
    ensures
        r == if other == (backend, match_type) {
            Some(rate)
        } else {
            before
        },
{
    law_slots_distinct(backend, match_type, other.0, other.1);
}

// ---- the session ----

/// What is going on. Times are in nanoseconds since the program started.
pub enum Mode {
    Idle,
    Benchmarking { started: u64, backend: Backend, match_type: MatchType },
    Generating { started: u64, backend: Backend },
    Found { result: FoundResult, attempts: u64, elapsed: u64 },
    Error(String),
}

/// What the caller has to do after an event.
#[derive(Clone, Copy, PartialEq, Eq, Debug, Structural)]
pub enum Action {
    Nothing,
    /// Ask the running worker to stop.
    StopWorker,
    /// Start a benchmark on the backend.
    StartBenchmark(Backend),
    /// Start a search on the backend.
    StartSearch(Backend),
}

/// A key press.
#[derive(Clone, Copy, PartialEq, Eq, Debug, Structural)]
pub enum Key {
    Char(char),
    Esc,
    Tab,
    Backspace,
    Delete,
    Left,
    Right,
    Up,
    Down,
    Other,
}

pub struct App {
    pub pattern: String,
    pub match_type: MatchType,
    pub mode: Mode,
    pub benchmarks: Benchmarks,
    pub tracker: RateTracker,
    pub threads: usize,
    pub backend: Backend,
    pub gpu: Option<GpuInfo>,
    pub gpu_init_error: Option<String>,
    pub status_msg: String,
    pub focused_panel: FocusedPanel,
    pub search_field: SearchField,
    pub batch_k: u32,
    pub batch_k_options: Vec<u32>,
    pub quit: bool,
}

/// A text takes up at least a byte for each character.
proof fn lemma_chars_fit(s: Seq<char>)
    ensures
        s.len() <= encode_utf8(s).len(),
    decreases s.len(),
{
    if s.len() > 0 {
        lemma_chars_fit(s.drop_first());
    }
}

/// Every character is of the base32 alphabet.
pub open spec fn all_valid(s: Seq<char>) -> bool {
    forall|i: int| 0 <= i < s.len() ==> text::base32_char(#[trigger] s[i])
}

/// Why the GPU cannot be used.
pub open spec fn gpu_reason(error: Option<String>) -> Seq<char> {
    match error {
        Some(e) => e@,
        None => "no adapter"@,
    }
}

/// A letter in lower case; anything else as it is.
pub open spec fn lowered(c: char) -> char {
    if 'A' <= c && c <= 'Z' {
        (c as u32 + 32) as char
    } else {
        c
    }
}

fn lower(c: char) -> (r: char)
    ensures
        r == lowered(c),
{
    let v: u32 = c as u32;
    if v >= 65 && v <= 90 {
        (v as u8 + 32) as char
    } else {
        c
    }
}

/// How long a benchmark may run, in nanoseconds, until it is taken as over.
pub const BENCH_LIMIT: u64 = 6_000_000_000;

/// The shortest time that a rate is taken over, in nanoseconds.
pub const SHORTEST: u64 = 100_000_000;

/// Time since `started`.
pub open spec fn since(started: u64, now: u64) -> u64 {
    if now >= started {
        (now - started) as u64
    } else {
        0
    }
}

/// The rate of a benchmark: the steady one if the worker measured it, else all keys over
/// all the time, but never over less than a tenth of a second.
pub open spec fn measured(worker: WorkerState, elapsed: u64) -> Rate {
    if worker.bench_rate is Some && worker.bench_rate->0.nanos > 0 {
        worker.bench_rate->0
    } else {
        Rate {
            count: worker.attempts,
            nanos: if elapsed > SHORTEST {
                elapsed
            } else {
                SHORTEST
            },
        }
    }
}

fn measure(worker: &WorkerState, elapsed: u64) -> (r: Rate)
    ensures
        r == measured(*worker, elapsed),
        r.nanos > 0,
{
    match worker.bench_rate {
        Some(rate) if rate.nanos > 0 => rate,
        _ => Rate {
            count: worker.attempts,
            nanos: if elapsed > SHORTEST {
                elapsed
            } else {
                SHORTEST
            },
        },
    }
}

// What each event does to a session.
impl App {
    /// What holds of every session: the pattern is no longer than an address, the batch
    /// size is one of those on offer, and the cursor stands on a row that is there.
    pub open spec fn wf(&self) -> bool {
        &&& self.pattern@.len() <= 56
        &&& self.tracker.wf()
        &&& self.batch_k_options@.contains(self.batch_k)
        &&& forall|i: int, j: int|
            0 <= i < j < self.batch_k_options@.len() ==> self.batch_k_options@[i]
                < self.batch_k_options@[j]
        &&& self.search_field == SearchField::Batch ==> self.batch_shown()
    }

    /// The batch row is there: the GPU is chosen and available.
    pub open spec fn batch_shown(&self) -> bool {
        self.backend == Backend::Gpu && self.gpu is Some
    }

    /// What the status line says after a switch to `backend`.
    pub open spec fn backend_status(&self, backend: Backend) -> Seq<char> {
        match backend {
            Backend::Cpu => "Backend: CPU ("@ + text::decimal(self.threads as nat) + " threads)"@,
            Backend::Gpu => match self.gpu {
                None => "GPU unavailable: "@ + gpu_reason(self.gpu_init_error),
                Some(info) => "Backend: GPU ("@ + info.spec_detail() + ")"@,
            },
        }
    }

    /// The other backend, and a cursor that leaves the batch row if it goes.
    pub open spec fn backend_toggled(&self, post: App) -> bool {
        &&& post.status_msg@ == self.backend_status(self.backend.spec_toggle())
        &&& post == (App {
            backend: self.backend.spec_toggle(),
            status_msg: post.status_msg,
            search_field: if self.search_field == SearchField::Batch {
                SearchField::Backend
            } else {
                self.search_field
            },
            ..*self
        })
    }

    /// The pattern takes up fewer bytes than an address.
    pub open spec fn has_room(&self) -> bool {
        encode_utf8(self.pattern@).len() < 56
    }

    /// One character more, valid or not, while there is room; else nothing.
    pub open spec fn typed(&self, c: char, post: App) -> bool {
        &&& post.pattern@ == if self.has_room() {
            self.pattern@.push(c)
        } else {
            self.pattern@
        }
        &&& post == (App { pattern: post.pattern, ..*self })
    }

    /// One character less, if there is one.
    pub open spec fn erased(&self, post: App) -> bool {
        &&& post.pattern@ == if self.pattern@.len() > 0 {
            self.pattern@.drop_last()
        } else {
            self.pattern@
        }
        &&& post == (App { pattern: post.pattern, ..*self })
    }

    /// The next or the previous match type.
    pub open spec fn match_cycled(&self, forward: bool, post: App) -> bool {
        post == (App {
            match_type: if forward {
                self.match_type.spec_next()
            } else {
                self.match_type.spec_prev()
            },
            ..*self
        })
    }

    /// The next or the previous batch size on offer, round in a circle.
    pub open spec fn batch_cycled(&self, forward: bool, post: App) -> bool {
        let n = self.batch_k_options@.len() as int;
        let i = self.batch_k_options@.index_of(self.batch_k);
        post == (App {
            batch_k: self.batch_k_options@[(if forward {
                i + 1
            } else {
                i + n - 1
            }) % n],
            ..*self
        })
    }

    /// The row below or above.
    pub open spec fn field_moved(&self, down: bool, post: App) -> bool {
        post == (App {
            search_field: if down {
                self.search_field.spec_below(self.batch_shown())
            } else {
                self.search_field.spec_above(self.batch_shown())
            },
            ..*self
        })
    }

    /// Another value for the row that the cursor is on.
    pub open spec fn field_changed(&self, forward: bool, post: App) -> bool {
        match self.search_field {
            SearchField::Pattern => post == *self,
            SearchField::Match => self.match_cycled(forward, post),
            SearchField::Backend => self.backend_toggled(post),
            SearchField::Batch => self.batch_cycled(forward, post),
        }
    }

    /// The other panel.
    pub open spec fn panel_cycled(&self, post: App) -> bool {
        post == (App { focused_panel: self.focused_panel.spec_toggle(), ..*self })
    }

    /// A benchmark of the chosen backend, if it is there.
    pub open spec fn benchmark_started(&self, now: u64, post: App, action: Action) -> bool {
        if self.backend == Backend::Gpu && self.gpu is None {
            &&& action == Action::Nothing
            &&& post.status_msg@ == "GPU unavailable: "@ + gpu_reason(self.gpu_init_error)
            &&& post == (App { status_msg: post.status_msg, ..*self })
        } else {
            &&& action == Action::StartBenchmark(self.backend)
            &&& post.status_msg@ == match self.backend {
                Backend::Cpu => "Benchmarking CPU key generation..."@,
                Backend::Gpu => "Benchmarking GPU ("@ + self.gpu->0.spec_detail()
                    + ") key generation..."@,
            }
            &&& post == (App {
                mode: Mode::Benchmarking {
                    started: now,
                    backend: self.backend,
                    match_type: self.match_type,
                },
                status_msg: post.status_msg,
                ..*self
            })
        }
    }

    /// Where a search runs: on the chosen backend, or on the CPU if there is no GPU.
    pub open spec fn search_backend(&self) -> Backend {
        if self.batch_shown() {
            Backend::Gpu
        } else {
            Backend::Cpu
        }
    }

    /// A search, if there is a pattern to search for.
    pub open spec fn search_started(&self, now: u64, post: App, action: Action) -> bool {
        if self.pattern@.len() == 0 || !all_valid(self.pattern@) {
            &&& action == Action::Nothing
            &&& post.status_msg@ == "Invalid pattern - use a-z and 2-7 only"@
            &&& post == (App { status_msg: post.status_msg, ..*self })
        } else {
            &&& action == Action::StartSearch(self.search_backend())
            &&& post.status_msg@ == match self.search_backend() {
                Backend::Cpu => "Searching..."@,
                Backend::Gpu => "Searching on GPU..."@,
            }
            &&& post.tracker.is_new()
            &&& post == (App {
                mode: Mode::Generating { started: now, backend: self.search_backend() },
                tracker: post.tracker,
                status_msg: post.status_msg,
                ..*self
            })
        }
    }

    /// Nothing runs any more.
    pub open spec fn stopped(&self, post: App, action: Action) -> bool {
        &&& action == if self.mode is Benchmarking || self.mode is Generating {
            Action::StopWorker
        } else {
            Action::Nothing
        }
        &&& post.status_msg@ == "Stopped."@
        &&& post == (App { mode: Mode::Idle, status_msg: post.status_msg, ..*self })
    }

    /// What the status line says after a benchmark.
    pub open spec fn rate_status(&self, backend: Backend, rate: Rate) -> Seq<char> {
        match backend {
            Backend::Cpu => "CPU benchmark done: "@ + text::decimal(rate.spec_rounded() as nat)
                + " keys/s on "@ + text::decimal(self.threads as nat) + " threads"@,
            Backend::Gpu => "GPU benchmark done: "@ + text::decimal(rate.spec_rounded() as nat)
                + " keys/s"@,
        }
    }

    /// A look at the benchmark's worker: when it has stopped, or time is up, the rate goes
    /// into its slot. A failure on the GPU leaves its message and no rate.
    pub open spec fn benchmark_polled(
        &self,
        now: u64,
        worker: WorkerState,
        started: u64,
        backend: Backend,
        match_type: MatchType,
        post: App,
    ) -> bool {
        let elapsed = since(started, now);
        let rate = measured(worker, elapsed);
        if !worker.stop && elapsed < BENCH_LIMIT {
            post == *self
        } else if backend == Backend::Gpu && worker.error is Some {
            &&& post.status_msg@ == worker.error->0@
            &&& post == (App { mode: Mode::Idle, status_msg: post.status_msg, ..*self })
        } else {
            &&& post.status_msg@ == self.rate_status(backend, rate)
            &&& post.benchmarks.rates@ == self.benchmarks.rates@.update(
                bench_slot(backend, match_type),
                Some(rate),
            )
            &&& post == (App {
                mode: Mode::Idle,
                benchmarks: post.benchmarks,
                status_msg: post.status_msg,
                ..*self
            })
        }
    }

    /// A look at the search's worker: the tracker takes the total, a find ends the search,
    /// a failure ends it with its message.
    pub open spec fn search_polled(
        &self,
        now: u64,
        worker: WorkerState,
        started: u64,
        post: App,
    ) -> bool {
        &&& if self.tracker.accepts_total(now, worker.attempts) {
            self.tracker.updated(now, worker.attempts, post.tracker)
        } else {
            post.tracker == self.tracker
        }
        &&& if worker.result is Some {
            &&& post.status_msg@ == "Found!"@
            &&& post == (App {
                mode: Mode::Found {
                    result: worker.result->0,
                    attempts: worker.attempts,
                    elapsed: since(started, now),
                },
                tracker: post.tracker,
                status_msg: post.status_msg,
                ..*self
            })
        } else if worker.error is Some {
            &&& post.status_msg@ == worker.error->0@
            &&& post == (App {
                mode: Mode::Idle,
                tracker: post.tracker,
                status_msg: post.status_msg,
                ..*self
            })
        } else {
            post == (App { tracker: post.tracker, ..*self })
        }
    }

    /// A look at the worker.
    pub open spec fn polled(&self, now: u64, worker: WorkerState, post: App) -> bool {
        match self.mode {
            Mode::Benchmarking { started, backend, match_type } => self.benchmark_polled(
                now,
                worker,
                started,
                backend,
                match_type,
                post,
            ),
            Mode::Generating { started, .. } => self.search_polled(now, worker, started, post),
            _ => post == *self,
        }
    }

    /// A key while nothing runs and the search panel has the keys.
    pub open spec fn search_key(&self, key: Key, post: App) -> bool {
        match key {
            Key::Esc => post == (App { quit: true, ..*self }),
            Key::Backspace => self.erased(post),
            Key::Delete => self.erased(post),
            Key::Up => self.field_moved(false, post),
            Key::Down => self.field_moved(true, post),
            Key::Left => self.field_changed(false, post),
            Key::Right => self.field_changed(true, post),
            Key::Char(c) => self.typed(lowered(c), post),
            _ => post == *self,
        }
    }

    /// A key while nothing runs and the actions panel has the keys.
    pub open spec fn action_key(&self, key: Key, now: u64, post: App, action: Action) -> bool {
        if key == Key::Char('b') || key == Key::Char('B') {
            self.benchmark_started(now, post, action)
        } else if key == Key::Char('g') || key == Key::Char('G') {
            self.search_started(now, post, action)
        } else {
            &&& action == Action::Nothing
            &&& post == (App { quit: self.quit || key == Key::Esc, ..*self })
        }
    }

    /// A key. `q` quits from anywhere; Tab changes the panel where there is something to
    /// edit; the rest goes by what is going on.
    pub open spec fn key_handled(&self, key: Key, now: u64, post: App, action: Action) -> bool {
        if key == Key::Char('q') || key == Key::Char('Q') {
            &&& post.quit
            &&& self.stopped((App { quit: self.quit, ..post }), action)
        } else if key == Key::Tab {
            &&& action == Action::Nothing
            &&& if self.mode is Idle || self.mode is Error {
                self.panel_cycled(post)
            } else {
                post == *self
            }
        } else {
            match self.mode {
                Mode::Error(_) => {
                    &&& action == Action::Nothing
                    &&& post == if key == Key::Esc {
                        App { mode: Mode::Idle, ..*self }
                    } else {
                        *self
                    }
                },
                Mode::Found { .. } => {
                    &&& action == Action::Nothing
                    &&& if key == Key::Char('n') || key == Key::Char('N') {
                        &&& post.status_msg@.len() == 0
                        &&& post == (App {
                            mode: Mode::Idle,
                            status_msg: post.status_msg,
                            ..*self
                        })
                    } else {
                        post == *self
                    }
                },
                Mode::Benchmarking { .. } => action == Action::Nothing && post == *self,
                Mode::Generating { .. } => if key == Key::Char('s') || key == Key::Char('S') {
                    self.stopped(post, action)
                } else {
                    action == Action::Nothing && post == *self
                },
                Mode::Idle => match self.focused_panel {
                    FocusedPanel::Pattern => action == Action::Nothing && self.search_key(
                        key,
                        post,
                    ),
                    FocusedPanel::Actions => self.action_key(key, now, post, action),
                },
            }
        }
    }
}

impl App {
    /// A fresh session.
    pub fn new(threads: usize, gpu: Option<GpuInfo>, gpu_init_error: Option<String>) -> (r: App)
        ensures
            r.wf(),
            r.pattern@.len() == 0,
            r.match_type == MatchType::Prefix,
            r.mode is Idle,
            forall|b: Backend, m: MatchType| #[trigger] r.benchmarks.spec_get(b, m) is None,
            r.tracker.is_new(),
            r.threads == threads,
            r.backend == Backend::Cpu,
            r.gpu == gpu,
            r.gpu_init_error == gpu_init_error,
            r.status_msg@.len() == 0,
            r.focused_panel == FocusedPanel::Pattern,
            r.search_field == SearchField::Pattern,
            gpu is None ==> r.batch_k == BATCH_K && r.batch_k_options@ == seq![BATCH_K],
            gpu matches Some(info) ==> {
                &&& r.batch_k == gpu::spec_default_batch_k(info.limits)
                &&& gpu::is_offer(info.limits, r.batch_k_options@)
            },
            !r.quit,
    {
        let mut options: Vec<u32> = Vec::new();
        let mut batch_k: u32 = BATCH_K;
        match &gpu {
            Some(info) => {
                options = batch_k_options(&info.limits);
                batch_k = default_batch_k(&info.limits);
                proof {
                    gpu::law_default_offered(info.limits, options@);
                    assert forall|i: int, j: int| 0 <= i < j < options@.len() implies options@[i]
                        < options@[j] by {
                        gpu::lemma_offer_grows(info.limits, options@, i, j);
                    }
                }
            },
            None => {
                options.push(BATCH_K);
                assert(options@ =~= seq![BATCH_K]);
                assert(options@[0] == BATCH_K);
            },
        }
        App {
            pattern: String::new(),
            match_type: MatchType::Prefix,
            mode: Mode::Idle,
            benchmarks: Benchmarks::new(),
            tracker: RateTracker::new(),
            threads,
            backend: Backend::Cpu,
            gpu,
            gpu_init_error,
            status_msg: String::new(),
            focused_panel: FocusedPanel::Pattern,
            search_field: SearchField::Pattern,
            batch_k,
            batch_k_options: options,
            quit: false,
        }
    }

    /// Why the GPU cannot be used.
    fn gpu_unavailable(&self) -> (r: String)
        ensures
            r@ == "GPU unavailable: "@ + gpu_reason(self.gpu_init_error),
    {
        match &self.gpu_init_error {
            Some(e) => joined("GPU unavailable: ", e.as_str()),
            None => joined("GPU unavailable: ", "no adapter"),
        }
    }

    /// Switches to the other backend. The cursor leaves the batch row if it goes.
    pub fn toggle_backend(&mut self)
        requires
            old(self).wf(),
        ensures
            final(self).wf(),
            old(self).backend_toggled(*final(self)),
    {
        let backend: Backend = self.backend.toggle();
        let message: String = match backend {
            Backend::Cpu => {
                let mut m: String = joined(
                    "Backend: CPU (",
                    decimal_string(self.threads as u128).as_str(),
                );
                m.append(" threads)");
                m
            },
            Backend::Gpu => match &self.gpu {
                None => self.gpu_unavailable(),
                Some(info) => {
                    let mut m: String = joined("Backend: GPU (", info.detail().as_str());
                    m.append(")");
                    m
                },
            },
        };
        if self.search_field == SearchField::Batch {
            self.search_field = SearchField::Backend;
        }
        self.backend = backend;
        self.status_msg = message;
    }

    pub fn cycle_panel(&mut self)
        requires
            old(self).wf(),
        ensures
            final(self).wf(),
            old(self).panel_cycled(*final(self)),
    {
        self.focused_panel = self.focused_panel.toggle();
    }

    /// Whether the pattern can be searched for: not empty, and valid throughout.
    pub fn pattern_valid(&self) -> (r: bool)
        ensures
            r == (self.pattern@.len() > 0 && all_valid(self.pattern@)),
    {
        let s: &str = self.pattern.as_str();
        let n: usize = s.unicode_len();
        for i in 0..n
            invariant
                n == s@.len(),
                s@ == self.pattern@,
                forall|k: int| 0 <= k < i ==> text::base32_char(#[trigger] s@[k]),
        {
            if !is_base32_char(s.get_char(i)) {
                assert(!text::base32_char(self.pattern@[i as int]));
                return false;
            }
        }
        n > 0
    }

    /// Appends a character while the pattern is shorter than an address. One that no address
    /// holds is kept too: the search panel marks it, and no search starts with it.
    pub fn type_char(&mut self, c: char)
        requires
            old(self).wf(),
        ensures
            final(self).wf(),
            old(self).typed(c, *final(self)),
    {
        let n: usize = self.pattern.as_str().as_bytes().len();
        if n < ADDRESS_LEN {
            proof {
                lemma_chars_fit(self.pattern@);
            }
            self.pattern.push(c);
        }
    }

    /// Deletes the last character, if there is one.
    pub fn backspace(&mut self)
        requires
            old(self).wf(),
        ensures
            final(self).wf(),
            old(self).erased(*final(self)),
    {
        let _ = self.pattern.pop();
    }

    pub fn cycle_match_type(&mut self, forward: bool)
        requires
            old(self).wf(),
        ensures
            final(self).wf(),
            old(self).match_cycled(forward, *final(self)),
    {
        self.match_type = if forward {
            self.match_type.next()
        } else {
            self.match_type.prev()
        };
    }

    /// Takes the next or the previous batch size on offer, round in a circle.
    pub fn cycle_batch(&mut self, forward: bool)
        requires
            old(self).wf(),
        ensures
            final(self).wf(),
            old(self).batch_cycled(forward, *final(self)),
    {
        let n: usize = self.batch_k_options.len();
        let mut i: usize = 0;
        let ghost opts = self.batch_k_options@;
        let ghost k = self.batch_k;
        while i < n && self.batch_k_options[i] != self.batch_k
            invariant
                *self == *old(self),
                opts == self.batch_k_options@,
                k == self.batch_k,
                opts.contains(k),
                n == opts.len(),
                i <= n,
                forall|j: int| 0 <= j < i ==> #[trigger] opts[j] != k,
            decreases n - i,
        {
            i = i + 1;
        }
        proof {
            let w = choose|w: int| 0 <= w < opts.len() && opts[w] == k;
            assert(opts[w] == k);
            assert(i < n);
        }
        let next: usize = if forward {
            if i + 1 == n {
                0
            } else {
                i + 1
            }
        } else if i == 0 {
            n - 1
        } else {
            i - 1
        };
        proof {
            lemma_wrap(i as int, n as int);
        }
        self.batch_k = self.batch_k_options[next];
    }

    /// Moves the cursor to the row below or above.
    pub fn move_field(&mut self, down: bool)
        requires
            old(self).wf(),
        ensures
            final(self).wf(),
            old(self).field_moved(down, *final(self)),
    {
        let batch: bool = self.backend == Backend::Gpu && self.gpu.is_some();
        self.search_field = if down {
            self.search_field.below(batch)
        } else {
            self.search_field.above(batch)
        };
    }

    /// Changes the row that the cursor is on.
    pub fn change_field(&mut self, forward: bool)
        requires
            old(self).wf(),
        ensures
            final(self).wf(),
            old(self).field_changed(forward, *final(self)),
    {
        match self.search_field {
            SearchField::Pattern => {},
            SearchField::Match => self.cycle_match_type(forward),
            SearchField::Backend => self.toggle_backend(),
            SearchField::Batch => self.cycle_batch(forward),
        }
    }

    /// Starts a benchmark of the chosen backend.
    pub fn start_benchmark(&mut self, now: u64) -> (action: Action)
        requires
            old(self).wf(),
        ensures
            final(self).wf(),
            old(self).benchmark_started(now, *final(self), action),
    {
        let message: String = match self.backend {
            Backend::Cpu => String::from_str("Benchmarking CPU key generation..."),
            Backend::Gpu => match &self.gpu {
                None => {
                    self.status_msg = self.gpu_unavailable();
                    return Action::Nothing;
                },
                Some(info) => {
                    let mut m: String = joined("Benchmarking GPU (", info.detail().as_str());
                    m.append(") key generation...");
                    m
                },
            },
        };
        self.status_msg = message;
        self.mode = Mode::Benchmarking {
            started: now,
            backend: self.backend,
            match_type: self.match_type,
        };
        Action::StartBenchmark(self.backend)
    }

    /// Starts a search for the pattern; without a GPU it runs on the CPU.
    pub fn start_generate(&mut self, now: u64) -> (action: Action)
        requires
            old(self).wf(),
        ensures
            final(self).wf(),
            old(self).search_started(now, *final(self), action),
    {
        if !self.pattern_valid() {
            self.status_msg = String::from_str("Invalid pattern - use a-z and 2-7 only");
            return Action::Nothing;
        }
        let backend: Backend = if self.backend == Backend::Gpu && self.gpu.is_some() {
            Backend::Gpu
        } else {
            Backend::Cpu
        };
        self.status_msg = match backend {
            Backend::Cpu => String::from_str("Searching..."),
            Backend::Gpu => String::from_str("Searching on GPU..."),
        };
        self.tracker = RateTracker::new();
        self.mode = Mode::Generating { started: now, backend };
        Action::StartSearch(backend)
    }

    /// Stops whatever runs.
    pub fn stop(&mut self) -> (action: Action)
        requires
            old(self).wf(),
        ensures
            final(self).wf(),
            old(self).stopped(*final(self), action),
    {
        let action: Action = match &self.mode {
            Mode::Benchmarking { .. } => Action::StopWorker,
            Mode::Generating { .. } => Action::StopWorker,
            _ => Action::Nothing,
        };
        self.mode = Mode::Idle;
        self.status_msg = String::from_str("Stopped.");
        action
    }

    /// Ends a benchmark with its rate.
    fn finish_benchmark(&mut self, backend: Backend, match_type: MatchType, rate: Rate)
        requires
            old(self).wf(),
            rate.nanos > 0,
        ensures
            final(self).wf(),
            final(self).status_msg@ == old(self).rate_status(backend, rate),
            final(self).benchmarks.rates@ == old(self).benchmarks.rates@.update(
                bench_slot(backend, match_type),
                Some(rate),
            ),
            *final(self) == (App {
                mode: Mode::Idle,
                benchmarks: final(self).benchmarks,
                status_msg: final(self).status_msg,
                ..*old(self)
            }),
    {
        let figure: String = decimal_string(rate.rounded());
        let message: String = match backend {
            Backend::Cpu => {
                let mut m: String = joined("CPU benchmark done: ", figure.as_str());
                m.append(" keys/s on ");
                m.append(decimal_string(self.threads as u128).as_str());
                m.append(" threads");
                m
            },
            Backend::Gpu => {
                let mut m: String = joined("GPU benchmark done: ", figure.as_str());
                m.append(" keys/s");
                m
            },
        };
        self.benchmarks.set(backend, match_type, rate);
        self.status_msg = message;
        self.mode = Mode::Idle;
    }

    fn poll_benchmark(
        &mut self,
        now: u64,
        worker: &WorkerState,
        started: u64,
        backend: Backend,
        match_type: MatchType,
    )
        requires
            old(self).wf(),
        ensures
            final(self).wf(),
            old(self).benchmark_polled(now, *worker, started, backend, match_type, *final(self)),
    {
        let elapsed: u64 = now.saturating_sub(started);
        if !worker.stop && elapsed < BENCH_LIMIT {
            return ;
        }
        let rate: Rate = measure(worker, elapsed);
        match &worker.error {
            Some(e) if backend == Backend::Gpu => {
                self.status_msg = e.clone();
                self.mode = Mode::Idle;
            },
            _ => {
                self.finish_benchmark(backend, match_type, rate);
            },
        }
    }

    fn poll_search(&mut self, now: u64, worker: &WorkerState, started: u64)
        requires
            old(self).wf(),
        ensures
            final(self).wf(),
            old(self).search_polled(now, *worker, started, *final(self)),
    {
        let attempts: u64 = worker.attempts();
        if self.tracker.check_total(now, attempts) {
            self.tracker.update(now, attempts);
        }
        if let Some(found) = &worker.result {
            self.mode = Mode::Found {
                result: found.clone(),
                attempts,
                elapsed: now.saturating_sub(started),
            };
            self.status_msg = String::from_str("Found!");
        } else if let Some(err) = &worker.error {
            self.status_msg = err.clone();
            self.mode = Mode::Idle;
        }
    }

    /// Looks at the worker: call on each tick.
    pub fn tick(&mut self, now: u64, worker: &WorkerState)
        requires
            old(self).wf(),
        ensures
            final(self).wf(),
            old(self).polled(now, *worker, *final(self)),
    {
        match self.mode {
            Mode::Benchmarking { started, backend, match_type } => {
                self.poll_benchmark(now, worker, started, backend, match_type);
            },
            Mode::Generating { started, .. } => {
                self.poll_search(now, worker, started);
            },
            _ => {},
        }
    }

    fn handle_search_key(&mut self, key: Key)
        requires
            old(self).wf(),
        ensures
            final(self).wf(),
            old(self).search_key(key, *final(self)),
    {
        match key {
            Key::Esc => {
                self.quit = true;
            },
            Key::Backspace => self.backspace(),
            Key::Delete => self.backspace(),
            Key::Up => self.move_field(false),
            Key::Down => self.move_field(true),
            Key::Left => self.change_field(false),
            Key::Right => self.change_field(true),
            Key::Char(c) => self.type_char(lower(c)),
            _ => {},
        }
    }

    fn handle_action_key(&mut self, key: Key, now: u64) -> (action: Action)
        requires
            old(self).wf(),
        ensures
            final(self).wf(),
            old(self).action_key(key, now, *final(self), action),
    {
        if key == Key::Char('b') || key == Key::Char('B') {
            self.start_benchmark(now)
        } else if key == Key::Char('g') || key == Key::Char('G') {
            self.start_generate(now)
        } else {
            if key == Key::Esc {
                self.quit = true;
            }
            Action::Nothing
        }
    }

    /// Handles a key press.
    pub fn handle_key(&mut self, key: Key, now: u64) -> (action: Action)
        requires
            old(self).wf(),
        ensures
            final(self).wf(),
            old(self).key_handled(key, now, *final(self), action),
    {
        if key == Key::Char('q') || key == Key::Char('Q') {
            let action: Action = self.stop();
            self.quit = true;
            return action;
        }
        if key == Key::Tab {
            match &self.mode {
                Mode::Idle => self.cycle_panel(),
                Mode::Error(_) => self.cycle_panel(),
                _ => {},
            }
            return Action::Nothing;
        }
        match &self.mode {
            Mode::Error(_) => {
                if key == Key::Esc {
                    self.mode = Mode::Idle;
                }
                Action::Nothing
            },
            Mode::Found { .. } => {
                if key == Key::Char('n') || key == Key::Char('N') {
                    self.mode = Mode::Idle;
                    self.status_msg = String::new();
                }
                Action::Nothing
            },
            Mode::Benchmarking { .. } => Action::Nothing,
            Mode::Generating { .. } => {
                if key == Key::Char('s') || key == Key::Char('S') {
                    self.stop()
                } else {
                    Action::Nothing
                }
            },
            Mode::Idle => match self.focused_panel {
                FocusedPanel::Pattern => {
                    self.handle_search_key(key);
                    Action::Nothing
                },
                FocusedPanel::Actions => self.handle_action_key(key, now),
            },
        }
    }
}

/// `q` quits whatever is going on, and a running worker is asked to stop.
pub proof fn law_q_quits(app: App, now: u64, post: App, action: Action)
    requires
        app.key_handled(Key::Char('q'), now, post, action) || app.key_handled(
            Key::Char('Q'),
            now,
            post,
            action,
        ),
    ensures
        post.quit,
        post.mode is Idle,
        app.mode is Benchmarking || app.mode is Generating ==> action == Action::StopWorker,
{
}

/// While a search or a benchmark runs, no key changes what is searched for or where.
pub proof fn law_settings_fixed_while_running(
    app: App,
    key: Key,
    now: u64,
    post: App,
    action: Action,
)
    requires
        app.mode is Benchmarking || app.mode is Generating,
        app.key_handled(key, now, post, action),
    ensures
        post.pattern == app.pattern,
        post.match_type == app.match_type,
        post.backend == app.backend,
        post.batch_k == app.batch_k,
        post.benchmarks == app.benchmarks,
        action == Action::Nothing || action == Action::StopWorker,
{
}

/// A worker is started only by `b` and `g` in the actions panel while nothing runs, and a
/// search only for a pattern that an address can hold.
pub proof fn law_start_needs_idle(app: App, key: Key, now: u64, post: App, action: Action)
    requires
        app.wf(),
        app.key_handled(key, now, post, action),
        action is StartBenchmark || action is StartSearch,
    ensures
        app.mode is Idle,
        app.focused_panel == FocusedPanel::Actions,
        action is StartSearch ==> 1 <= app.pattern@.len() <= 56 && all_valid(app.pattern@),
        action == Action::StartSearch(Backend::Gpu) || action == Action::StartBenchmark(
            Backend::Gpu,
        ) ==> app.gpu is Some,
{
}

/// A character that no address holds can be typed like any other, and no search starts
/// while it stands in the pattern.
pub proof fn law_invalid_pattern_refused(
    app: App,
    c: char,
    mid: App,
    now: u64,
    post: App,
    action: Action,
)
    requires
        app.has_room(),
        !text::base32_char(c),
        app.typed(c, mid),
        mid.search_started(now, post, action),
    ensures
        mid.pattern@ == app.pattern@.push(c),
        action == Action::Nothing,
        post.pattern == mid.pattern,
        post.mode == mid.mode,
{
    assert(mid.pattern@[app.pattern@.len() as int] == c);
}

/// Backspace undoes a character that was typed.
pub proof fn law_backspace_undoes_typing(app: App, c: char, mid: App, post: App)
    requires
        app.has_room(),
        app.typed(c, mid),
        mid.erased(post),
    ensures
        post.pattern@ == app.pattern@,
        post == (App { pattern: post.pattern, ..app }),
{
    assert(app.pattern@.push(c).drop_last() =~= app.pattern@);
}

/// Up undoes down.
pub proof fn law_up_undoes_down(app: App, mid: App, post: App)
    requires
        app.wf(),
        app.field_moved(true, mid),
        mid.field_moved(false, post),
    ensures
        post == app,
{
    law_field_moves(app.search_field, app.batch_shown());
}

/// Left undoes right on the batch row.
pub proof fn law_batch_back(app: App, mid: App, post: App)
    requires
        app.wf(),
        app.batch_cycled(true, mid),
        mid.batch_cycled(false, post),
    ensures
        post == app,
{
    let s = app.batch_k_options@;
    let n = s.len() as int;
    let i = s.index_of(app.batch_k);
    let w = choose|w: int| 0 <= w < s.len() && s[w] == app.batch_k;
    assert(s[w] == app.batch_k);
    assert(0 <= i < n && s[i] == app.batch_k);
    lemma_wrap(i, n);
    let j = (i + 1) % n;
    assert(s[j] == mid.batch_k);
    let k = s.index_of(mid.batch_k);
    assert(0 <= k < n && s[k] == mid.batch_k);
    assert(k == j);
    lemma_wrap(j, n);
}

/// A find ends the search: the result, the count and the time are kept, and `n` leads back.
pub proof fn law_find_ends_search(
    app: App,
    now: u64,
    worker: WorkerState,
    post: App,
    again: App,
    action: Action,
)
    requires
        app.mode is Generating,
        worker.result is Some,
        app.polled(now, worker, post),
        post.key_handled(Key::Char('n'), now, again, action),
    ensures
        post.mode is Found,
        post.mode->Found_result == worker.result->0,
        post.mode->Found_attempts == worker.attempts,
        again.mode is Idle,
        again.pattern == app.pattern,
{
}

proof fn lemma_wrap(i: int, n: int)
    requires
        0 <= i < n,
    ensures
        (i + 1) % n == if i + 1 == n {
            0
        } else {
            i + 1
        },
        (i + n - 1) % n == if i == 0 {
            n - 1
        } else {
            i - 1
        },
{
    vstd::arithmetic::div_mod::lemma_small_mod(0, n as nat);
    vstd::arithmetic::div_mod::lemma_mod_self_0(n);
    if i + 1 < n {
        vstd::arithmetic::div_mod::lemma_small_mod((i + 1) as nat, n as nat);
    }
    if i > 0 {
        vstd::arithmetic::div_mod::lemma_mod_add_multiples_vanish(i - 1, n);
        vstd::arithmetic::div_mod::lemma_small_mod((i - 1) as nat, n as nat);
    } else {
        vstd::arithmetic::div_mod::lemma_small_mod((n - 1) as nat, n as nat);
    }
}

// ---- what a session does, key by key and tick by tick ----

/// A fresh session: nothing typed, nothing running, nothing measured, a prefix on the CPU, and
/// the cursor on the pattern.
pub proof fn law_fresh_session(
    threads: usize,
    gpu: Option<GpuInfo>,
    error: Option<String>,
    r: App,
    backend: Backend,
    match_type: MatchType,
    rate: Option<Rate>,
)
    requires
        call_ensures(App::new, (threads, gpu, error), r),
        call_ensures(Benchmarks::get, (&r.benchmarks, backend, match_type), rate),
    ensures
        r.pattern@.len() == 0,
        r.status_msg@.len() == 0,
        r.mode is Idle,
        rate is None,
        r.match_type is Prefix,
        r.backend is Cpu,
        r.threads == threads,
        r.gpu == gpu,
        r.gpu_init_error == error,
        r.focused_panel is Pattern,
        r.search_field is Pattern,
        !r.quit,
        r.tracker.samples@.len() == 0,
        r.tracker.history@.len() == 0,
        r.tracker.last_rate is None,
        gpu is None ==> r.batch_k == 64 && r.batch_k_options@ == seq![64u32],
        r.batch_k_options@.contains(r.batch_k),
        r.batch_k <= 256,
{
}

/// A benchmark ends when its worker has stopped or six seconds are over, and not before. Then
/// the rate is remembered for the backend and the match type that it was started with, and for
/// no other: the steady rate if the worker measured one, else all keys that were tried over all
/// the time that has passed since the start, or over a tenth of a second if that is longer.
pub proof fn law_benchmark_ends(
    app: App,
    now: u64,
    worker: WorkerState,
    post: App,
    started: u64,
    backend: Backend,
    match_type: MatchType,
    b: Backend,
    m: MatchType,
)
    requires
        app.mode == (Mode::Benchmarking { started, backend, match_type }),
        app.polled(now, worker, post),
    ensures
        !worker.stop && now < started + 6_000_000_000 ==> post == app,
        (worker.stop || now >= started + 6_000_000_000) ==> {
            &&& post.mode is Idle
            &&& post.pattern == app.pattern
            &&& post.match_type == app.match_type
            &&& post.backend == app.backend
            &&& post.quit == app.quit
            &&& b != backend || m != match_type ==> post.benchmarks.spec_get(b, m)
                == app.benchmarks.spec_get(b, m)
            &&& if backend is Gpu && worker.error is Some {
                &&& post.status_msg@ == worker.error->0@
                &&& post.benchmarks == app.benchmarks
            } else {
                &&& post.benchmarks.spec_get(backend, match_type) matches Some(rate)
                &&& worker.bench_rate is Some && worker.bench_rate->0.nanos > 0 ==> rate
                    == worker.bench_rate->0
                &&& worker.bench_rate is None || worker.bench_rate->0.nanos == 0 ==> {
                    &&& rate.count == worker.attempts
                    &&& now >= started + 100_000_000 ==> rate.nanos == now - started
                    &&& now < started + 100_000_000 ==> rate.nanos == 100_000_000
                }
            }
        },
{
    law_slots_distinct(backend, match_type, b, m);
    law_slots_distinct(backend, match_type, backend, match_type);
}

/// From the key to the figure: a benchmark started at one time and seen to have stopped at a
/// later one is remembered with the time between the two, and the status line gives its whole
/// keys per second, off by half of one at most.
pub proof fn law_benchmark_from_start_to_end(
    app: App,
    t0: u64,
    mid: App,
    action: Action,
    t1: u64,
    worker: WorkerState,
    post: App,
)
    requires
        app.mode is Idle,
        app.focused_panel is Actions,
        app.key_handled(Key::Char('b'), t0, mid, action),
        action is StartBenchmark,
        t1 >= t0 + 100_000_000,
        worker.stop,
        worker.error is None,
        worker.bench_rate is None,
        mid.polled(t1, worker, post),
    ensures
        action == Action::StartBenchmark(app.backend),
        post.mode is Idle,
        post.benchmarks.spec_get(app.backend, app.match_type) == Some(
            Rate { count: worker.attempts, nanos: (t1 - t0) as u64 },
        ),
        exists|n: nat|
            {
                &&& 2 * (n * (t1 - t0) - worker.attempts * 1_000_000_000) <= t1 - t0
                &&& 2 * (worker.attempts * 1_000_000_000 - n * (t1 - t0)) <= t1 - t0
                &&& post.status_msg@ == if app.backend is Cpu {
                    "CPU benchmark done: "@ + #[trigger] text::decimal(n) + " keys/s on "@
                        + text::decimal(app.threads as nat) + " threads"@
                } else {
                    "GPU benchmark done: "@ + text::decimal(n) + " keys/s"@
                }
            },
{
    let rate = Rate { count: worker.attempts, nanos: (t1 - t0) as u64 };
    law_slots_distinct(app.backend, app.match_type, app.backend, app.match_type);
    let n = rate.spec_rounded() as nat;
    rate::lemma_rounded(rate);
    assert(post.status_msg@ == app.rate_status(app.backend, rate));
    assert(text::decimal(n) == text::decimal(n));
}

/// The time kept with a find is the time that the search ran: from the key that started it to
/// the tick that saw the result.
pub proof fn law_find_keeps_time(
    app: App,
    t0: u64,
    mid: App,
    action: Action,
    t1: u64,
    worker: WorkerState,
    post: App,
)
    requires
        app.key_handled(Key::Char('g'), t0, mid, action),
        action is StartSearch,
        t1 >= t0,
        worker.result is Some,
        mid.polled(t1, worker, post),
    ensures
        post.mode is Found,
        post.mode->elapsed == t1 - t0,
        post.mode->attempts == worker.attempts,
        post.mode->result == worker.result->0,
        post.status_msg@ == "Found!"@,
        post.pattern == app.pattern,
        post.match_type == app.match_type,
{
}

/// A search goes on until there is a result or a failure: other ticks change nothing but the
/// tracker, so its start stays what it was. A failure ends it with its message; a result comes
/// first.
pub proof fn law_search_goes_on(
    app: App,
    now: u64,
    worker: WorkerState,
    post: App,
    started: u64,
    backend: Backend,
)
    requires
        app.mode == (Mode::Generating { started, backend }),
        app.polled(now, worker, post),
    ensures
        worker.result is None && worker.error is None ==> post == (App {
            tracker: post.tracker,
            ..app
        }),
        worker.result is None && worker.error is Some ==> post.mode is Idle && post.status_msg@
            == worker.error->0@,
        worker.result is Some ==> post.mode is Found && post.mode->result == worker.result->0
            && post.mode->attempts == worker.attempts && (now >= started ==> post.mode->elapsed
            == now - started) && (now < started ==> post.mode->elapsed == 0),
        post.pattern == app.pattern,
        post.match_type == app.match_type,
        post.backend == app.backend,
        post.benchmarks == app.benchmarks,
        post.batch_k == app.batch_k,
        post.quit == app.quit,
{
}

/// A tick while a search runs notes the worker's count with its time, as the newest sample.
pub proof fn law_tick_notes_count(app: App, now: u64, worker: WorkerState, post: App)
    requires
        app.mode is Generating,
        app.polled(now, worker, post),
        app.tracker.accepts_total(now, worker.attempts),
    ensures
        post.tracker.samples@.len() > 0,
        post.tracker.samples@.last() == (now, worker.attempts),
{
    rate::law_window(app.tracker, now, worker.attempts, post.tracker);
}

/// Nothing happens on a tick while nothing runs.
pub proof fn law_idle_tick(app: App, now: u64, worker: WorkerState, post: App)
    requires
        app.mode is Idle || app.mode is Found || app.mode is Error,
        app.polled(now, worker, post),
    ensures
        post == app,
{
}

/// Typing in the search panel: a character goes to the end of the pattern, a capital as the
/// letter at the same place of the small alphabet, as long as the pattern is below 56 bytes.
/// Nothing else changes.
pub proof fn law_typing(app: App, c: char, now: u64, post: App, action: Action, d: char)
    requires
        app.mode is Idle,
        app.focused_panel is Pattern,
        c != 'q' && c != 'Q',
        app.key_handled(Key::Char(c), now, post, action),
        d == if "ABCDEFGHIJKLMNOPQRSTUVWXYZ"@.contains(c) {
            "abcdefghijklmnopqrstuvwxyz"@["ABCDEFGHIJKLMNOPQRSTUVWXYZ"@.index_of(c)]
        } else {
            c
        },
    ensures
        action == Action::Nothing,
        encode_utf8(app.pattern@).len() < 56 ==> post.pattern@ == app.pattern@.push(d),
        encode_utf8(app.pattern@).len() >= 56 ==> post.pattern@ == app.pattern@,
        post == (App { pattern: post.pattern, ..app }),
{
    reveal_strlit("ABCDEFGHIJKLMNOPQRSTUVWXYZ");
    reveal_strlit("abcdefghijklmnopqrstuvwxyz");
    let upper = "ABCDEFGHIJKLMNOPQRSTUVWXYZ"@;
    let small = "abcdefghijklmnopqrstuvwxyz"@;
    assert forall|i: int| 0 <= i < 26 implies #[trigger] upper[i] as int == 65 + i by {}
    assert forall|i: int| 0 <= i < 26 implies #[trigger] small[i] as int == 97 + i by {}
    if 'A' <= c && c <= 'Z' {
        let i = c as int - 65;
        assert(upper[i] == c);
        let k = upper.index_of(c);
        assert(0 <= k < 26 && upper[k] == c);
        assert(k == i);
        assert(small[i] as int == c as int + 32);
        assert(lowered(c) == d);
    } else if upper.contains(c) {
        let i = choose|i: int| 0 <= i < upper.len() && upper[i] == c;
        assert(upper[i] as int == 65 + i);
    }
}

/// Backspace and Delete take the last character away, if there is one, and nothing else.
pub proof fn law_erasing(app: App, key: Key, now: u64, post: App, action: Action)
    requires
        app.mode is Idle,
        app.focused_panel is Pattern,
        key == Key::Backspace || key == Key::Delete,
        app.key_handled(key, now, post, action),
    ensures
        action == Action::Nothing,
        app.pattern@.len() > 0 ==> post.pattern@ == app.pattern@.take(app.pattern@.len() - 1),
        app.pattern@.len() == 0 ==> post.pattern@.len() == 0,
        post == (App { pattern: post.pattern, ..app }),
{
    if app.pattern@.len() > 0 {
        assert(app.pattern@.drop_last() =~= app.pattern@.take(app.pattern@.len() - 1));
    }
}

/// Up and down go round the rows: pattern, match type, backend and, if a GPU is chosen and
/// there, batch size.
pub proof fn law_cursor(app: App, down: bool, now: u64, post: App, action: Action)
    requires
        app.wf(),
        app.mode is Idle,
        app.focused_panel is Pattern,
        app.key_handled(
            if down {
                Key::Down
            } else {
                Key::Up
            },
            now,
            post,
            action,
        ),
    ensures
        action == Action::Nothing,
        post == (App { search_field: post.search_field, ..app }),
        ({
            let last = if app.backend is Gpu && app.gpu is Some {
                SearchField::Batch
            } else {
                SearchField::Backend
            };
            let (from, to) = if down {
                (app.search_field, post.search_field)
            } else {
                (post.search_field, app.search_field)
            };
            &&& from is Pattern <==> to is Match
            &&& from is Match <==> to is Backend
            &&& from == last <==> to is Pattern
            &&& last is Batch ==> (from is Backend <==> to is Batch)
        }),
{
}

/// Left and right change the row that the cursor is on. On the match type right goes on in the
/// row prefix, suffix, anywhere and left goes back; on the backend both go to the other one; on
/// the pattern they do nothing.
pub proof fn law_change_row(app: App, right: bool, now: u64, post: App, action: Action)
    requires
        app.wf(),
        app.mode is Idle,
        app.focused_panel is Pattern,
        app.key_handled(
            if right {
                Key::Right
            } else {
                Key::Left
            },
            now,
            post,
            action,
        ),
    ensures
        action == Action::Nothing,
        app.search_field is Pattern ==> post == app,
        app.search_field is Match ==> {
            let (from, to) = if right {
                (app.match_type, post.match_type)
            } else {
                (post.match_type, app.match_type)
            };
            &&& from is Prefix <==> to is Suffix
            &&& from is Suffix <==> to is Anywhere
            &&& from is Anywhere <==> to is Prefix
            &&& post == (App { match_type: post.match_type, ..app })
        },
        app.search_field is Backend ==> {
            &&& post.backend != app.backend
            &&& post == (App { backend: post.backend, status_msg: post.status_msg, ..app })
        },
        app.search_field is Batch ==> post == (App { batch_k: post.batch_k, ..app }),
        !(app.search_field is Backend) ==> post.backend == app.backend,
        post.pattern == app.pattern,
{
}

/// Right on the batch row takes the next larger size on offer, and from the largest goes to the
/// smallest; left goes the other way.
pub proof fn law_batch_steps(app: App, right: bool, now: u64, post: App, action: Action)
    requires
        app.wf(),
        app.mode is Idle,
        app.focused_panel is Pattern,
        app.search_field is Batch,
        app.key_handled(
            if right {
                Key::Right
            } else {
                Key::Left
            },
            now,
            post,
            action,
        ),
    ensures
        app.batch_k_options@.contains(post.batch_k),
        ({
            let (from, to) = if right {
                (app.batch_k, post.batch_k)
            } else {
                (post.batch_k, app.batch_k)
            };
            &&& to > from ==> forall|k: u32| #[trigger]
                app.batch_k_options@.contains(k) ==> k <= from || k >= to
            &&& to <= from ==> forall|k: u32| #[trigger]
                app.batch_k_options@.contains(k) ==> to <= k && k <= from
        }),
{
    let s = app.batch_k_options@;
    let n = s.len() as int;
    let i = s.index_of(app.batch_k);
    let w = choose|w: int| 0 <= w < s.len() && s[w] == app.batch_k;
    assert(s[w] == app.batch_k);
    assert(0 <= i < n && s[i] == app.batch_k);
    lemma_wrap(i, n);
    let j = if right {
        (i + 1) % n
    } else {
        (i + n - 1) % n
    };
    assert(s[j] == post.batch_k);
    assert forall|k: u32| #[trigger] s.contains(k) implies exists|l: int|
        0 <= l < n && #[trigger] s[l] == k by {
        let l = choose|l: int| 0 <= l < s.len() && s[l] == k;
        assert(s[l] == k);
    }
}

/// Switching the backend says which one it is now: the CPU with its threads, the GPU with its
/// name, or why there is none. The cursor leaves the batch row, which only a GPU has.
pub proof fn law_backend_switch(app: App, post: App)
    requires
        app.backend_toggled(post),
    ensures
        app.backend is Cpu <==> post.backend is Gpu,
        post.backend is Cpu ==> post.status_msg@ == "Backend: CPU ("@ + text::decimal(
            app.threads as nat,
        ) + " threads)"@,
        post.backend is Gpu && app.gpu is Some ==> post.status_msg@ == "Backend: GPU ("@
            + app.gpu->0.api.spec_label() + " · "@ + app.gpu->0.adapter_name@ + ")"@,
        post.backend is Gpu && app.gpu is None && app.gpu_init_error is Some ==> post.status_msg@
            == "GPU unavailable: "@ + app.gpu_init_error->0@,
        post.backend is Gpu && app.gpu is None && app.gpu_init_error is None ==> post.status_msg@
            == "GPU unavailable: "@ + "no adapter"@,
        app.search_field is Batch ==> post.search_field is Backend,
        !(app.search_field is Batch) ==> post.search_field == app.search_field,
        post.pattern == app.pattern,
        post.match_type == app.match_type,
        post.mode == app.mode,
        post.benchmarks == app.benchmarks,
        post.batch_k == app.batch_k,
        post.quit == app.quit,
{
    if post.backend is Gpu && app.gpu is Some {
        let info = app.gpu->0;
        assert("Backend: GPU ("@ + (info.api.spec_label() + " · "@ + info.adapter_name@) + ")"@
            =~= "Backend: GPU ("@ + info.api.spec_label() + " · "@ + info.adapter_name@ + ")"@);
    }
}

/// Tab goes to the other panel while there is something to edit, and does nothing else.
pub proof fn law_tab(app: App, now: u64, post: App, action: Action)
    requires
        app.key_handled(Key::Tab, now, post, action),
    ensures
        action == Action::Nothing,
        app.mode is Idle || app.mode is Error ==> post.focused_panel != app.focused_panel,
        app.mode is Benchmarking || app.mode is Generating || app.mode is Found ==> post == app,
        post == (App { focused_panel: post.focused_panel, ..app }),
{
}

/// Esc quits while nothing runs, and leaves an error; while something runs, or a find is shown,
/// it does nothing.
pub proof fn law_esc(app: App, now: u64, post: App, action: Action)
    requires
        app.key_handled(Key::Esc, now, post, action),
    ensures
        action == Action::Nothing,
        app.mode is Idle ==> post.quit,
        app.mode is Error ==> post.mode is Idle && post.quit == app.quit,
        app.mode is Benchmarking || app.mode is Generating || app.mode is Found ==> post == app,
        post == (App { quit: post.quit, mode: post.mode, ..app }),
{
}

/// `s` stops a search, and its worker, and keeps what was searched for; `n` after a find leads
/// back to it. Neither does so anywhere else.
pub proof fn law_stop_and_new(app: App, key: Key, now: u64, post: App, action: Action)
    requires
        app.key_handled(key, now, post, action),
        app.mode is Generating || app.mode is Found || app.mode is Benchmarking,
        key != Key::Char('q') && key != Key::Char('Q'),
    ensures
        app.mode is Generating && (key == Key::Char('s') || key == Key::Char('S')) ==> {
            &&& action == Action::StopWorker
            &&& post.mode is Idle
            &&& post.status_msg@ == "Stopped."@
            &&& post == (App { mode: post.mode, status_msg: post.status_msg, ..app })
        },
        app.mode is Found && (key == Key::Char('n') || key == Key::Char('N')) ==> {
            &&& action == Action::Nothing
            &&& post.mode is Idle
            &&& post.status_msg@.len() == 0
            &&& post == (App { mode: post.mode, status_msg: post.status_msg, ..app })
        },
        app.mode is Generating && key != Key::Char('s') && key != Key::Char('S') ==> post == app
            && action == Action::Nothing,
        app.mode is Found && key != Key::Char('n') && key != Key::Char('N') ==> post == app
            && action == Action::Nothing,
        app.mode is Benchmarking ==> post == app && action == Action::Nothing,
{
}

/// Stopping anything: nothing runs afterwards, the status line says so, and only a worker that
/// runs is asked to stop.
pub proof fn law_stop(app: App, post: App, action: Action)
    requires
        app.stopped(post, action),
    ensures
        post.mode is Idle,
        post.status_msg@ == "Stopped."@,
        action == Action::StopWorker <==> app.mode is Benchmarking || app.mode is Generating,
        action == Action::StopWorker || action == Action::Nothing,
        post == (App { mode: post.mode, status_msg: post.status_msg, ..app }),
{
}

/// `g` in the actions panel starts a search exactly for a pattern that is not empty and made of
/// the alphabet throughout: on the GPU if it is chosen and there, else on the CPU, from this
/// moment on, with a fresh tracker. Otherwise it says what is wrong.
pub proof fn law_search_start(app: App, capital: bool, now: u64, post: App, action: Action)
    requires
        app.mode is Idle,
        app.focused_panel is Actions,
        app.key_handled(
            Key::Char(
                if capital {
                    'G'
                } else {
                    'g'
                },
            ),
            now,
            post,
            action,
        ),
    ensures
        ({
            let valid = app.pattern@.len() > 0 && forall|i: int|
                0 <= i < app.pattern@.len() ==> "abcdefghijklmnopqrstuvwxyz234567"@.contains(
                    #[trigger] app.pattern@[i],
                );
            let on_gpu = app.backend is Gpu && app.gpu is Some;
            if valid {
                &&& on_gpu ==> action == Action::StartSearch(Backend::Gpu)
                &&& !on_gpu ==> action == Action::StartSearch(Backend::Cpu)
                &&& post.mode is Generating
                &&& post.mode->Generating_started == now
                &&& post.mode->Generating_backend is Gpu <==> on_gpu
                &&& post.status_msg@ == if on_gpu {
                    "Searching on GPU..."@
                } else {
                    "Searching..."@
                }
                &&& post.tracker.samples@.len() == 0
                &&& post.tracker.history@.len() == 0
                &&& post.tracker.last_rate is None
                &&& post.tracker.last_sampled_at is None
            } else {
                &&& action == Action::Nothing
                &&& post.mode is Idle
                &&& post.tracker == app.tracker
                &&& post.status_msg@ == "Invalid pattern - use a-z and 2-7 only"@
            }
        }),
        post.pattern == app.pattern,
        post.match_type == app.match_type,
        post.backend == app.backend,
        post.batch_k == app.batch_k,
        post.benchmarks == app.benchmarks,
        post.quit == app.quit,
{
    assert forall|i: int| 0 <= i < app.pattern@.len() implies (text::base32_char(
        #[trigger] app.pattern@[i],
    ) <==> "abcdefghijklmnopqrstuvwxyz234567"@.contains(app.pattern@[i])) by {
        crypto::law_valid_chars(app.pattern@[i]);
    }
}

/// Whether the pattern can be searched for.
pub proof fn law_pattern_valid(app: App, r: bool)
    requires
        call_ensures(App::pattern_valid, (&app,), r),
    ensures
        r == (app.pattern@.len() > 0 && forall|i: int|
            0 <= i < app.pattern@.len() ==> "abcdefghijklmnopqrstuvwxyz234567"@.contains(
                #[trigger] app.pattern@[i],
            )),
{
    assert forall|i: int| 0 <= i < app.pattern@.len() implies (text::base32_char(
        #[trigger] app.pattern@[i],
    ) <==> "abcdefghijklmnopqrstuvwxyz234567"@.contains(app.pattern@[i])) by {
        crypto::law_valid_chars(app.pattern@[i]);
    }
}

/// `b` in the actions panel starts a benchmark of the chosen backend for the chosen match type,
/// from this moment on; without the GPU that is chosen it says why.
pub proof fn law_benchmark_start(app: App, capital: bool, now: u64, post: App, action: Action)
    requires
        app.mode is Idle,
        app.focused_panel is Actions,
        app.key_handled(
            Key::Char(
                if capital {
                    'B'
                } else {
                    'b'
                },
            ),
            now,
            post,
            action,
        ),
    ensures
        app.backend is Gpu && app.gpu is None ==> action == Action::Nothing && post.mode is Idle
            && post.status_msg@ == "GPU unavailable: "@ + (match app.gpu_init_error {
            Some(e) => e@,
            None => "no adapter"@,
        }),
        app.backend is Cpu || app.gpu is Some ==> {
            &&& action == Action::StartBenchmark(app.backend)
            &&& post.mode == Mode::Benchmarking {
                started: now,
                backend: app.backend,
                match_type: app.match_type,
            }
            &&& app.backend is Cpu ==> post.status_msg@ == "Benchmarking CPU key generation..."@
            &&& app.backend is Gpu ==> post.status_msg@ == "Benchmarking GPU ("@
                + app.gpu->0.api.spec_label() + " · "@ + app.gpu->0.adapter_name@
                + ") key generation..."@
        },
        post == (App { mode: post.mode, status_msg: post.status_msg, ..app }),
{
    if app.backend is Gpu && app.gpu is Some {
        let info = app.gpu->0;
        assert("Benchmarking GPU ("@ + (info.api.spec_label() + " · "@ + info.adapter_name@)
            + ") key generation..."@ =~= "Benchmarking GPU ("@ + info.api.spec_label() + " · "@
            + info.adapter_name@ + ") key generation..."@);
    }
}

/// The actions panel knows `b`, `g`, Esc and the keys that work everywhere; the search panel
/// knows the arrows, Backspace, Delete, Esc and characters. Anything else does nothing.
pub proof fn law_other_keys(app: App, key: Key, now: u64, post: App, action: Action)
    requires
        app.key_handled(key, now, post, action),
        key != Key::Tab && key != Key::Esc && key != Key::Char('q') && key != Key::Char('Q'),
        app.mode is Error || (app.mode is Idle && app.focused_panel is Actions && key != Key::Char(
            'b',
        ) && key != Key::Char('B') && key != Key::Char('g') && key != Key::Char('G')) || (
        app.mode is Idle && app.focused_panel is Pattern && key == Key::Other),
    ensures
        post == app,
        action == Action::Nothing,
{
}

/// `q` keeps everything but what runs and the status line, which says that it was stopped.
pub proof fn law_q_keeps(app: App, capital: bool, now: u64, post: App, action: Action)
    requires
        app.key_handled(
            Key::Char(
                if capital {
                    'Q'
                } else {
                    'q'
                },
            ),
            now,
            post,
            action,
        ),
    ensures
        post.quit,
        post.mode is Idle,
        post.status_msg@ == "Stopped."@,
        action == Action::StopWorker <==> app.mode is Benchmarking || app.mode is Generating,
        action == Action::StopWorker || action == Action::Nothing,
        post.pattern == app.pattern,
        post.match_type == app.match_type,
        post.backend == app.backend,
        post.batch_k == app.batch_k,
        post.benchmarks == app.benchmarks,
        post.focused_panel == app.focused_panel,
        post.search_field == app.search_field,
{
}

/// What the status line says after a benchmark is the rate that was remembered, in keys per
/// second to the nearest one, the even one of two that are equally near.
pub proof fn law_benchmark_told(
    app: App,
    now: u64,
    worker: WorkerState,
    post: App,
    started: u64,
    backend: Backend,
    match_type: MatchType,
)
    requires
        app.mode == (Mode::Benchmarking { started, backend, match_type }),
        app.polled(now, worker, post),
        worker.stop,
        !(backend is Gpu && worker.error is Some),
    ensures
        post.benchmarks.spec_get(backend, match_type) is Some,
        exists|n: nat|
            {
                let rate = post.benchmarks.spec_get(backend, match_type)->0;
                &&& rate.nanos > 0
                &&& 2 * (n * rate.nanos - rate.count * 1_000_000_000) <= rate.nanos
                &&& 2 * (rate.count * 1_000_000_000 - n * rate.nanos) <= rate.nanos
                &&& 2 * (n * rate.nanos - rate.count * 1_000_000_000) == rate.nanos || 2 * (
                rate.count * 1_000_000_000 - n * rate.nanos) == rate.nanos ==> n % 2 == 0
                &&& backend is Cpu ==> post.status_msg@ == "CPU benchmark done: "@
                    + #[trigger] text::decimal(n) + " keys/s on "@ + text::decimal(
                    app.threads as nat,
                ) + " threads"@
                &&& backend is Gpu ==> post.status_msg@ == "GPU benchmark done: "@
                    + text::decimal(n) + " keys/s"@
            },
{
    law_slots_distinct(backend, match_type, backend, match_type);
    let rate = measured(worker, since(started, now));
    assert(post.benchmarks.spec_get(backend, match_type) == Some(rate));
    rate::lemma_rounded(rate);
    let n = rate.spec_rounded() as nat;
    assert(post.status_msg@ == app.rate_status(backend, rate));
    assert(text::decimal(n) == text::decimal(n));
}

/// A fresh session offers the sizes that the device can take: 64, and every doubling of it
/// whose scratch buffer fits.
pub proof fn law_fresh_offer(
    threads: usize,
    info: GpuInfo,
    error: Option<String>,
    r: App,
    k: u32,
)
    requires
        call_ensures(App::new, (threads, Some(info), error), r),
    ensures
        r.batch_k_options@.contains(k) <==> k == 64 || exists|e: nat|
            k == 64 * #[trigger] radix::weight(2, e) && 4_194_304 * k <= info.limits.max_buffer
                && 4_194_304 * k <= info.limits.max_binding,
        r.batch_k_options@.contains(k) && k <= 256 ==> k <= r.batch_k,
{
    gpu::law_offered_sizes(info.limits, r.batch_k_options@, k);
    gpu::law_default_offered(info.limits, r.batch_k_options@);
}

/// Every combination of backend and match type has a slot of its own, and the list of them is
/// in the order of the slots.
pub proof fn law_slots_listed(
    r: Vec<(Backend, MatchType)>,
    backend: Backend,
    match_type: MatchType,
    i: usize,
)
    requires
        call_ensures(bench_slots, (), r),
        call_ensures(slot_of, (backend, match_type), i),
    ensures
        r@.len() == 6,
        i < 6,
        r@[i as int] == (backend, match_type),
{
    let found = r@[i as int];
    law_slots_distinct(found.0, found.1, backend, match_type);
}

/// A worker that starts has tried and found nothing, and says how many keys it has tried.
pub proof fn law_new_worker(w: WorkerState, n: u64)
    requires
        call_ensures(WorkerState::new, (), w),
        call_ensures(WorkerState::attempts, (&w,), n),
    ensures
        n == 0,
        !w.stop,
        w.result is None,
        w.error is None,
        w.bench_rate is None,
{
}

/// A worker says how many keys it has tried.
pub proof fn law_attempts(w: WorkerState, n: u64)
    requires
        call_ensures(WorkerState::attempts, (&w,), n),
    ensures
        n == w.attempts,
{
}

} // verus!
