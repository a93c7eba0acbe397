//! The session: editing, benchmarks, searches and what the worker reports.

use ovds::app::{
    bench_slots, slot_of, Action, App, Benchmarks, FocusedPanel, FoundResult, Key, Mode, SearchField,
    WorkerState,
};
use ovds::crypto::{Backend, MatchType};
use ovds::gpu::{GpuInfo, GpuLimits, GraphicsApi};
use ovds::rate::{Rate, RateTracker};

const SECOND: u64 = 1_000_000_000;

fn gpu() -> GpuInfo {
    GpuInfo {
        api: GraphicsApi::Metal,
        adapter_name: "Apple M3 Pro".to_string(),
        limits: GpuLimits { max_buffer: 4 << 30, max_binding: 4 << 30 },
    }
}

fn session() -> App {
    App::new(8, Some(gpu()), None)
}

fn press(app: &mut App, keys: &str) {
    for c in keys.chars() {
        assert_eq!(app.handle_key(Key::Char(c), 0), Action::Nothing);
    }
}

#[test]
fn fresh_session() {
    let app = App::new(8, None, Some("boom".to_string()));
    assert_eq!(app.pattern, "");
    assert!(app.match_type == MatchType::Prefix);
    assert!(matches!(app.mode, Mode::Idle));
    assert_eq!(app.threads, 8);
    assert!(app.backend == Backend::Cpu);
    assert!(app.gpu.is_none());
    assert_eq!(app.status_msg, "");
    assert!(app.focused_panel == FocusedPanel::Pattern);
    assert!(app.search_field == SearchField::Pattern);
    assert_eq!(app.batch_k, 64);
    assert_eq!(app.batch_k_options, vec![64]);
    assert!(!app.quit);
    let with = session();
    assert_eq!(with.batch_k, 256);
    assert_eq!(with.batch_k_options, vec![64, 128, 256, 512, 1024]);
}

#[test]
fn typing_lowers_letters() {
    let mut app = session();
    press(&mut app, "FireSide");
    assert_eq!(app.pattern, "fireside");
    assert!(app.pattern_valid());
    app.handle_key(Key::Backspace, 0);
    app.handle_key(Key::Delete, 0);
    assert_eq!(app.pattern, "firesi");
}

#[test]
fn invalid_characters_are_kept_and_refused() {
    let mut app = session();
    for c in ['0', '1', '8', '9', '-', ' ', 'é', 'A'] {
        app.pattern = "tor".to_string();
        app.type_char(c);
        assert_eq!(app.pattern, format!("tor{}", c));
        assert!(!app.pattern_valid());
        assert_eq!(app.start_generate(SECOND), Action::Nothing);
        assert_eq!(app.status_msg, "Invalid pattern - use a-z and 2-7 only");
        assert!(matches!(app.mode, Mode::Idle));
        app.backspace();
        assert_eq!(app.pattern, "tor");
        assert!(app.pattern_valid());
    }
}

#[test]
fn pattern_stops_at_the_address_length() {
    let mut app = session();
    for _ in 0..60 {
        app.type_char('a');
    }
    assert_eq!(app.pattern.len(), 56);
    // Room is counted in bytes.
    app.pattern = "é".repeat(27);
    app.type_char('é');
    assert_eq!(app.pattern.len(), 56);
    app.type_char('a');
    assert_eq!(app.pattern.len(), 56);
}

#[test]
fn backspace_on_nothing_does_nothing() {
    let mut app = session();
    app.backspace();
    assert_eq!(app.pattern, "");
    assert!(!app.pattern_valid());
}

#[test]
fn backspace_undoes_typing() {
    let mut app = session();
    press(&mut app, "abc");
    app.type_char('d');
    app.backspace();
    assert_eq!(app.pattern, "abc");
}

#[test]
fn arrows_move_the_cursor_and_change_the_row() {
    let mut app = session();
    app.handle_key(Key::Right, 0);
    assert!(app.match_type == MatchType::Prefix);
    app.handle_key(Key::Down, 0);
    assert!(app.search_field == SearchField::Match);
    app.handle_key(Key::Right, 0);
    assert!(app.match_type == MatchType::Suffix);
    app.handle_key(Key::Left, 0);
    app.handle_key(Key::Left, 0);
    assert!(app.match_type == MatchType::Anywhere);
    app.handle_key(Key::Down, 0);
    assert!(app.search_field == SearchField::Backend);
    app.handle_key(Key::Down, 0);
    assert!(app.search_field == SearchField::Pattern);
    app.handle_key(Key::Up, 0);
    assert!(app.search_field == SearchField::Backend);
    app.handle_key(Key::Right, 0);
    assert!(app.backend == Backend::Gpu);
    assert_eq!(app.status_msg, "Backend: GPU (Metal · Apple M3 Pro)");
    app.handle_key(Key::Down, 0);
    assert!(app.search_field == SearchField::Batch);
    app.handle_key(Key::Right, 0);
    assert_eq!(app.batch_k, 512);
    app.handle_key(Key::Right, 0);
    app.handle_key(Key::Right, 0);
    assert_eq!(app.batch_k, 64);
    app.handle_key(Key::Left, 0);
    assert_eq!(app.batch_k, 1024);
    app.handle_key(Key::Up, 0);
    app.handle_key(Key::Left, 0);
    assert!(app.backend == Backend::Cpu);
    assert_eq!(app.status_msg, "Backend: CPU (8 threads)");
}

#[test]
fn cursor_leaves_the_batch_row_with_the_gpu() {
    let mut app = session();
    app.toggle_backend();
    app.move_field(false);
    assert!(app.search_field == SearchField::Batch);
    app.toggle_backend();
    assert!(app.search_field == SearchField::Backend);
}

#[test]
fn missing_gpu_is_reported() {
    let mut app = App::new(4, None, Some("device request failed".to_string()));
    app.toggle_backend();
    assert!(app.backend == Backend::Gpu);
    assert_eq!(app.status_msg, "GPU unavailable: device request failed");
    let mut bare = App::new(4, None, None);
    bare.toggle_backend();
    assert_eq!(bare.status_msg, "GPU unavailable: no adapter");
    assert_eq!(bare.start_benchmark(7), Action::Nothing);
    assert!(matches!(bare.mode, Mode::Idle));
    assert_eq!(bare.status_msg, "GPU unavailable: no adapter");
}

#[test]
fn tab_switches_the_panel_while_editable() {
    let mut app = session();
    app.handle_key(Key::Tab, 0);
    assert!(app.focused_panel == FocusedPanel::Actions);
    assert_eq!(app.handle_key(Key::Char('x'), 0), Action::Nothing);
    assert_eq!(app.pattern, "");
    app.handle_key(Key::Tab, 0);
    assert!(app.focused_panel == FocusedPanel::Pattern);
    app.mode = Mode::Error("bad".to_string());
    app.handle_key(Key::Tab, 0);
    assert!(app.focused_panel == FocusedPanel::Actions);
    app.handle_key(Key::Esc, 0);
    assert!(matches!(app.mode, Mode::Idle));
    assert!(!app.quit);
    app.handle_key(Key::Esc, 0);
    assert!(app.quit);
}

#[test]
fn search_needs_a_pattern() {
    let mut app = session();
    app.handle_key(Key::Tab, 0);
    assert_eq!(app.handle_key(Key::Char('g'), 5), Action::Nothing);
    assert_eq!(app.status_msg, "Invalid pattern - use a-z and 2-7 only");
    assert!(matches!(app.mode, Mode::Idle));
}

#[test]
fn search_runs_finds_and_starts_over() {
    let mut app = session();
    press(&mut app, "ab");
    app.handle_key(Key::Tab, 0);
    let action = app.handle_key(Key::Char('G'), 3 * SECOND);
    assert_eq!(action, Action::StartSearch(Backend::Cpu));
    assert_eq!(app.status_msg, "Searching...");
    let mut worker = WorkerState::new();
    worker.count(100);
    app.tick(4 * SECOND, &worker);
    worker.count(50);
    app.tick(5 * SECOND, &worker);
    assert!(matches!(app.mode, Mode::Generating { started: 3_000_000_000, backend: Backend::Cpu }));
    assert_eq!(app.tracker.last_rate, Some(Rate { count: 50, nanos: SECOND }));
    // No key but stop and quit does anything now.
    app.handle_key(Key::Char('b'), 0);
    app.handle_key(Key::Tab, 0);
    app.handle_key(Key::Right, 0);
    assert_eq!(app.pattern, "ab");
    assert!(app.focused_panel == FocusedPanel::Actions);
    worker.publish(FoundResult { address: "abcd".to_string(), key_path: "abcd.onion".to_string() });
    worker.publish(FoundResult { address: "late".to_string(), key_path: "late".to_string() });
    assert!(worker.stop);
    app.tick(6 * SECOND, &worker);
    assert_eq!(app.status_msg, "Found!");
    match &app.mode {
        Mode::Found { result, attempts, elapsed } => {
            assert_eq!(result.address, "abcd");
            assert_eq!(result.key_path, "abcd.onion");
            assert_eq!(*attempts, 150);
            assert_eq!(*elapsed, 3 * SECOND);
        }
        _ => panic!("not found"),
    }
    app.handle_key(Key::Char('n'), 0);
    assert!(matches!(app.mode, Mode::Idle));
    assert_eq!(app.status_msg, "");
    assert_eq!(app.pattern, "ab");
}

#[test]
fn search_falls_back_to_the_cpu() {
    let mut app = App::new(4, None, None);
    press(&mut app, "ab");
    app.toggle_backend();
    assert_eq!(app.start_generate(0), Action::StartSearch(Backend::Cpu));
    assert_eq!(app.status_msg, "Searching...");
    let mut with = session();
    press(&mut with, "ab");
    with.toggle_backend();
    assert_eq!(with.start_generate(0), Action::StartSearch(Backend::Gpu));
    assert_eq!(with.status_msg, "Searching on GPU...");
}

#[test]
fn failure_ends_a_search() {
    let mut app = session();
    press(&mut app, "ab");
    app.toggle_backend();
    app.start_generate(0);
    let mut worker = WorkerState::new();
    worker.fail("GPU error: lost".to_string());
    app.tick(1, &worker);
    assert!(matches!(app.mode, Mode::Idle));
    assert_eq!(app.status_msg, "GPU error: lost");
}

#[test]
fn stop_and_quit() {
    let mut app = session();
    press(&mut app, "ab");
    app.start_generate(0);
    assert_eq!(app.handle_key(Key::Char('s'), 0), Action::StopWorker);
    assert!(matches!(app.mode, Mode::Idle));
    assert_eq!(app.status_msg, "Stopped.");
    assert_eq!(app.stop(), Action::Nothing);
    app.start_benchmark(0);
    assert_eq!(app.handle_key(Key::Char('Q'), 0), Action::StopWorker);
    assert!(app.quit);
}

#[test]
fn cpu_benchmark_is_remembered() {
    let mut app = session();
    assert_eq!(app.start_benchmark(0), Action::StartBenchmark(Backend::Cpu));
    assert_eq!(app.status_msg, "Benchmarking CPU key generation...");
    let mut worker = WorkerState::new();
    worker.count(5_001);
    app.tick(5 * SECOND, &worker);
    assert!(matches!(app.mode, Mode::Benchmarking { .. }));
    app.tick(6 * SECOND, &worker);
    assert!(matches!(app.mode, Mode::Idle));
    // 5001 / 6 = 833.5: to the even neighbour.
    assert_eq!(app.status_msg, "CPU benchmark done: 834 keys/s on 8 threads");
    let rate = Rate { count: 5_001, nanos: 6 * SECOND };
    assert_eq!(app.benchmarks.get(Backend::Cpu, MatchType::Prefix), Some(rate));
    assert_eq!(app.benchmarks.get(Backend::Gpu, MatchType::Prefix), None);
    assert_eq!(app.benchmarks.get(Backend::Cpu, MatchType::Suffix), None);
}

#[test]
fn short_benchmark_counts_as_a_tenth_of_a_second() {
    let mut app = session();
    app.start_benchmark(0);
    let mut worker = WorkerState::new();
    worker.count(10);
    worker.stop();
    app.tick(1, &worker);
    assert_eq!(app.status_msg, "CPU benchmark done: 100 keys/s on 8 threads");
}

#[test]
fn gpu_benchmark_prefers_the_steady_rate() {
    let mut app = session();
    app.cycle_match_type(false);
    app.toggle_backend();
    assert_eq!(app.start_benchmark(0), Action::StartBenchmark(Backend::Gpu));
    assert_eq!(app.status_msg, "Benchmarking GPU (Metal · Apple M3 Pro) key generation...");
    let mut worker = WorkerState::new();
    worker.count(1 << 20);
    worker.report_rate(7, 0);
    assert_eq!(worker.bench_rate, None);
    worker.report_rate(19_000_000, SECOND);
    worker.stop();
    app.tick(5 * SECOND, &worker);
    assert_eq!(app.status_msg, "GPU benchmark done: 19000000 keys/s");
    let rate = Rate { count: 19_000_000, nanos: SECOND };
    assert_eq!(app.benchmarks.get(Backend::Gpu, MatchType::Anywhere), Some(rate));
}

#[test]
fn failed_gpu_benchmark_leaves_no_rate() {
    let mut app = session();
    app.toggle_backend();
    app.start_benchmark(0);
    let mut worker = WorkerState::new();
    worker.fail("GPU panicked (see ovds-panic.log)".to_string());
    app.tick(1, &worker);
    assert_eq!(app.status_msg, "GPU panicked (see ovds-panic.log)");
    assert_eq!(app.benchmarks.get(Backend::Gpu, MatchType::Prefix), None);
    assert!(matches!(app.mode, Mode::Idle));
}

#[test]
fn slots_hold_one_rate_each() {
    let mut b = Benchmarks::new();
    let backends = [Backend::Cpu, Backend::Gpu];
    let types = [MatchType::Prefix, MatchType::Suffix, MatchType::Anywhere];
    let mut n: u64 = 0;
    for x in backends {
        for m in types {
            assert_eq!(b.get(x, m), None);
            assert_eq!(slot_of(x, m), n as usize);
            b.set(x, m, Rate { count: n, nanos: 1 });
            n += 1;
        }
    }
    assert_eq!(b.get(Backend::Gpu, MatchType::Prefix), Some(Rate { count: 3, nanos: 1 }));
    for (i, (x, m)) in bench_slots().into_iter().enumerate() {
        assert_eq!(slot_of(x, m), i);
    }
}

#[test]
fn panel_toggles_back() {
    assert!(FocusedPanel::Pattern.toggle() == FocusedPanel::Actions);
    assert!(FocusedPanel::Pattern.toggle().toggle() == FocusedPanel::Pattern);
}

#[test]
fn worker_counts_and_stops() {
    let mut w = WorkerState::new();
    assert_eq!(w.attempts(), 0);
    w.count(64);
    w.count(64);
    assert_eq!(w.attempts(), 128);
    assert!(!w.stop);
    w.stop();
    assert!(w.stop);
}

#[test]
fn tracker_rates_over_two_seconds() {
    let mut t = RateTracker::new();
    t.update(0, 0);
    assert_eq!(t.last_rate, None);
    assert_eq!(t.history.len(), 0);
    // Ten milliseconds are too short.
    t.update(10_000_000, 10);
    assert_eq!(t.last_rate, None);
    t.update(SECOND, 1_000);
    assert_eq!(t.last_rate, Some(Rate { count: 1_000, nanos: SECOND }));
    assert_eq!(t.history.iter().copied().collect::<Vec<u64>>(), vec![1_000]);
    t.update(SECOND + SECOND / 2, 1_500);
    assert_eq!(t.history.len(), 1);
    t.update(3 * SECOND, 4_000);
    // The window now starts at the second of one second.
    assert_eq!(t.samples[0], (SECOND, 1_000));
    assert_eq!(t.last_rate, Some(Rate { count: 3_000, nanos: 2 * SECOND }));
    assert_eq!(t.history.iter().copied().collect::<Vec<u64>>(), vec![1_000, 1_500]);
}

#[test]
fn tracker_forgets_after_eighty_samples() {
    let mut t = RateTracker::new();
    for i in 0..100u64 {
        t.update(i * SECOND, i * i);
    }
    assert_eq!(t.history.len(), 80);
    assert_eq!(t.last_sampled_at, Some(99 * SECOND));
    assert!(!t.check_total(99 * SECOND, 0));
    assert!(t.check_total(99 * SECOND, 99 * 99));
}

#[test]
fn tracker_needs_a_rising_total_only_for_a_rate() {
    let mut t = RateTracker::new();
    t.update(0, 500);
    // No rate is worked out over so short a time.
    assert!(t.check_total(10_000_000, 3));
    assert!(!t.check_total(10_000_001, 3));
    t.update(10_000_000, 3);
    assert_eq!(t.last_rate, None);
    assert!(t.check_total(SECOND, 500));
    t.update(SECOND, 500);
    assert_eq!(t.last_rate, Some(Rate { count: 0, nanos: SECOND }));
}

#[test]
fn rates_round_to_even() {
    assert_eq!(Rate { count: 5, nanos: 2 * SECOND }.rounded(), 2);
    assert_eq!(Rate { count: 7, nanos: 2 * SECOND }.rounded(), 4);
    assert_eq!(Rate { count: 7, nanos: 2 * SECOND }.per_second(), 3);
    assert_eq!(Rate { count: u64::MAX, nanos: 1 }.per_second(), u64::MAX);
}
