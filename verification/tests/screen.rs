//! What the panels show.

use ovds::app::{App, FocusedPanel, FoundResult, Mode, SearchField};
use ovds::crypto::{Backend, MatchType};
use ovds::gpu::{GpuInfo, GpuLimits, GraphicsApi};
use ovds::rate::Rate;
use ovds::stats::{match_odds, seconds_text, Odds};
use ovds::ui::{
    benchmark_status, error_status, footer, found_status, gauge_label, gauge_mark,
    generate_status, header, history_label, history_range, idle_status, mode_label, panel_focused,
    pattern_panel, preview_address, prob_panel, split_preview, time_panel, Color, Panel,
    ProbFigures, SearchFigures, Span, TimeFigures, Weight,
};
use std::collections::VecDeque;

fn gpu() -> GpuInfo {
    GpuInfo {
        api: GraphicsApi::Metal,
        adapter_name: "Apple M3 Pro".to_string(),
        limits: GpuLimits { max_buffer: 2 << 30, max_binding: 4 << 30 },
    }
}

fn line_text(line: &[Span]) -> String {
    let mut s = String::new();
    for span in line {
        s.push_str(&span.text);
    }
    s
}

fn render(panel: &Panel) -> String {
    let mut s = panel.title.clone();
    for line in &panel.lines {
        s.push_str(&line_text(line));
        s.push('\n');
    }
    s
}

#[test]
fn search_panel_renders_fields() {
    let app = App::new(8, None, None);
    let text = render(&pattern_panel(&app));
    assert!(text.contains("string"), "missing string field");
    assert!(text.contains("match"), "missing match field");
    assert!(text.contains("backend"), "missing backend field");
    assert!(text.contains('▸'), "missing field cursor marker");
}

#[test]
fn batch_row_visible_only_on_gpu() {
    let mut app = App::new(8, Some(gpu()), None);
    assert!(!render(&pattern_panel(&app)).contains("batch"), "batch row shown on CPU");
    app.backend = Backend::Gpu;
    app.search_field = SearchField::Batch;
    let text = render(&pattern_panel(&app));
    assert!(text.contains("batch"), "batch row missing on GPU");
}

#[test]
fn search_panel_as_in_the_picture() {
    let mut app = App::new(8, Some(gpu()), None);
    for c in "fireside".chars() {
        app.type_char(c);
    }
    app.toggle_backend();
    app.move_field(false);
    let panel = pattern_panel(&app);
    let rows: Vec<String> = panel.lines.iter().map(|l| line_text(l)).collect();
    assert_eq!(panel.title, " SEARCH ");
    assert!(panel.color == Color::Accent);
    assert_eq!(rows[0], "");
    assert_eq!(rows[1], "  string  ›  fireside");
    assert_eq!(rows[2], "  chars   ›  ✓ 8 chars");
    assert_eq!(rows[3], "  match   ›  [Prefix]  Suffix   Anywhere  ");
    assert_eq!(rows[4], "  backend ›   CPU  [GPU] Metal · Apple M3 Pro  ");
    assert_eq!(rows[5], "▸ batch   ›   64   128  [256]  512  ~1.6 GB GPU  ← →");
    assert_eq!(
        rows[6],
        "  example ›  firesideabcdefghijklmnop234567abcdefghijklmnop234567.onion"
    );
    assert_eq!(rows.len(), 7);
}

#[test]
fn empty_pattern_invites() {
    let mut app = App::new(1, None, None);
    let rows: Vec<String> = pattern_panel(&app).lines.iter().map(|l| line_text(l)).collect();
    assert_eq!(rows[1], "▸ string  ›  █");
    assert_eq!(rows[2], "  chars   ›  a–z  2–7  (base32)");
    assert_eq!(rows[4], "  backend ›  [CPU]  GPU  1 threads  ");
    assert_eq!(rows[5], "  example  ›  enter a pattern above");
    app.cycle_panel();
    let panel = pattern_panel(&app);
    assert!(panel.color == Color::Dim);
    assert_eq!(line_text(&panel.lines[1]), "  string  ›  type here…");
    // A GPU that is not there is marked.
    assert!(panel.lines[4][4].color == Color::Bad);
    app.cycle_panel();
    app.type_char('a');
    let panel = pattern_panel(&app);
    assert_eq!(line_text(&panel.lines[1]), "▸ string  ›  a█");
    assert!(panel.lines[1][2].color == Color::Bright && panel.lines[1][2].weight == Weight::Bold);
    assert_eq!(line_text(&panel.lines[2]), "  chars   ›  ✓ 1 char");
}

#[test]
fn footprints_of_the_batch_sizes() {
    let mut app = App::new(8, Some(gpu()), None);
    app.toggle_backend();
    let figures = [(64, "~0.4 GB"), (128, "~0.8 GB"), (256, "~1.6 GB"), (512, "~3.2 GB")];
    for (k, text) in figures {
        app.batch_k = k;
        assert!(render(&pattern_panel(&app)).contains(text), "batch {}", k);
    }
}

#[test]
fn examples_hold_the_pattern() {
    let filler = "abcdefghijklmnop234567abcdefghijklmnop234567";
    let p = preview_address("tor", &MatchType::Prefix);
    assert_eq!(p, format!("tor{}.onion", filler));
    let s = preview_address("tor", &MatchType::Suffix);
    assert_eq!(s, format!("{}tor.onion", filler));
    let a = preview_address("tor", &MatchType::Anywhere);
    assert_eq!(a, format!("{}tor{}.onion", &filler[..26], &filler[26..]));
    let long = "a".repeat(56);
    assert_eq!(preview_address(&long, &MatchType::Anywhere), format!("{}.onion", long));
}

#[test]
fn examples_are_split_at_the_pattern() {
    for m in [MatchType::Prefix, MatchType::Suffix, MatchType::Anywhere] {
        for pat in ["a", "tor", "abcdefghijklmnopqrstuvwxyz234567", &"z".repeat(56)] {
            let addr = preview_address(pat, &m);
            let (before, marked, after) = split_preview(&addr, pat, &m);
            assert_eq!(marked, pat);
            assert_eq!(format!("{}{}{}", before, marked, after), addr);
        }
    }
    let (b, m, a) = split_preview("abc", "xyzxyz", &MatchType::Prefix);
    assert_eq!((b.as_str(), m.as_str(), a.as_str()), ("", "abc", ""));
    let (b, m, a) = split_preview("abcdefghij", "xy", &MatchType::Suffix);
    assert_eq!((b.as_str(), m.as_str(), a.as_str()), ("ab", "cd", "efghij"));
    // Cuts are counted in bytes: `é` and `ü` take up two.
    let (b, m, a) = split_preview("éüabc", "é", &MatchType::Prefix);
    assert_eq!((b.as_str(), m.as_str(), a.as_str()), ("", "é", "üabc"));
    let (b, m, a) = split_preview("aéü.onion", "ü", &MatchType::Suffix);
    assert_eq!((b.as_str(), m.as_str(), a.as_str()), ("aé", "ü", ".onion"));
    let (b, m, a) = split_preview("éé", &"x".repeat(52), &MatchType::Anywhere);
    assert_eq!((b.as_str(), m.as_str(), a.as_str()), ("é", "é", ""));
}

#[test]
fn invalid_characters_are_marked() {
    let mut app = App::new(1, None, None);
    for c in ['t', '0', 'r', 'é'] {
        app.type_char(c);
    }
    let panel = pattern_panel(&app);
    assert_eq!(line_text(&panel.lines[1]), "▸ string  ›  t0ré█");
    for (i, valid) in [(2, true), (3, false), (4, true), (5, false)] {
        let span = &panel.lines[1][i];
        if valid {
            assert!(span.color == Color::Bright && span.weight == Weight::Bold);
        } else {
            assert!(span.color == Color::Bad && span.weight == Weight::Underlined);
        }
    }
    assert_eq!(line_text(&panel.lines[2]), "  chars   ›  ✗ invalid - use a-z 2-7");
    assert_eq!(line_text(&panel.lines[5]), "  example  ›  enter a pattern above");
}

#[test]
fn header_and_footer() {
    let mut app = App::new(8, None, None);
    let lines = header(&app, 79);
    assert_eq!(
        line_text(&lines[0]),
        format!(" OVDS  onion vanity domain search{:>47}", "v0.6.0 ")
    );
    assert_eq!(line_text(&lines[1]), " mode  ›  estimate");
    assert_eq!(mode_label(&app).0, "estimate");
    assert!(footer(&app).starts_with("  [↑ ↓] select field"));
    assert!(!panel_focused(&app));
    app.cycle_panel();
    assert!(panel_focused(&app));
    assert!(footer(&app).starts_with("  [g] generate"));
    app.start_benchmark(0);
    assert!(!panel_focused(&app));
    assert_eq!(mode_label(&app).0, "benchmark");
    assert_eq!(footer(&app), "  benchmarking… please wait  │  [q] quit");
    app.mode = Mode::Generating { started: 0, backend: Backend::Cpu };
    assert_eq!(mode_label(&app).0, "search & save keypair");
    assert_eq!(footer(&app), "  [s] stop search  │  [q] quit");
    app.mode = Mode::Error("x".to_string());
    assert!(mode_label(&app) == ("error", Color::Bad));
    assert_eq!(footer(&app), "  [Esc] dismiss  │  [q] quit");
    let result = FoundResult { address: "a".to_string(), key_path: "b".to_string() };
    app.mode = Mode::Found { result, attempts: 1, elapsed: 1 };
    assert!(mode_label(&app) == ("keypair saved", Color::Good));
    assert_eq!(footer(&app), "  [n] new search  │  [q] quit");
}

fn figures() -> ProbFigures {
    ProbFigures {
        mean: "32.8K".to_string(),
        p1: "330".to_string(),
        p10: "3.5K".to_string(),
        p25: "9.4K".to_string(),
        p50: "22.7K".to_string(),
        p75: "45.4K".to_string(),
        p95: "98.2K".to_string(),
        p99: "150.9K".to_string(),
        bits: "15.0".to_string(),
        p: "3.052e-5".to_string(),
    }
}

#[test]
fn probability_panel() {
    let mut app = App::new(8, None, None);
    assert_eq!(render(&prob_panel(&app, &figures())), " PROBABILITY \n  enter a valid pattern\n");
    app.type_char('a');
    let panel = prob_panel(&app, &figures());
    assert_eq!(line_text(&panel.lines[1]), "  1 in 32.8K  (mean)");
    assert_eq!(line_text(&panel.lines[2]), "  p1  330     p10  3.5K    p25  9.4K");
    assert_eq!(line_text(&panel.lines[3]), "  p50 22.7K   p75  45.4K   p95  98.2K");
    assert_eq!(line_text(&panel.lines[4]), "  p99 150.9K");
    assert_eq!(line_text(&panel.lines[6]), "  bits  15.0   p  3.052e-5");
}

fn times() -> Vec<TimeFigures> {
    (0..6)
        .map(|i| TimeFigures {
            rate: format!("{}M/s", i),
            p50: format!("{}s", i),
            p95: format!("{}m", i),
        })
        .collect()
}

#[test]
fn time_panel_lists_what_was_measured() {
    let mut app = App::new(8, None, None);
    assert!(render(&time_panel(&app, &times())).contains("enter a valid pattern"));
    app.type_char('a');
    app.type_char('b');
    app.benchmarks.set(Backend::Cpu, MatchType::Prefix, Rate { count: 1, nanos: 1 });
    app.benchmarks.set(Backend::Cpu, MatchType::Anywhere, Rate { count: 1, nanos: 1 });
    let panel = time_panel(&app, &times());
    let rows: Vec<String> = panel.lines.iter().map(|l| line_text(l)).collect();
    assert_eq!(rows.len(), 10);
    assert_eq!(rows[0], "  ab · 2 chars");
    assert_eq!(rows[1], "  PREFIX ▸       p50       p95");
    assert_eq!(rows[2], "    CPU 0M/s     0s        0m");
    assert_eq!(rows[3], "    GPU n/a");
    assert_eq!(rows[4], "  SUFFIX         p50       p95");
    assert_eq!(rows[5], "    CPU [b]");
    assert_eq!(rows[8], "    CPU 2M/s     2s        2m");
    assert!(panel.lines[2][0].color == Color::Good);
    assert!(panel.lines[8][0].color == Color::Dim);
    let with = App { gpu: Some(gpu()), ..app };
    assert_eq!(line_text(&time_panel(&with, &times()).lines[3]), "    GPU [b]");
}

#[test]
fn actions_panel() {
    let mut app = App::new(8, None, None);
    let rows: Vec<String> = idle_status(&app).lines.iter().map(|l| line_text(l)).collect();
    assert_eq!(rows[1], "  [g]  generate   search for a matching .onion keypair");
    assert_eq!(rows[2], "  [b]  benchmark  measure CPU throughput");
    assert_eq!(rows[3], "  [Tab] to focus");
    app.toggle_backend();
    app.focused_panel = FocusedPanel::Actions;
    let panel = idle_status(&app);
    assert!(panel.color == Color::Accent);
    assert_eq!(line_text(&panel.lines[2]), "  [b]  benchmark  measure GPU throughput");
    assert_eq!(line_text(&panel.lines[4]), "  GPU unavailable: no adapter");
    assert_eq!(panel.lines.len(), 5);
}

#[test]
fn benchmark_panel() {
    assert_eq!(gauge_label(2_500_000_000, "1.2M"), " 2s / 5s  |  1.2M keys/s ");
    assert_eq!(gauge_label(3_500_000_000, "1.2M"), " 4s / 5s  |  1.2M keys/s ");
    assert_eq!(gauge_label(9_000_000_000, "7"), " 5s / 5s  |  7 keys/s ");
    let panel = benchmark_status(Backend::Cpu, "3.0M");
    assert_eq!(panel.title, " BENCHMARKING · CPU ");
    assert_eq!(line_text(&panel.lines[3]), "  3.0M keypairs generated");
    let panel = benchmark_status(Backend::Gpu, "3.0M");
    assert_eq!(line_text(&panel.lines[3]), "  3.0M keys generated");
}

#[test]
fn search_rail() {
    let f = SearchFigures {
        tries: "1.0M".to_string(),
        rate: "500K/s".to_string(),
        elapsed: "2s".to_string(),
        eta_p50: "1m 0s".to_string(),
        eta_p95: "5m 0s".to_string(),
    };
    let app = App::new(8, Some(gpu()), None);
    let panel = generate_status(&app, Backend::Cpu, &f);
    assert_eq!(panel.title, " GENERATING · CPU ");
    assert_eq!(line_text(&panel.lines[0]), "CPU · 8 threads");
    assert_eq!(line_text(&panel.lines[1]), "  tries   1.0M");
    assert_eq!(line_text(&panel.lines[4]), "  ETA     1m 0s · 5m 0s");
    let panel = generate_status(&app, Backend::Gpu, &f);
    assert_eq!(line_text(&panel.lines[0]), "GPU · Metal · Apple M3 Pro");
}

#[test]
fn history_bounds() {
    let mut h: VecDeque<u64> = VecDeque::new();
    assert_eq!(history_range(&h), None);
    assert_eq!(history_label(&h), "-0s");
    for v in [5, 3, 9, 4] {
        h.push_back(v);
    }
    assert_eq!(history_range(&h), Some((3, 9)));
    assert_eq!(history_label(&h), "-4s");
}

#[test]
fn gauge_marks() {
    assert_eq!(gauge_mark(10, 20, 50), Some(20));
    assert_eq!(gauge_mark(10, 20, 95), Some(29));
    assert_eq!(gauge_mark(10, 0, 50), None);
    assert_eq!(gauge_mark(0, 7, 95), Some(6));
}

#[test]
fn found_and_error_panels() {
    let result = FoundResult { address: "abc".to_string(), key_path: "abc.onion".to_string() };
    let panel = found_status(&result, "1.5M", "3s");
    assert_eq!(panel.title, " FOUND ");
    assert_eq!(line_text(&panel.lines[1]), "  ✓ abc.onion");
    assert_eq!(line_text(&panel.lines[3]), "  tries  1.5M    time  3s");
    assert_eq!(line_text(&panel.lines[4]), "  saved  →  ./abc.onion/");
    assert_eq!(line_text(&panel.lines[7]), "  [n] new search    [q] quit");
    let panel = error_status("no luck");
    assert_eq!(line_text(&panel.lines[1]), "  no luck");
    assert!(panel.color == Color::Bad);
}

#[test]
fn odds_count_the_places() {
    let o = match_odds(3, &MatchType::Prefix, &Backend::Cpu);
    assert_eq!(o, Odds { places: 1, chars: 3 });
    assert_eq!(match_odds(3, &MatchType::Suffix, &Backend::Gpu).places, 1);
    assert_eq!(match_odds(3, &MatchType::Anywhere, &Backend::Cpu).places, 54);
    assert_eq!(match_odds(3, &MatchType::Anywhere, &Backend::Gpu).places, 46);
    assert_eq!(match_odds(50, &MatchType::Anywhere, &Backend::Gpu).places, 7);
    assert_eq!(match_odds(50, &MatchType::Anywhere, &Backend::Cpu).places, 7);
    assert_eq!(match_odds(60, &MatchType::Anywhere, &Backend::Cpu).places, 1);
}

#[test]
fn times_in_words() {
    assert_eq!(seconds_text(5), Some("5s".to_string()));
    assert_eq!(seconds_text(125), Some("2m 5s".to_string()));
    assert_eq!(seconds_text(3700), Some("1h 1m".to_string()));
    assert_eq!(seconds_text(90_000), Some("1d 1h".to_string()));
    assert_eq!(seconds_text(31_535_999), Some("364d 23h".to_string()));
    assert_eq!(seconds_text(31_536_000), None);
}
