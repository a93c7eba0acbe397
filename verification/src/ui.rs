//! What the screen shows, as coloured text: panels of lines of spans.

use crate::app;
use crate::app::{slot_of, App, Benchmarks, FocusedPanel, FoundResult, Mode, SearchField};
use crate::crypto;
use crate::crypto::{validate_pattern, Backend, MatchType, ADDRESS_LEN};
use crate::gpu::est_footprint_bytes;
use crate::rate::Rate;
use crate::text;
use crate::text::{align_right, decimal_string, joined, joined3, pad};
use std::collections::VecDeque;
use vstd::prelude::*;
use vstd::string::StrSliceExecFns;
use vstd::string::StringExecFns;
use vstd::string::StringSliceAdditionalSpecFns;
use vstd::utf8::*;

verus! {

/// A role that a colour is given to.
#[derive(Clone, Copy, PartialEq, Eq, Debug, Structural)]
pub enum Color {
    Default,
    Accent,
    Dim,
    Good,
    Warn,
    Bad,
    Bright,
}

/// How letters are set.
#[derive(Clone, Copy, PartialEq, Eq, Debug, Structural)]
pub enum Weight {
    Plain,
    Bold,
    Italic,
    Underlined,
}

/// A run of text in one style.
pub struct Span {
    pub text: String,
    pub color: Color,
    pub weight: Weight,
}

/// What a span shows.
pub type Piece = (Seq<char>, Color, Weight);

impl Span {
    pub open spec fn piece(&self) -> Piece {
        (self.text@, self.color, self.weight)
    }
}

/// What a line shows.
pub open spec fn pieces(line: Seq<Span>) -> Seq<Piece> {
    Seq::new(line.len(), |i: int| line[i].piece())
}

/// What lines show.
pub open spec fn page(lines: Seq<Vec<Span>>) -> Seq<Seq<Piece>> {
    Seq::new(lines.len(), |i: int| pieces(lines[i]@))
}

/// A panel: its title, the colour of title and border, and its lines.
pub struct Panel {
    pub title: String,
    pub color: Color,
    pub lines: Vec<Vec<Span>>,
}

/// Appends a span to a line.
fn put(line: &mut Vec<Span>, text: &str, color: Color, weight: Weight)
    ensures
        pieces(final(line)@) == pieces(old(line)@).push((text@, color, weight)),
{
    line.push(Span { text: String::from_str(text), color, weight });
    assert(pieces(line@) =~= pieces(old(line)@).push((text@, color, weight)));
}

/// An empty line.
fn blank() -> (line: Vec<Span>)
    ensures
        pieces(line@) == Seq::<Piece>::empty(),
{
    let line: Vec<Span> = Vec::new();
    assert(pieces(line@) =~= Seq::<Piece>::empty());
    line
}

/// A line of one span.
fn single(text: &str, color: Color, weight: Weight) -> (line: Vec<Span>)
    ensures
        pieces(line@) == seq![(text@, color, weight)],
{
    let mut line: Vec<Span> = blank();
    put(&mut line, text, color, weight);
    line
}

/// No lines.
fn no_lines() -> (lines: Vec<Vec<Span>>)
    ensures
        page(lines@) == Seq::<Seq<Piece>>::empty(),
{
    let lines: Vec<Vec<Span>> = Vec::new();
    assert(page(lines@) =~= Seq::<Seq<Piece>>::empty());
    lines
}

/// Appends a line.
fn add_line(lines: &mut Vec<Vec<Span>>, line: Vec<Span>)
    ensures
        page(final(lines)@) == page(old(lines)@).push(pieces(line@)),
{
    lines.push(line);
    assert(page(lines@) =~= page(old(lines)@).push(pieces(line@)));
}

// ---- header and footer ----

/// The version.
pub const VERSION: &'static str = "0.6.0";

/// The label of what is going on, and its colour.
pub open spec fn spec_mode_label(mode: Mode) -> (Seq<char>, Color) {
    match mode {
        Mode::Idle => ("estimate"@, Color::Bright),
        Mode::Benchmarking { .. } => ("benchmark"@, Color::Accent),
        Mode::Generating { .. } => ("search & save keypair"@, Color::Accent),
        Mode::Found { .. } => ("keypair saved"@, Color::Good),
        Mode::Error(_) => ("error"@, Color::Bad),
    }
}

/// The label of what is going on, and its colour.
pub fn mode_label(app: &App) -> (r: (&'static str, Color))
    ensures
        (r.0@, r.1) == spec_mode_label(app.mode),
{
    match &app.mode {
        Mode::Idle => ("estimate", Color::Bright),
        Mode::Benchmarking { .. } => ("benchmark", Color::Accent),
        Mode::Generating { .. } => ("search & save keypair", Color::Accent),
        Mode::Found { .. } => ("keypair saved", Color::Good),
        Mode::Error(_) => ("error", Color::Bad),
    }
}

/// The title line of a screen of the given width.
pub open spec fn title_line(width: nat) -> Seq<Piece> {
    seq![
        (" OVDS"@, Color::Accent, Weight::Bold),
        ("  onion vanity domain search"@, Color::Dim, Weight::Plain),
        (
            text::aligned_right("v"@ + VERSION@ + " "@, (width - 32) as nat),
            Color::Dim,
            Weight::Plain,
        ),
    ]
}

fn build_title_line(width: usize) -> (line: Vec<Span>)
    requires
        width >= 32,
    ensures
        pieces(line@) == title_line(width as nat),
{
    let mut line: Vec<Span> = blank();
    put(&mut line, " OVDS", Color::Accent, Weight::Bold);
    put(&mut line, "  onion vanity domain search", Color::Dim, Weight::Plain);
    let version: String = joined3("v", VERSION, " ");
    let column: String = align_right(version.as_str(), width - 32);
    put(&mut line, column.as_str(), Color::Dim, Weight::Plain);
    line
}

/// The line that says what is going on.
pub open spec fn mode_line(mode: Mode) -> Seq<Piece> {
    seq![
        (" mode  "@, Color::Dim, Weight::Plain),
        ("›  "@, Color::Dim, Weight::Plain),
        (spec_mode_label(mode).0, spec_mode_label(mode).1, Weight::Bold),
    ]
}

fn build_mode_line(app: &App) -> (line: Vec<Span>)
    ensures
        pieces(line@) == mode_line(app.mode),
{
    let (label, color): (&'static str, Color) = mode_label(app);
    let mut line: Vec<Span> = blank();
    put(&mut line, " mode  ", Color::Dim, Weight::Plain);
    put(&mut line, "›  ", Color::Dim, Weight::Plain);
    put(&mut line, label, color, Weight::Bold);
    line
}

/// The two lines at the top of a screen of the given width.
pub fn header(app: &App, width: usize) -> (r: Vec<Vec<Span>>)
    requires
        width >= 32,
    ensures
        page(r@) == seq![title_line(width as nat), mode_line(app.mode)],
{
    let mut lines: Vec<Vec<Span>> = no_lines();
    add_line(&mut lines, build_title_line(width));
    add_line(&mut lines, build_mode_line(app));
    lines
}

/// The line at the bottom: the keys that do something now.
pub open spec fn spec_footer(app: App) -> Seq<char> {
    match app.mode {
        Mode::Benchmarking { .. } => "  benchmarking… please wait  │  [q] quit"@,
        Mode::Generating { .. } => "  [s] stop search  │  [q] quit"@,
        Mode::Found { .. } => "  [n] new search  │  [q] quit"@,
        Mode::Error(_) => "  [Esc] dismiss  │  [q] quit"@,
        Mode::Idle => match app.focused_panel {
            FocusedPanel::Pattern =>
                "  [↑ ↓] select field  │  [← →] change  │  type a–z 2–7  │  [Tab] → actions  │  [q] quit"@,
            FocusedPanel::Actions =>
                "  [g] generate  │  [b] benchmark  │  [Tab] → search  │  [q] quit"@,
        },
    }
}

/// The line at the bottom: the keys that do something now.
pub fn footer(app: &App) -> (r: &'static str)
    ensures
        r@ == spec_footer(*app),
{
    match &app.mode {
        Mode::Benchmarking { .. } => "  benchmarking… please wait  │  [q] quit",
        Mode::Generating { .. } => "  [s] stop search  │  [q] quit",
        Mode::Found { .. } => "  [n] new search  │  [q] quit",
        Mode::Error(_) => "  [Esc] dismiss  │  [q] quit",
        Mode::Idle => match app.focused_panel {
            FocusedPanel::Pattern =>
                "  [↑ ↓] select field  │  [← →] change  │  type a–z 2–7  │  [Tab] → actions  │  [q] quit",
            FocusedPanel::Actions =>
                "  [g] generate  │  [b] benchmark  │  [Tab] → search  │  [q] quit",
        },
    }
}

// ---- the search panel ----

/// Nothing runs, so that the session can be edited.
pub open spec fn editable(mode: Mode) -> bool {
    mode is Idle || mode is Error
}

/// Whether the actions panel has the keys.
pub fn panel_focused(app: &App) -> (r: bool)
    ensures
        r == (app.focused_panel == FocusedPanel::Actions && editable(app.mode)),
{
    app.focused_panel == FocusedPanel::Actions && is_editable(&app.mode)
}

fn is_editable(mode: &Mode) -> (r: bool)
    ensures
        r == editable(*mode),
{
    match mode {
        Mode::Idle => true,
        Mode::Error(_) => true,
        _ => false,
    }
}

/// The search panel has the keys.
pub open spec fn search_focused(app: App) -> bool {
    editable(app.mode) && app.focused_panel == FocusedPanel::Pattern
}

/// The cursor is on the row, and shown.
pub open spec fn selected(app: App, field: SearchField) -> bool {
    search_focused(app) && app.search_field == field
}

fn is_selected(app: &App, field: SearchField) -> (r: bool)
    ensures
        r == selected(*app, field),
{
    is_editable(&app.mode) && app.focused_panel == FocusedPanel::Pattern && app.search_field
        == field
}

/// The start of a row: the cursor if it is here, and the name.
pub open spec fn label_piece(name: Seq<char>, sel: bool) -> Piece {
    if sel {
        ("▸ "@ + text::padded(name, 8), Color::Accent, Weight::Plain)
    } else {
        ("  "@ + text::padded(name, 8), Color::Dim, Weight::Plain)
    }
}

pub open spec fn arrow_piece() -> Piece {
    ("›  "@, Color::Dim, Weight::Plain)
}

/// The hint that left and right change the row.
pub open spec fn hint_piece(sel: bool) -> Piece {
    if sel {
        ("← →"@, Color::Dim, Weight::Plain)
    } else {
        (""@, Color::Default, Weight::Plain)
    }
}

fn start_row(name: &str, sel: bool) -> (line: Vec<Span>)
    ensures
        pieces(line@) == seq![label_piece(name@, sel), arrow_piece()],
{
    let mut line: Vec<Span> = blank();
    let column: String = pad(name, 8);
    if sel {
        put(&mut line, joined("▸ ", column.as_str()).as_str(), Color::Accent, Weight::Plain);
    } else {
        put(&mut line, joined("  ", column.as_str()).as_str(), Color::Dim, Weight::Plain);
    }
    put(&mut line, "›  ", Color::Dim, Weight::Plain);
    line
}

fn put_hint(line: &mut Vec<Span>, sel: bool)
    ensures
        pieces(final(line)@) == pieces(old(line)@).push(hint_piece(sel)),
{
    if sel {
        put(line, "← →", Color::Dim, Weight::Plain);
    } else {
        put(line, "", Color::Default, Weight::Plain);
    }
}

/// A value that can be chosen, and a space after it.
pub open spec fn option_pieces(label: Seq<char>, chosen: bool, color: Color) -> Seq<Piece> {
    seq![
        if chosen {
            ("["@ + label + "]"@, color, Weight::Bold)
        } else {
            (" "@ + label + " "@, color, Weight::Plain)
        },
        (" "@, Color::Default, Weight::Plain),
    ]
}

fn put_option(line: &mut Vec<Span>, label: &str, chosen: bool, color: Color)
    ensures
        pieces(final(line)@) == pieces(old(line)@) + option_pieces(label@, chosen, color),
{
    if chosen {
        put(line, joined3("[", label, "]").as_str(), color, Weight::Bold);
    } else {
        put(line, joined3(" ", label, " ").as_str(), color, Weight::Plain);
    }
    put(line, " ", Color::Default, Weight::Plain);
    assert(pieces(line@) =~= pieces(old(line)@) + option_pieces(label@, chosen, color));
}

/// Accent for what is chosen or has the keys, else dim.
pub open spec fn choice_color(chosen: bool) -> Color {
    if chosen {
        Color::Accent
    } else {
        Color::Dim
    }
}

fn color_of_choice(chosen: bool) -> (r: Color)
    ensures
        r == choice_color(chosen),
{
    if chosen {
        Color::Accent
    } else {
        Color::Dim
    }
}

/// A character of the pattern; one that cannot be in an address is marked.
pub open spec fn char_piece(c: char) -> Piece {
    if text::base32_char(c) {
        (seq![c], Color::Bright, Weight::Bold)
    } else {
        (seq![c], Color::Bad, Weight::Underlined)
    }
}

/// The row with the pattern.
pub open spec fn input_row(pattern: Seq<char>, sel: bool) -> Seq<Piece> {
    let start = seq![label_piece("string"@, sel), arrow_piece()];
    let cursor = ("█"@, Color::Accent, Weight::Plain);
    if pattern.len() == 0 {
        start.push(
            if sel {
                cursor
            } else {
                ("type here…"@, Color::Dim, Weight::Italic)
            },
        )
    } else {
        let typed = start + Seq::new(pattern.len(), |i: int| char_piece(pattern[i]));
        if sel {
            typed.push(cursor)
        } else {
            typed
        }
    }
}

fn build_input_row(pattern: &str, sel: bool) -> (line: Vec<Span>)
    ensures
        pieces(line@) == input_row(pattern@, sel),
{
    let mut line: Vec<Span> = start_row("string", sel);
    let n: usize = pattern.unicode_len();
    if n == 0 {
        if sel {
            put(&mut line, "█", Color::Accent, Weight::Plain);
        } else {
            put(&mut line, "type here…", Color::Dim, Weight::Italic);
        }
        return line;
    }
    let ghost start = pieces(line@);
    assert(start =~= start + Seq::new(0, |i: int| char_piece(pattern@[i])));
    for k in 0..n
        invariant
            n == pattern@.len(),
            pieces(line@) == start + Seq::new(k as nat, |i: int| char_piece(pattern@[i])),
    {
        let c: char = pattern.get_char(k);
        let mut one: String = String::new();
        one.push(c);
        assert(one@ =~= seq![c]);
        if text::is_base32_char(c) {
            put(&mut line, one.as_str(), Color::Bright, Weight::Bold);
        } else {
            put(&mut line, one.as_str(), Color::Bad, Weight::Underlined);
        }
        assert(pieces(line@) =~= start + Seq::new((k + 1) as nat, |i: int| char_piece(pattern@[i])));
    }
    if sel {
        put(&mut line, "█", Color::Accent, Weight::Plain);
    }
    line
}

/// A number of characters in words.
pub open spec fn char_count(n: nat) -> Seq<char> {
    text::decimal(n) + if n == 1 {
        " char"@
    } else {
        " chars"@
    }
}

fn count_text(n: usize) -> (r: String)
    ensures
        r@ == char_count(n as nat),
{
    let figure: String = decimal_string(n as u128);
    if n == 1 {
        joined(figure.as_str(), " char")
    } else {
        joined(figure.as_str(), " chars")
    }
}

/// The row that says whether the pattern is valid.
pub open spec fn validity_row(pattern: Seq<char>) -> Seq<Piece> {
    let start = seq![("  chars   "@, Color::Dim, Weight::Plain), arrow_piece()];
    if pattern.len() == 0 {
        start.push(("a–z  2–7  (base32)"@, Color::Dim, Weight::Plain))
    } else if app::all_valid(pattern) {
        start.push(("✓ "@, Color::Good, Weight::Plain)).push(
            (char_count(pattern.len()), Color::Dim, Weight::Plain),
        )
    } else {
        start.push(("✗ invalid - use a-z 2-7"@, Color::Bad, Weight::Plain))
    }
}

fn build_validity_row(pattern: &str, valid: bool) -> (line: Vec<Span>)
    requires
        valid == app::all_valid(pattern@),
    ensures
        pieces(line@) == validity_row(pattern@),
{
    let mut line: Vec<Span> = blank();
    put(&mut line, "  chars   ", Color::Dim, Weight::Plain);
    put(&mut line, "›  ", Color::Dim, Weight::Plain);
    let n: usize = pattern.unicode_len();
    if n == 0 {
        put(&mut line, "a–z  2–7  (base32)", Color::Dim, Weight::Plain);
    } else if valid {
        put(&mut line, "✓ ", Color::Good, Weight::Plain);
        put(&mut line, count_text(n).as_str(), Color::Dim, Weight::Plain);
    } else {
        put(&mut line, "✗ invalid - use a-z 2-7", Color::Bad, Weight::Plain);
    }
    line
}

/// The row with the match types.
pub open spec fn match_row(match_type: MatchType, sel: bool) -> Seq<Piece> {
    let prefix = match_type is Prefix;
    let suffix = match_type is Suffix;
    let anywhere = match_type is Anywhere;
    (seq![label_piece("match"@, sel), arrow_piece()] + option_pieces(
        "Prefix"@,
        prefix,
        choice_color(prefix),
    ) + option_pieces("Suffix"@, suffix, choice_color(suffix)) + option_pieces(
        "Anywhere"@,
        anywhere,
        choice_color(anywhere),
    )).push(hint_piece(sel))
}

fn build_match_row(match_type: MatchType, sel: bool) -> (line: Vec<Span>)
    ensures
        pieces(line@) == match_row(match_type, sel),
{
    let prefix: bool = match_type == MatchType::Prefix;
    let suffix: bool = match_type == MatchType::Suffix;
    let anywhere: bool = match_type == MatchType::Anywhere;
    let mut line: Vec<Span> = start_row("match", sel);
    put_option(&mut line, "Prefix", prefix, color_of_choice(prefix));
    put_option(&mut line, "Suffix", suffix, color_of_choice(suffix));
    put_option(&mut line, "Anywhere", anywhere, color_of_choice(anywhere));
    put_hint(&mut line, sel);
    line
}

/// What a backend runs on.
pub open spec fn backend_detail(app: App) -> Seq<char> {
    match app.backend {
        Backend::Cpu => text::decimal(app.threads as nat) + " threads"@,
        Backend::Gpu => match app.gpu {
            Some(info) => info.spec_detail(),
            None => "unavailable"@,
        },
    }
}

/// The row with the backends. A GPU that is not there is marked.
pub open spec fn backend_row(app: App, sel: bool) -> Seq<Piece> {
    let cpu = app.backend == Backend::Cpu;
    let gpu = app.backend == Backend::Gpu;
    let gpu_color = if app.gpu is None {
        Color::Bad
    } else {
        choice_color(gpu)
    };
    (seq![label_piece("backend"@, sel), arrow_piece()] + option_pieces(
        "CPU"@,
        cpu,
        choice_color(cpu),
    ) + option_pieces("GPU"@, gpu, gpu_color)).push(
        (backend_detail(app), Color::Dim, Weight::Plain),
    ).push(("  "@, Color::Default, Weight::Plain)).push(hint_piece(sel))
}

fn build_backend_row(app: &App, sel: bool) -> (line: Vec<Span>)
    ensures
        pieces(line@) == backend_row(*app, sel),
{
    let cpu: bool = app.backend == Backend::Cpu;
    let gpu: bool = app.backend == Backend::Gpu;
    let gpu_color: Color = if app.gpu.is_none() {
        Color::Bad
    } else {
        color_of_choice(gpu)
    };
    let detail: String = match app.backend {
        Backend::Cpu => joined(decimal_string(app.threads as u128).as_str(), " threads"),
        Backend::Gpu => match &app.gpu {
            Some(info) => info.detail(),
            None => String::from_str("unavailable"),
        },
    };
    let mut line: Vec<Span> = start_row("backend", sel);
    put_option(&mut line, "CPU", cpu, color_of_choice(cpu));
    put_option(&mut line, "GPU", gpu, gpu_color);
    put(&mut line, detail.as_str(), Color::Dim, Weight::Plain);
    put(&mut line, "  ", Color::Default, Weight::Plain);
    put_hint(&mut line, sel);
    line
}

/// The batch sizes on offer, the chosen one marked.
pub open spec fn batch_pieces(options: Seq<u32>, batch_k: u32) -> Seq<Piece>
    decreases options.len(),
{
    if options.len() == 0 {
        Seq::empty()
    } else {
        let k = options.last();
        batch_pieces(options.drop_last(), batch_k) + option_pieces(
            text::decimal(k as nat),
            k == batch_k,
            choice_color(k == batch_k),
        )
    }
}

/// Tenths of gigabytes, to the nearest one.
pub open spec fn tenths_of_gb(bytes: nat) -> nat {
    ((10 * bytes + 500_000_000) / 1_000_000_000) as nat
}

/// What a batch size takes on the device.
pub open spec fn footprint_text(batch_k: u32) -> Seq<char> {
    let t = tenths_of_gb(0x60_0000 * batch_k as nat);
    "~"@ + text::decimal(t / 10) + "."@ + text::decimal(t % 10) + " GB GPU  "@
}

fn footprint(batch_k: u32) -> (r: String)
    ensures
        r@ == footprint_text(batch_k),
{
    let bytes: u128 = est_footprint_bytes(batch_k) as u128;
    let t: u128 = (10 * bytes + 500_000_000) / 1_000_000_000;
    let mut r: String = joined3("~", decimal_string(t / 10).as_str(), ".");
    r.append(decimal_string(t % 10).as_str());
    r.append(" GB GPU  ");
    r
}

/// The row with the batch sizes.
pub open spec fn batch_row(options: Seq<u32>, batch_k: u32, sel: bool) -> Seq<Piece> {
    (seq![label_piece("batch"@, sel), arrow_piece()] + batch_pieces(options, batch_k)).push(
        (footprint_text(batch_k), Color::Dim, Weight::Plain),
    ).push(hint_piece(sel))
}

fn build_batch_row(options: &Vec<u32>, batch_k: u32, sel: bool) -> (line: Vec<Span>)
    ensures
        pieces(line@) == batch_row(options@, batch_k, sel),
{
    let mut line: Vec<Span> = start_row("batch", sel);
    let ghost start = pieces(line@);
    assert(start =~= start + batch_pieces(options@.take(0), batch_k));
    for i in 0..options.len()
        invariant
            pieces(line@) == start + batch_pieces(options@.take(i as int), batch_k),
    {
        let k: u32 = options[i];
        let chosen: bool = k == batch_k;
        put_option(
            &mut line,
            decimal_string(k as u128).as_str(),
            chosen,
            color_of_choice(chosen),
        );
        proof {
            let next = options@.take(i + 1);
            assert(next.drop_last() =~= options@.take(i as int));
            assert(next.last() == k);
            assert(pieces(line@) =~= start + batch_pieces(next, batch_k));
        }
    }
    assert(options@.take(options@.len() as int) =~= options@);
    put(&mut line, footprint(batch_k).as_str(), Color::Dim, Weight::Plain);
    put_hint(&mut line, sel);
    line
}

/// What stands in for the characters that the search leaves open.
pub const FILLER: &'static str = "abcdefghijklmnop234567abcdefghijklmnop234567";

/// How many characters of the filler an example shows.
pub open spec fn filler_len(pattern_len: nat) -> int {
    if pattern_len >= 56 {
        0
    } else if 56 - pattern_len > 44 {
        44
    } else {
        56 - pattern_len
    }
}

/// How many characters stand before a pattern in the middle.
pub open spec fn half_len(pattern_len: nat) -> int {
    if pattern_len >= 56 {
        0
    } else {
        (56 - pattern_len) / 2
    }
}

/// An example of an address with the pattern.
pub open spec fn example(pattern: Seq<char>, match_type: MatchType) -> Seq<char> {
    let n = pattern.len();
    let filler = FILLER@.take(filler_len(n));
    let half = half_len(n);
    match match_type {
        MatchType::Prefix => pattern + filler + ".onion"@,
        MatchType::Suffix => filler + pattern + ".onion"@,
        MatchType::Anywhere => filler.take(half) + pattern + filler.skip(half) + ".onion"@,
    }
}

/// The filler has 44 characters, and the suffix of an address six.
proof fn lemma_filler()
    ensures
        FILLER@.len() == 44,
        ".onion"@.len() == 6,
{
    reveal_strlit("abcdefghijklmnop234567abcdefghijklmnop234567");
    reveal_strlit(".onion");
}

/// An example of an address with the pattern.
pub fn preview_address(pattern: &str, match_type: &MatchType) -> (r: String)
    ensures
        r@ == example(pattern@, *match_type),
{
    proof {
        lemma_filler();
    }
    let n: usize = pattern.unicode_len();
    let remaining: usize = ADDRESS_LEN.saturating_sub(n);
    let shown: usize = if remaining > 44 {
        44
    } else {
        remaining
    };
    let half: usize = remaining / 2;
    let filler: &str = FILLER.substring_char(0, shown);
    assert(filler@ =~= FILLER@.take(filler_len(pattern@.len())));
    let mut r: String = String::new();
    match match_type {
        MatchType::Prefix => {
            r.append(pattern);
            r.append(filler);
        },
        MatchType::Suffix => {
            r.append(filler);
            r.append(pattern);
        },
        MatchType::Anywhere => {
            r.append(filler.substring_char(0, half));
            r.append(pattern);
            r.append(filler.substring_char(half, shown));
            assert(filler@.subrange(0, half as int) =~= filler@.take(half as int));
            assert(filler@.subrange(half as int, shown as int) =~= filler@.skip(half as int));
        },
    }
    r.append(".onion");
    assert(r@ =~= example(pattern@, *match_type));
    r
}

/// Where the pattern stands in an example, from and to.
pub open spec fn marked_range(total: nat, n: nat, match_type: MatchType) -> (int, int) {
    match match_type {
        MatchType::Prefix => (
            0,
            if n < total {
                n as int
            } else {
                total as int
            },
        ),
        MatchType::Suffix => {
            let start = if total > n + 6 {
                total - (n + 6)
            } else {
                0
            };
            (
                start,
                if start + n < total {
                    start + n
                } else {
                    total as int
                },
            )
        },
        MatchType::Anywhere => {
            let half = (56 - n) / 2;
            (
                half,
                if half + n < total {
                    half + n
                } else {
                    total as int
                },
            )
        },
    }
}

/// Bytes `from` to `to` of a text, as text.
pub open spec fn byte_slice(text: Seq<char>, from: int, to: int) -> Seq<char> {
    decode_utf8(encode_utf8(text).subrange(from, to))
}

/// Where the pattern stands in an example, counted in bytes.
pub open spec fn marked_bytes(addr: Seq<char>, pattern: Seq<char>, match_type: MatchType) -> (
    int,
    int,
) {
    marked_range(encode_utf8(addr).len(), encode_utf8(pattern).len(), match_type)
}

/// A boundary past another one is a boundary of what follows that one.
proof fn lemma_later_boundary(bytes: Seq<u8>, i: int, j: int)
    requires
        valid_utf8(bytes),
        is_char_boundary(bytes, i),
        is_char_boundary(bytes, j),
        i <= j,
    ensures
        0 <= i <= j <= bytes.len(),
        valid_utf8(bytes.subrange(i, bytes.len() as int)),
        is_char_boundary(bytes.subrange(i, bytes.len() as int), j - i),
    decreases bytes.len(),
{
    let rest = bytes.subrange(i, bytes.len() as int);
    if i == 0 {
        assert(rest =~= bytes);
    } else {
        reveal_with_fuel(is_char_boundary, 2);
        let n = length_of_first_scalar(bytes);
        let tail = pop_first_scalar(bytes);
        lemma_later_boundary(tail, i - n, j - n);
        assert(tail.subrange(i - n, tail.len() as int) =~= rest);
    }
}

/// A text is what its bytes decode to.
proof fn lemma_decoded(text: Seq<char>, bytes: Seq<u8>)
    requires
        encode_utf8(text) == bytes,
    ensures
        decode_utf8(bytes) == text,
{
    encode_utf8_decode_utf8(text);
}

/// In ASCII text every position is a boundary, and slices of bytes are slices of text.
proof fn lemma_ascii_slice(text: Seq<char>, from: int, to: int)
    requires
        is_ascii_chars(text),
        0 <= from <= to <= text.len(),
    ensures
        encode_utf8(text).len() == text.len(),
        is_char_boundary(encode_utf8(text), from),
        is_char_boundary(encode_utf8(text), to),
        byte_slice(text, from, to) == text.subrange(from, to),
{
    let bytes = encode_utf8(text);
    let part = text.subrange(from, to);
    is_ascii_chars_encode_utf8(text);
    is_ascii_chars_encode_utf8(part);
    encode_utf8_valid_utf8(text);
    encode_utf8_decode_utf8(part);
    assert(bytes.subrange(from, to) =~= encode_utf8(part)) by {
        assert forall|i: int| 0 <= i < part.len() implies bytes.subrange(from, to)[i]
            == encode_utf8(part)[i] by {
            assert(part[i] == text[from + i]);
            assert(text[from + i] as u8 == bytes[from + i]);
        }
    }
    is_char_boundary_start_end_of_seq(bytes);
    if from < text.len() {
        assert(text[from] as u8 == bytes[from]);
        is_char_boundary_iff_not_is_continuation_byte(bytes, from);
    }
    if to < text.len() {
        assert(text[to] as u8 == bytes[to]);
        is_char_boundary_iff_not_is_continuation_byte(bytes, to);
    }
}

/// Splits an example into what stands before the pattern, the pattern, and the rest. The
/// cuts are counted in bytes, and have to fall between characters.
pub fn split_preview(addr: &str, pattern: &str, match_type: &MatchType) -> (r: (
    String,
    String,
    String,
))
    requires
        match_type is Anywhere ==> encode_utf8(pattern@).len() <= 56 && (56 - encode_utf8(
            pattern@,
        ).len()) / 2 <= encode_utf8(addr@).len(),
        is_char_boundary(encode_utf8(addr@), marked_bytes(addr@, pattern@, *match_type).0),
        is_char_boundary(encode_utf8(addr@), marked_bytes(addr@, pattern@, *match_type).1),
    ensures
        ({
            let range = marked_bytes(addr@, pattern@, *match_type);
            &&& r.0@ == byte_slice(addr@, 0, range.0)
            &&& r.1@ == byte_slice(addr@, range.0, range.1)
            &&& r.2@ == byte_slice(addr@, range.1, encode_utf8(addr@).len() as int)
        }),
{
    let n: usize = pattern.as_bytes().len();
    let total: usize = addr.as_bytes().len();
    let (s, e): (usize, usize) = match match_type {
        MatchType::Prefix => (
            0,
            if n < total {
                n
            } else {
                total
            },
        ),
        MatchType::Suffix => {
            let start: usize = total.saturating_sub(n).saturating_sub(6);
            (
                start,
                if n < total - start {
                    start + n
                } else {
                    total
                },
            )
        },
        MatchType::Anywhere => {
            let half: usize = (ADDRESS_LEN - n) / 2;
            (
                half,
                if n < total - half {
                    half + n
                } else {
                    total
                },
            )
        },
    };
    let ghost bytes = encode_utf8(addr@);
    proof {
        encode_utf8_valid_utf8(addr@);
        lemma_later_boundary(bytes, s as int, e as int);
    }
    let (before, rest): (&str, &str) = addr.split_at(s);
    let (matched, after): (&str, &str) = rest.split_at(e - s);
    proof {
        let tail = bytes.subrange(s as int, total as int);
        assert(tail.subrange(0, e - s) =~= bytes.subrange(s as int, e as int));
        assert(tail.subrange(e - s, tail.len() as int) =~= bytes.subrange(e as int, total as int));
        lemma_decoded(before@, bytes.subrange(0, s as int));
        lemma_decoded(matched@, bytes.subrange(s as int, e as int));
        lemma_decoded(after@, bytes.subrange(e as int, total as int));
    }
    (String::from_str(before), String::from_str(matched), String::from_str(after))
}

/// What is marked in an example is the pattern, and the parts make up the example.
pub proof fn law_preview_marks_pattern(pattern: Seq<char>, match_type: MatchType)
    requires
        pattern.len() <= 56,
    ensures
        ({
            let addr = example(pattern, match_type);
            let range = marked_range(addr.len(), pattern.len(), match_type);
            &&& 0 <= range.0 <= range.1 <= addr.len()
            &&& addr.subrange(range.0, range.1) == pattern
            &&& addr.take(range.0) + pattern + addr.skip(range.1) == addr
        }),
{
    lemma_filler();
    let addr = example(pattern, match_type);
    let range = marked_range(addr.len(), pattern.len(), match_type);
    assert(addr.subrange(range.0, range.1) =~= pattern);
    assert(addr.take(range.0) + pattern + addr.skip(range.1) =~= addr);
}

/// The row with the example.
pub open spec fn preview_row(pattern: Seq<char>, match_type: MatchType) -> Seq<Piece> {
    if pattern.len() > 0 && app::all_valid(pattern) {
        let addr = example(pattern, match_type);
        let range = marked_range(addr.len(), pattern.len(), match_type);
        seq![
            ("  example "@, Color::Dim, Weight::Plain),
            arrow_piece(),
            (addr.take(range.0), Color::Dim, Weight::Plain),
            (pattern, Color::Accent, Weight::Bold),
            (addr.skip(range.1), Color::Dim, Weight::Plain),
        ]
    } else {
        seq![("  example  ›  enter a pattern above"@, Color::Dim, Weight::Italic)]
    }
}

/// Examples are ASCII.
proof fn lemma_example_ascii(pattern: Seq<char>, match_type: MatchType)
    requires
        app::all_valid(pattern),
        pattern.len() <= 56,
    ensures
        is_ascii_chars(pattern),
        is_ascii_chars(example(pattern, match_type)),
        match_type is Anywhere ==> half_len(pattern.len()) <= example(pattern, match_type).len(),
{
    lemma_filler();
    reveal_strlit("abcdefghijklmnop234567abcdefghijklmnop234567");
    reveal_strlit(".onion");
    let filler = FILLER@;
    let dot = ".onion"@;
    assert forall|i: int| 0 <= i < filler.len() implies '\0' <= #[trigger] filler[i] <= '\u{7f}' by {}
    assert forall|i: int| 0 <= i < dot.len() implies '\0' <= #[trigger] dot[i] <= '\u{7f}' by {}
    assert forall|i: int| 0 <= i < pattern.len() implies '\0' <= #[trigger] pattern[i]
        <= '\u{7f}' by {
        assert(text::base32_char(pattern[i]));
    }
}

fn build_preview_row(pattern: &str, valid: bool, match_type: &MatchType) -> (line: Vec<Span>)
    requires
        valid == app::all_valid(pattern@),
        pattern@.len() <= 56,
    ensures
        pieces(line@) == preview_row(pattern@, *match_type),
{
    if pattern.unicode_len() == 0 || !valid {
        return single("  example  ›  enter a pattern above", Color::Dim, Weight::Italic);
    }
    let addr: String = preview_address(pattern, match_type);
    proof {
        let range = marked_range(addr@.len(), pattern@.len(), *match_type);
        lemma_example_ascii(pattern@, *match_type);
        law_preview_marks_pattern(pattern@, *match_type);
        is_ascii_chars_encode_utf8(pattern@);
        lemma_ascii_slice(addr@, 0, range.0);
        lemma_ascii_slice(addr@, range.0, range.1);
        lemma_ascii_slice(addr@, range.1, addr@.len() as int);
        assert(addr@.subrange(0, range.0) =~= addr@.take(range.0));
        assert(addr@.subrange(range.1, addr@.len() as int) =~= addr@.skip(range.1));
    }
    let (before, matched, after): (String, String, String) = split_preview(
        addr.as_str(),
        pattern,
        match_type,
    );
    let mut line: Vec<Span> = blank();
    put(&mut line, "  example ", Color::Dim, Weight::Plain);
    put(&mut line, "›  ", Color::Dim, Weight::Plain);
    put(&mut line, before.as_str(), Color::Dim, Weight::Plain);
    put(&mut line, matched.as_str(), Color::Accent, Weight::Bold);
    put(&mut line, after.as_str(), Color::Dim, Weight::Plain);
    line
}

/// The rows of the search panel.
pub open spec fn search_rows(app: App) -> Seq<Seq<Piece>> {
    let upper = seq![
        Seq::<Piece>::empty(),
        input_row(app.pattern@, selected(app, SearchField::Pattern)),
        validity_row(app.pattern@),
        match_row(app.match_type, selected(app, SearchField::Match)),
        backend_row(app, selected(app, SearchField::Backend)),
    ];
    let rows = if app.batch_shown() {
        upper.push(
            batch_row(app.batch_k_options@, app.batch_k, selected(app, SearchField::Batch)),
        )
    } else {
        upper
    };
    rows.push(preview_row(app.pattern@, app.match_type))
}

/// The search panel.
pub fn pattern_panel(app: &App) -> (r: Panel)
    requires
        app.wf(),
    ensures
        r.title@ == " SEARCH "@,
        r.color == choice_color(search_focused(*app)),
        page(r.lines@) == search_rows(*app),
{
    let focused: bool = is_editable(&app.mode) && app.focused_panel == FocusedPanel::Pattern;
    let pattern: &str = app.pattern.as_str();
    let (valid, _): (bool, Vec<usize>) = validate_pattern(pattern);
    proof {
        crypto::law_valid_pattern(pattern@, pattern@.len());
    }
    let mut lines: Vec<Vec<Span>> = no_lines();
    add_line(&mut lines, blank());
    add_line(&mut lines, build_input_row(pattern, is_selected(app, SearchField::Pattern)));
    add_line(&mut lines, build_validity_row(pattern, valid));
    add_line(&mut lines, build_match_row(app.match_type, is_selected(app, SearchField::Match)));
    add_line(&mut lines, build_backend_row(app, is_selected(app, SearchField::Backend)));
    if app.backend == Backend::Gpu && app.gpu.is_some() {
        add_line(
            &mut lines,
            build_batch_row(
                &app.batch_k_options,
                app.batch_k,
                is_selected(app, SearchField::Batch),
            ),
        );
    }
    add_line(&mut lines, build_preview_row(pattern, valid, &app.match_type));
    Panel { title: String::from_str(" SEARCH "), color: color_of_choice(focused), lines }
}

/// The batch row is shown exactly on a GPU that is there, and the panel never has more
/// than seven rows.
pub proof fn law_batch_row(app: App)
    ensures
        search_rows(app).len() == if app.batch_shown() {
            7int
        } else {
            6int
        },
        app.batch_shown() ==> search_rows(app)[5] == batch_row(
            app.batch_k_options@,
            app.batch_k,
            selected(app, SearchField::Batch),
        ),
{
}

// ---- estimates ----

/// Whether there is a pattern to estimate for.
pub open spec fn has_estimate(pattern: Seq<char>) -> bool {
    pattern.len() > 0 && app::all_valid(pattern)
}

fn can_estimate(app: &App) -> (r: bool)
    ensures
        r == has_estimate(app.pattern@),
{
    app.pattern_valid()
}

/// What a panel of estimates shows without a pattern.
pub open spec fn no_estimate() -> Seq<Seq<Piece>> {
    seq![
        Seq::<Piece>::empty(),
        seq![("  enter a valid pattern"@, Color::Dim, Weight::Italic)],
    ]
}

fn build_no_estimate() -> (lines: Vec<Vec<Span>>)
    ensures
        page(lines@) == no_estimate(),
{
    let mut lines: Vec<Vec<Span>> = no_lines();
    add_line(&mut lines, blank());
    add_line(&mut lines, single("  enter a valid pattern", Color::Dim, Weight::Italic));
    lines
}

/// The figures of the probability panel, as text.
pub struct ProbFigures {
    /// Mean number of keys.
    pub mean: String,
    /// Numbers of keys by which that share of the searches are over.
    pub p1: String,
    pub p10: String,
    pub p25: String,
    pub p50: String,
    pub p75: String,
    pub p95: String,
    pub p99: String,
    /// Bits of work.
    pub bits: String,
    /// Probability of one key.
    pub p: String,
}

fn put_dim(line: &mut Vec<Span>, text: &str)
    ensures
        pieces(final(line)@) == pieces(old(line)@).push((text@, Color::Dim, Weight::Plain)),
{
    put(line, text, Color::Dim, Weight::Plain);
}

fn put_bright(line: &mut Vec<Span>, text: &str)
    ensures
        pieces(final(line)@) == pieces(old(line)@).push((text@, Color::Bright, Weight::Plain)),
{
    put(line, text, Color::Bright, Weight::Plain);
}

/// The line with the mean.
pub open spec fn mean_line(mean: Seq<char>) -> Seq<Piece> {
    seq![
        ("  1 in "@, Color::Dim, Weight::Plain),
        (mean, Color::Bright, Weight::Bold),
        ("  (mean)"@, Color::Dim, Weight::Plain),
    ]
}

fn build_mean_line(mean: &str) -> (line: Vec<Span>)
    ensures
        pieces(line@) == mean_line(mean@),
{
    let mut line: Vec<Span> = blank();
    put_dim(&mut line, "  1 in ");
    put(&mut line, mean, Color::Bright, Weight::Bold);
    put_dim(&mut line, "  (mean)");
    line
}

/// A line with three quantiles, in columns.
pub open spec fn quantile_line(
    a: Seq<char>,
    x: Seq<char>,
    b: Seq<char>,
    y: Seq<char>,
    c: Seq<char>,
    z: Seq<char>,
) -> Seq<Piece> {
    seq![
        (a, Color::Dim, Weight::Plain),
        (text::padded(x, 8), Color::Bright, Weight::Plain),
        (b, Color::Dim, Weight::Plain),
        (text::padded(y, 8), Color::Bright, Weight::Plain),
        (c, Color::Dim, Weight::Plain),
        (z, Color::Bright, Weight::Plain),
    ]
}

fn build_quantile_line(a: &str, x: &str, b: &str, y: &str, c: &str, z: &str) -> (line: Vec<Span>)
    ensures
        pieces(line@) == quantile_line(a@, x@, b@, y@, c@, z@),
{
    let mut line: Vec<Span> = blank();
    put_dim(&mut line, a);
    put_bright(&mut line, pad(x, 8).as_str());
    put_dim(&mut line, b);
    put_bright(&mut line, pad(y, 8).as_str());
    put_dim(&mut line, c);
    put_bright(&mut line, z);
    line
}

/// A line with one figure.
pub open spec fn figure_line(a: Seq<char>, x: Seq<char>) -> Seq<Piece> {
    seq![(a, Color::Dim, Weight::Plain), (x, Color::Bright, Weight::Plain)]
}

fn build_figure_line(a: &str, x: &str) -> (line: Vec<Span>)
    ensures
        pieces(line@) == figure_line(a@, x@),
{
    let mut line: Vec<Span> = blank();
    put_dim(&mut line, a);
    put_bright(&mut line, x);
    line
}

/// The lines of the probability panel.
pub open spec fn prob_lines(f: ProbFigures) -> Seq<Seq<Piece>> {
    seq![
        Seq::<Piece>::empty(),
        mean_line(f.mean@),
        quantile_line("  p1  "@, f.p1@, "p10  "@, f.p10@, "p25  "@, f.p25@),
        quantile_line("  p50 "@, f.p50@, "p75  "@, f.p75@, "p95  "@, f.p95@),
        figure_line("  p99 "@, f.p99@),
        Seq::<Piece>::empty(),
        figure_line("  bits  "@, f.bits@) + figure_line("   p  "@, f.p@),
    ]
}

/// The probability panel.
pub fn prob_panel(app: &App, f: &ProbFigures) -> (r: Panel)
    ensures
        r.title@ == " PROBABILITY "@,
        r.color == Color::Dim,
        page(r.lines@) == if has_estimate(app.pattern@) {
            prob_lines(*f)
        } else {
            no_estimate()
        },
{
    let lines: Vec<Vec<Span>> = if can_estimate(app) {
        let mut lines: Vec<Vec<Span>> = no_lines();
        add_line(&mut lines, blank());
        add_line(&mut lines, build_mean_line(f.mean.as_str()));
        add_line(
            &mut lines,
            build_quantile_line(
                "  p1  ",
                f.p1.as_str(),
                "p10  ",
                f.p10.as_str(),
                "p25  ",
                f.p25.as_str(),
            ),
        );
        add_line(
            &mut lines,
            build_quantile_line(
                "  p50 ",
                f.p50.as_str(),
                "p75  ",
                f.p75.as_str(),
                "p95  ",
                f.p95.as_str(),
            ),
        );
        add_line(&mut lines, build_figure_line("  p99 ", f.p99.as_str()));
        add_line(&mut lines, blank());
        let mut last: Vec<Span> = build_figure_line("  bits  ", f.bits.as_str());
        put_dim(&mut last, "   p  ");
        put_bright(&mut last, f.p.as_str());
        assert(pieces(last@) =~= figure_line("  bits  "@, f.bits@) + figure_line("   p  "@, f.p@));
        add_line(&mut lines, last);
        lines
    } else {
        build_no_estimate()
    };
    Panel { title: String::from_str(" PROBABILITY "), color: Color::Dim, lines }
}

/// The figures of a combination of backend and match type, as text.
pub struct TimeFigures {
    pub rate: String,
    pub p50: String,
    pub p95: String,
}

/// The match type in capitals.
pub open spec fn capitals(match_type: MatchType) -> Seq<char> {
    match match_type {
        MatchType::Prefix => "PREFIX"@,
        MatchType::Suffix => "SUFFIX"@,
        MatchType::Anywhere => "ANYWHERE"@,
    }
}

/// The line over the figures of a match type; the chosen one is marked.
pub open spec fn match_heading(match_type: MatchType, current: bool) -> Seq<Piece> {
    let name = capitals(match_type) + if current {
        " ▸"@
    } else {
        ""@
    };
    seq![
        (
            "  "@ + text::padded(name, 15),
            if current {
                Color::Accent
            } else {
                Color::Bright
            },
            Weight::Bold,
        ),
        (text::padded("p50"@, 10), Color::Dim, Weight::Plain),
        ("p95"@, Color::Dim, Weight::Plain),
    ]
}

fn build_match_heading(match_type: MatchType, current: bool) -> (line: Vec<Span>)
    ensures
        pieces(line@) == match_heading(match_type, current),
{
    let caps: &str = match match_type {
        MatchType::Prefix => "PREFIX",
        MatchType::Suffix => "SUFFIX",
        MatchType::Anywhere => "ANYWHERE",
    };
    let name: String = if current {
        joined(caps, " ▸")
    } else {
        joined(caps, "")
    };
    let column: String = pad(name.as_str(), 15);
    let color: Color = if current {
        Color::Accent
    } else {
        Color::Bright
    };
    let mut line: Vec<Span> = blank();
    put(&mut line, joined("  ", column.as_str()).as_str(), color, Weight::Bold);
    put_dim(&mut line, pad("p50", 10).as_str());
    put_dim(&mut line, "p95");
    line
}

/// The line of a backend under a match type: its figures once it was measured, else how to
/// measure it, if it can be.
pub open spec fn time_line(
    app: App,
    backend: Backend,
    match_type: MatchType,
    f: TimeFigures,
) -> Seq<Piece> {
    let name = "    "@ + text::padded(backend.spec_label(), 4);
    if app.benchmarks.spec_get(backend, match_type) is Some {
        let color = if match_type == app.match_type && backend == app.backend {
            Color::Good
        } else {
            Color::Dim
        };
        seq![
            (name + text::padded(f.rate@, 9), color, Weight::Plain),
            (text::padded(f.p50@, 10), color, Weight::Plain),
            (f.p95@, color, Weight::Plain),
        ]
    } else {
        seq![
            (
                name + if backend == Backend::Gpu && app.gpu is None {
                    "n/a"@
                } else {
                    "[b]"@
                },
                Color::Dim,
                Weight::Italic,
            ),
        ]
    }
}

fn build_time_line(app: &App, backend: Backend, match_type: MatchType, f: &TimeFigures) -> (line:
    Vec<Span>)
    ensures
        pieces(line@) == time_line(*app, backend, match_type, *f),
{
    let name: String = joined("    ", pad(backend.label(), 4).as_str());
    let mut line: Vec<Span> = blank();
    if app.benchmarks.get(backend, match_type).is_some() {
        let color: Color = if match_type == app.match_type && backend == app.backend {
            Color::Good
        } else {
            Color::Dim
        };
        let first: String = joined(name.as_str(), pad(f.rate.as_str(), 9).as_str());
        put(&mut line, first.as_str(), color, Weight::Plain);
        put(&mut line, pad(f.p50.as_str(), 10).as_str(), color, Weight::Plain);
        put(&mut line, f.p95.as_str(), color, Weight::Plain);
    } else {
        let note: &str = if backend == Backend::Gpu && app.gpu.is_none() {
            "n/a"
        } else {
            "[b]"
        };
        put(&mut line, joined(name.as_str(), note).as_str(), Color::Dim, Weight::Italic);
    }
    line
}

/// The three lines of a match type.
pub open spec fn match_block(app: App, match_type: MatchType, f: Seq<TimeFigures>) -> Seq<
    Seq<Piece>,
> {
    seq![
        match_heading(match_type, match_type == app.match_type),
        time_line(app, Backend::Cpu, match_type, f[app::bench_slot(Backend::Cpu, match_type)]),
        time_line(app, Backend::Gpu, match_type, f[app::bench_slot(Backend::Gpu, match_type)]),
    ]
}

fn add_match_block(
    lines: &mut Vec<Vec<Span>>,
    app: &App,
    match_type: MatchType,
    f: &Vec<TimeFigures>,
)
    requires
        f@.len() == 6,
    ensures
        page(final(lines)@) == page(old(lines)@) + match_block(*app, match_type, f@),
{
    let cpu: usize = slot_of(Backend::Cpu, match_type);
    let gpu: usize = slot_of(Backend::Gpu, match_type);
    add_line(lines, build_match_heading(match_type, match_type == app.match_type));
    add_line(lines, build_time_line(app, Backend::Cpu, match_type, &f[cpu]));
    add_line(lines, build_time_line(app, Backend::Gpu, match_type, &f[gpu]));
    assert(page(lines@) =~= page(old(lines)@) + match_block(*app, match_type, f@));
}

/// The lines of the time panel: the pattern, and a block for each match type.
pub open spec fn time_lines(app: App, f: Seq<TimeFigures>) -> Seq<Seq<Piece>> {
    seq![
        seq![
            (
                "  "@ + app.pattern@ + " · "@ + char_count(app.pattern@.len()),
                Color::Dim,
                Weight::Plain,
            ),
        ],
    ] + match_block(app, MatchType::Prefix, f) + match_block(app, MatchType::Suffix, f)
        + match_block(app, MatchType::Anywhere, f)
}

/// The time panel. The figures stand in the order of the slots.
pub fn time_panel(app: &App, f: &Vec<TimeFigures>) -> (r: Panel)
    requires
        f@.len() == 6,
    ensures
        r.title@ == " TIME ESTIMATES "@,
        r.color == Color::Dim,
        page(r.lines@) == if has_estimate(app.pattern@) {
            time_lines(*app, f@)
        } else {
            no_estimate()
        },
{
    let lines: Vec<Vec<Span>> = if can_estimate(app) {
        let n: usize = app.pattern.as_str().unicode_len();
        let mut first: String = joined3("  ", app.pattern.as_str(), " · ");
        first.append(count_text(n).as_str());
        let mut lines: Vec<Vec<Span>> = no_lines();
        add_line(&mut lines, single(first.as_str(), Color::Dim, Weight::Plain));
        add_match_block(&mut lines, app, MatchType::Prefix, f);
        add_match_block(&mut lines, app, MatchType::Suffix, f);
        add_match_block(&mut lines, app, MatchType::Anywhere, f);
        lines
    } else {
        build_no_estimate()
    };
    Panel { title: String::from_str(" TIME ESTIMATES "), color: Color::Dim, lines }
}

// ---- the status panel ----

/// A line that names a key and what it does.
pub open spec fn key_line(key: Seq<char>, color: Color, name: Seq<char>, what: Seq<char>) -> Seq<
    Piece,
> {
    seq![
        ("  "@, Color::Default, Weight::Plain),
        (key, color, Weight::Bold),
        ("  "@, Color::Default, Weight::Plain),
        (name, Color::Bright, Weight::Plain),
        (what, Color::Dim, Weight::Plain),
    ]
}

fn build_key_line(key: &str, color: Color, name: &str, what: &str) -> (line: Vec<Span>)
    ensures
        pieces(line@) == key_line(key@, color, name@, what@),
{
    let mut line: Vec<Span> = blank();
    put(&mut line, "  ", Color::Default, Weight::Plain);
    put(&mut line, key, color, Weight::Bold);
    put(&mut line, "  ", Color::Default, Weight::Plain);
    put_bright(&mut line, name);
    put_dim(&mut line, what);
    line
}

/// The lines of the actions panel: what can be done, the last message, and how to get the
/// keys here.
pub open spec fn action_lines(app: App, focused: bool) -> Seq<Seq<Piece>> {
    let color = choice_color(focused);
    let top = seq![
        Seq::<Piece>::empty(),
        key_line("[g]"@, color, "generate   "@, "search for a matching .onion keypair"@),
        key_line(
            "[b]"@,
            color,
            "benchmark  "@,
            "measure "@ + app.backend.spec_label() + " throughput"@,
        ),
    ];
    let told = if app.status_msg@.len() > 0 {
        top.push(Seq::<Piece>::empty()).push(
            seq![("  "@ + app.status_msg@, Color::Dim, Weight::Italic)],
        )
    } else {
        top
    };
    if focused {
        told
    } else {
        told.push(seq![("  [Tab] to focus"@, Color::Dim, Weight::Italic)])
    }
}

/// The actions panel.
pub fn idle_status(app: &App) -> (r: Panel)
    ensures
        ({
            let focused = app.focused_panel == FocusedPanel::Actions && editable(app.mode);
            &&& r.title@ == " ACTIONS "@
            &&& r.color == choice_color(focused)
            &&& page(r.lines@) == action_lines(*app, focused)
        }),
{
    let focused: bool = panel_focused(app);
    let color: Color = color_of_choice(focused);
    let measure: String = joined3("measure ", app.backend.label(), " throughput");
    let mut lines: Vec<Vec<Span>> = no_lines();
    add_line(&mut lines, blank());
    add_line(
        &mut lines,
        build_key_line("[g]", color, "generate   ", "search for a matching .onion keypair"),
    );
    add_line(&mut lines, build_key_line("[b]", color, "benchmark  ", measure.as_str()));
    let status: &str = app.status_msg.as_str();
    if status.unicode_len() > 0 {
        add_line(&mut lines, blank());
        add_line(&mut lines, single(joined("  ", status).as_str(), Color::Dim, Weight::Italic));
    }
    if !focused {
        add_line(&mut lines, single("  [Tab] to focus", Color::Dim, Weight::Italic));
    }
    Panel { title: String::from_str(" ACTIONS "), color, lines }
}

/// Whole seconds to the nearest one, ties to the even one.
pub open spec fn nearest_second(nanos: u64) -> nat {
    let q = nanos as int / 1_000_000_000;
    let rest = nanos as int % 1_000_000_000;
    (if rest > 500_000_000 || (rest == 500_000_000 && q % 2 == 1) {
        q + 1
    } else {
        q
    }) as nat
}

/// How long a benchmark takes, in nanoseconds.
pub const BENCH_TIME: u64 = 5_000_000_000;

/// The label of a benchmark's gauge: seconds gone and planned, and the rate.
pub open spec fn gauge_text(elapsed: u64, rate: Seq<char>) -> Seq<char> {
    let gone = nearest_second(
        if elapsed < BENCH_TIME {
            elapsed
        } else {
            BENCH_TIME
        },
    );
    " "@ + text::decimal(gone) + "s / 5s  |  "@ + rate + " keys/s "@
}

/// The label of a benchmark's gauge.
pub fn gauge_label(elapsed: u64, rate: &str) -> (r: String)
    ensures
        r@ == gauge_text(elapsed, rate@),
{
    let gone: u64 = if elapsed < BENCH_TIME {
        elapsed
    } else {
        BENCH_TIME
    };
    let q: u64 = gone / 1_000_000_000;
    let rest: u64 = gone % 1_000_000_000;
    let seconds: u64 = if rest > 500_000_000 || (rest == 500_000_000 && q % 2 == 1) {
        q + 1
    } else {
        q
    };
    let mut r: String = joined3(" ", decimal_string(seconds as u128).as_str(), "s / 5s  |  ");
    r.append(rate);
    r.append(" keys/s ");
    r
}

/// The panel of a running benchmark, but for its gauge.
pub fn benchmark_status(backend: Backend, count: &str) -> (r: Panel)
    ensures
        r.title@ == match backend {
            Backend::Cpu => " BENCHMARKING · CPU "@,
            Backend::Gpu => " BENCHMARKING · GPU "@,
        },
        r.color == Color::Accent,
        page(r.lines@) == seq![
            Seq::<Piece>::empty(),
            Seq::<Piece>::empty(),
            Seq::<Piece>::empty(),
            seq![
                (
                    "  "@ + count@ + match backend {
                        Backend::Cpu => " keypairs generated"@,
                        Backend::Gpu => " keys generated"@,
                    },
                    Color::Dim,
                    Weight::Plain,
                ),
            ],
        ],
{
    let title: &str = match backend {
        Backend::Cpu => " BENCHMARKING · CPU ",
        Backend::Gpu => " BENCHMARKING · GPU ",
    };
    let work: &str = match backend {
        Backend::Cpu => " keypairs generated",
        Backend::Gpu => " keys generated",
    };
    let mut lines: Vec<Vec<Span>> = no_lines();
    add_line(&mut lines, blank());
    add_line(&mut lines, blank());
    add_line(&mut lines, blank());
    let last: Vec<Span> = single(joined3("  ", count, work).as_str(), Color::Dim, Weight::Plain);
    assert(pieces(last@)[0] == ("  "@ + count@ + work@, Color::Dim, Weight::Plain));
    add_line(&mut lines, last);
    Panel { title: String::from_str(title), color: Color::Accent, lines }
}

/// The figures of a running search, as text.
pub struct SearchFigures {
    pub tries: String,
    pub rate: String,
    pub elapsed: String,
    pub eta_p50: String,
    pub eta_p95: String,
}

/// What a search runs on.
pub open spec fn search_detail(app: App, backend: Backend) -> Seq<char> {
    match backend {
        Backend::Cpu => "CPU · "@ + text::decimal(app.threads as nat) + " threads"@,
        Backend::Gpu => match app.gpu {
            Some(info) => "GPU · "@ + info.spec_detail(),
            None => "GPU"@,
        },
    }
}

/// The start of a line of the rail.
pub open spec fn rail_label(name: Seq<char>) -> Piece {
    ("  "@ + text::padded(name, 8), Color::Dim, Weight::Plain)
}

/// A line of the rail: a name and a figure.
pub open spec fn rail_line(name: Seq<char>, figure: Seq<char>, weight: Weight) -> Seq<Piece> {
    seq![rail_label(name), (figure, Color::Bright, weight)]
}

fn build_rail_line(name: &str, figure: &str, weight: Weight) -> (line: Vec<Span>)
    ensures
        pieces(line@) == rail_line(name@, figure@, weight),
{
    let mut line: Vec<Span> = blank();
    put_dim(&mut line, joined("  ", pad(name, 8).as_str()).as_str());
    put(&mut line, figure, Color::Bright, weight);
    line
}

/// The line of the rail with the time to go.
pub open spec fn eta_line(p50: Seq<char>, p95: Seq<char>) -> Seq<Piece> {
    seq![
        rail_label("ETA"@),
        (p50, Color::Good, Weight::Plain),
        (" · "@, Color::Dim, Weight::Plain),
        (p95, Color::Warn, Weight::Plain),
    ]
}

fn build_eta_line(p50: &str, p95: &str) -> (line: Vec<Span>)
    ensures
        pieces(line@) == eta_line(p50@, p95@),
{
    let mut line: Vec<Span> = blank();
    put_dim(&mut line, joined("  ", pad("ETA", 8).as_str()).as_str());
    put(&mut line, p50, Color::Good, Weight::Plain);
    put_dim(&mut line, " · ");
    put(&mut line, p95, Color::Warn, Weight::Plain);
    line
}

/// The lines beside the chart of a running search.
pub open spec fn rail_lines(app: App, backend: Backend, f: SearchFigures) -> Seq<Seq<Piece>> {
    seq![
        seq![(search_detail(app, backend), Color::Accent, Weight::Bold)],
        rail_line("tries"@, f.tries@, Weight::Bold),
        rail_line("rate"@, f.rate@, Weight::Plain),
        rail_line("elapsed"@, f.elapsed@, Weight::Plain),
        eta_line(f.eta_p50@, f.eta_p95@),
    ]
}

/// The panel of a running search: its title, and the lines beside the chart.
pub fn generate_status(app: &App, backend: Backend, f: &SearchFigures) -> (r: Panel)
    ensures
        r.title@ == match backend {
            Backend::Cpu => " GENERATING · CPU "@,
            Backend::Gpu => " GENERATING · GPU "@,
        },
        r.color == Color::Accent,
        page(r.lines@) == rail_lines(*app, backend, *f),
{
    let title: &str = match backend {
        Backend::Cpu => " GENERATING · CPU ",
        Backend::Gpu => " GENERATING · GPU ",
    };
    let detail: String = match backend {
        Backend::Cpu => joined3("CPU · ", decimal_string(app.threads as u128).as_str(), " threads"),
        Backend::Gpu => match &app.gpu {
            Some(info) => joined("GPU · ", info.detail().as_str()),
            None => String::from_str("GPU"),
        },
    };
    let mut lines: Vec<Vec<Span>> = no_lines();
    add_line(&mut lines, single(detail.as_str(), Color::Accent, Weight::Bold));
    add_line(&mut lines, build_rail_line("tries", f.tries.as_str(), Weight::Bold));
    add_line(&mut lines, build_rail_line("rate", f.rate.as_str(), Weight::Plain));
    add_line(&mut lines, build_rail_line("elapsed", f.elapsed.as_str(), Weight::Plain));
    add_line(&mut lines, build_eta_line(f.eta_p50.as_str(), f.eta_p95.as_str()));
    Panel { title: String::from_str(title), color: Color::Accent, lines }
}

/// The least and the greatest value of a history.
pub fn history_range(history: &VecDeque<u64>) -> (r: Option<(u64, u64)>)
    ensures
        r is None <==> history@.len() == 0,
        r matches Some(range) ==> {
            &&& history@.contains(range.0)
            &&& history@.contains(range.1)
            &&& forall|i: int|
                0 <= i < history@.len() ==> range.0 <= #[trigger] history@[i] <= range.1
        },
{
    let n: usize = history.len();
    if n == 0 {
        return None;
    }
    let mut lo: u64 = history[0];
    let mut hi: u64 = history[0];
    assert(history@.contains(history@[0]));
    for i in 1..n
        invariant
            n == history@.len(),
            history@.contains(lo),
            history@.contains(hi),
            forall|k: int| 0 <= k < i ==> lo <= #[trigger] history@[k] <= hi,
    {
        let v: u64 = history[i];
        assert(history@.contains(history@[i as int]));
        if v < lo {
            lo = v;
        }
        if v > hi {
            hi = v;
        }
    }
    Some((lo, hi))
}

/// The label at the left end of the chart: how far back it goes.
pub fn history_label(history: &VecDeque<u64>) -> (r: String)
    ensures
        r@ == "-"@ + text::decimal(history@.len()) + "s"@,
{
    joined3("-", decimal_string(history.len() as u128).as_str(), "s")
}

/// The column of a mark at a share of a bar, in percent, if it is on the bar.
pub fn gauge_mark(x: u16, width: u16, percent: u16) -> (r: Option<u16>)
    requires
        x + width <= u16::MAX,
        percent <= 100,
    ensures
        r == if width * percent / 100 < width {
            Some((x + width * percent / 100) as u16)
        } else {
            None
        },
{
    assert(width as u32 * percent as u32 <= 65535 * 100) by (nonlinear_arith)
        requires
            width <= 65535,
            percent <= 100,
    ;
    let offset: u32 = width as u32 * percent as u32 / 100;
    if offset < width as u32 {
        Some(x + offset as u16)
    } else {
        None
    }
}

/// The line with the address that was found.
pub open spec fn address_line(address: Seq<char>) -> Seq<Piece> {
    seq![
        ("  ✓ "@, Color::Good, Weight::Bold),
        (address + ".onion"@, Color::Bright, Weight::Bold),
    ]
}

fn build_address_line(address: &str) -> (line: Vec<Span>)
    ensures
        pieces(line@) == address_line(address@),
{
    let mut line: Vec<Span> = blank();
    put(&mut line, "  ✓ ", Color::Good, Weight::Bold);
    put(&mut line, joined(address, ".onion").as_str(), Color::Bright, Weight::Bold);
    line
}

/// The line that says what a find took.
pub open spec fn effort_line(tries: Seq<char>, time: Seq<char>) -> Seq<Piece> {
    seq![
        ("  tries  "@, Color::Dim, Weight::Plain),
        (tries, Color::Bright, Weight::Plain),
        ("    time  "@, Color::Dim, Weight::Plain),
        (time, Color::Bright, Weight::Plain),
    ]
}

fn build_effort_line(tries: &str, time: &str) -> (line: Vec<Span>)
    ensures
        pieces(line@) == effort_line(tries@, time@),
{
    let mut line: Vec<Span> = blank();
    put_dim(&mut line, "  tries  ");
    put_bright(&mut line, tries);
    put_dim(&mut line, "    time  ");
    put_bright(&mut line, time);
    line
}

/// The line that says where the keys are.
pub open spec fn saved_line(key_path: Seq<char>) -> Seq<Piece> {
    seq![
        ("  saved  "@, Color::Dim, Weight::Plain),
        ("→  "@, Color::Dim, Weight::Plain),
        ("./"@ + key_path + "/"@, Color::Accent, Weight::Plain),
    ]
}

fn build_saved_line(key_path: &str) -> (line: Vec<Span>)
    ensures
        pieces(line@) == saved_line(key_path@),
{
    let mut line: Vec<Span> = blank();
    put_dim(&mut line, "  saved  ");
    put_dim(&mut line, "→  ");
    put(&mut line, joined3("./", key_path, "/").as_str(), Color::Accent, Weight::Plain);
    line
}

/// The line with the keys that go on from a find.
pub open spec fn onward_line() -> Seq<Piece> {
    seq![
        ("  [n] "@, Color::Accent, Weight::Plain),
        ("new search    "@, Color::Bright, Weight::Plain),
        ("[q] "@, Color::Accent, Weight::Plain),
        ("quit"@, Color::Bright, Weight::Plain),
    ]
}

fn build_onward_line() -> (line: Vec<Span>)
    ensures
        pieces(line@) == onward_line(),
{
    let mut line: Vec<Span> = blank();
    put(&mut line, "  [n] ", Color::Accent, Weight::Plain);
    put_bright(&mut line, "new search    ");
    put(&mut line, "[q] ", Color::Accent, Weight::Plain);
    put_bright(&mut line, "quit");
    line
}

/// The lines after a find: the address, what it took, and where the keys are.
pub open spec fn found_lines(
    address: Seq<char>,
    key_path: Seq<char>,
    tries: Seq<char>,
    time: Seq<char>,
) -> Seq<Seq<Piece>> {
    seq![
        Seq::<Piece>::empty(),
        address_line(address),
        Seq::<Piece>::empty(),
        effort_line(tries, time),
        saved_line(key_path),
        seq![("  ⚠  secret key saved - protect this directory"@, Color::Warn, Weight::Plain)],
        Seq::<Piece>::empty(),
        onward_line(),
    ]
}

/// The panel after a find.
pub fn found_status(result: &FoundResult, tries: &str, time: &str) -> (r: Panel)
    ensures
        r.title@ == " FOUND "@,
        r.color == Color::Good,
        page(r.lines@) == found_lines(result.address@, result.key_path@, tries@, time@),
{
    let mut lines: Vec<Vec<Span>> = no_lines();
    add_line(&mut lines, blank());
    add_line(&mut lines, build_address_line(result.address.as_str()));
    add_line(&mut lines, blank());
    add_line(&mut lines, build_effort_line(tries, time));
    add_line(&mut lines, build_saved_line(result.key_path.as_str()));
    add_line(
        &mut lines,
        single("  ⚠  secret key saved - protect this directory", Color::Warn, Weight::Plain),
    );
    add_line(&mut lines, blank());
    add_line(&mut lines, build_onward_line());
    Panel { title: String::from_str(" FOUND "), color: Color::Good, lines }
}

/// The panel of an error.
pub fn error_status(message: &str) -> (r: Panel)
    ensures
        r.title@ == " ERROR "@,
        r.color == Color::Bad,
        page(r.lines@) == seq![
            Seq::<Piece>::empty(),
            seq![("  "@ + message@, Color::Bad, Weight::Plain)],
        ],
{
    let mut lines: Vec<Vec<Span>> = no_lines();
    add_line(&mut lines, blank());
    let line: Vec<Span> = single(joined("  ", message).as_str(), Color::Bad, Weight::Plain);
    add_line(&mut lines, line);
    Panel { title: String::from_str(" ERROR "), color: Color::Bad, lines }
}

// ---- what the screen says ----

/// Lines that show a page show each of its pieces.
proof fn lemma_page(lines: Seq<Vec<Span>>, rows: Seq<Seq<Piece>>, i: int)
    requires
        page(lines) == rows,
        0 <= i < rows.len(),
    ensures
        lines.len() == rows.len(),
        lines[i]@.len() == rows[i].len(),
        forall|j: int|
            0 <= j < rows[i].len() ==> (#[trigger] lines[i]@[j]).text@ == rows[i][j].0
                && lines[i]@[j].color == rows[i][j].1 && lines[i]@[j].weight == rows[i][j].2,
{
    assert(page(lines)[i] == pieces(lines[i]@));
    assert forall|j: int| 0 <= j < rows[i].len() implies (#[trigger] lines[i]@[j]).text@
        == rows[i][j].0 && lines[i]@[j].color == rows[i][j].1 && lines[i]@[j].weight
        == rows[i][j].2 by {
        assert(pieces(lines[i]@)[j] == lines[i]@[j].piece());
    }
}

/// The panel after a find shows the address with `.onion`, the tries, the time and the
/// directory, each in its place.
pub proof fn law_found_panel(result: FoundResult, tries: &str, time: &str, r: Panel)
    requires
        call_ensures(found_status, (&result, tries, time), r),
    ensures
        r.title@ == " FOUND "@,
        r.lines@.len() == 8,
        r.lines@[1]@[1].text@ == result.address@ + ".onion"@,
        r.lines@[3]@[0].text@ == "  tries  "@,
        r.lines@[3]@[1].text@ == tries@,
        r.lines@[3]@[2].text@ == "    time  "@,
        r.lines@[3]@[3].text@ == time@,
        r.lines@[4]@[2].text@ == "./"@ + result.key_path@ + "/"@,
        r.lines@[5]@[0].text@ == "  ⚠  secret key saved - protect this directory"@,
{
    let rows = found_lines(result.address@, result.key_path@, tries@, time@);
    lemma_page(r.lines@, rows, 1);
    lemma_page(r.lines@, rows, 3);
    lemma_page(r.lines@, rows, 4);
    lemma_page(r.lines@, rows, 5);
}

/// The panel of an error shows its message in the colour of errors.
pub proof fn law_error_panel(message: &str, r: Panel)
    requires
        call_ensures(error_status, (message,), r),
    ensures
        r.title@ == " ERROR "@,
        r.color == Color::Bad,
        r.lines@.len() == 2,
        r.lines@[1]@.len() == 1,
        r.lines@[1]@[0].text@ == "  "@ + message@,
        r.lines@[1]@[0].color == Color::Bad,
{
    lemma_page(
        r.lines@,
        seq![Seq::<Piece>::empty(), seq![("  "@ + message@, Color::Bad, Weight::Plain)]],
        1,
    );
}

/// The pattern as it is typed: every character has a span of its own, in order, and those that
/// no address holds are red and underlined, and no others.
pub proof fn law_pattern_shown(app: App, r: Panel, k: int)
    requires
        app.wf(),
        call_ensures(pattern_panel, (&app,), r),
        0 <= k < app.pattern@.len(),
    ensures
        r.lines@.len() >= 6,
        r.lines@[1]@.len() >= 2 + app.pattern@.len(),
        r.lines@[1]@[2 + k].text@ == seq![app.pattern@[k]],
        r.lines@[1]@[2 + k].color == Color::Bad <==> !"abcdefghijklmnopqrstuvwxyz234567"@.contains(
            app.pattern@[k],
        ),
        r.lines@[1]@[2 + k].weight == Weight::Underlined <==> r.lines@[1]@[2 + k].color
            == Color::Bad,
{
    let rows = search_rows(app);
    lemma_page(r.lines@, rows, 1);
    crypto::law_valid_chars(app.pattern@[k]);
    assert(rows[1] == input_row(app.pattern@, selected(app, SearchField::Pattern)));
    assert(rows[1][2 + k] == char_piece(app.pattern@[k]));
}

/// The row under the pattern: how to type, that all is well with the number of characters, or
/// that something is not.
pub proof fn law_validity_shown(app: App, r: Panel)
    requires
        app.wf(),
        call_ensures(pattern_panel, (&app,), r),
    ensures
        ({
            let row = r.lines@[2]@;
            let valid = forall|i: int|
                0 <= i < app.pattern@.len() ==> "abcdefghijklmnopqrstuvwxyz234567"@.contains(
                    #[trigger] app.pattern@[i],
                );
            &&& app.pattern@.len() == 0 ==> row[2].text@ == "a–z  2–7  (base32)"@
            &&& app.pattern@.len() > 0 && !valid ==> row[2].text@ == "✗ invalid - use a-z 2-7"@
                && row[2].color == Color::Bad
            &&& app.pattern@.len() > 0 && valid ==> row[2].text@ == "✓ "@ && row[2].color
                == Color::Good && row[3].text@ == text::decimal(app.pattern@.len()) + if app.pattern@.len()
                == 1 {
                " char"@
            } else {
                " chars"@
            }
        }),
{
    let rows = search_rows(app);
    lemma_page(r.lines@, rows, 2);
    assert(rows[2] == validity_row(app.pattern@));
    assert forall|i: int| 0 <= i < app.pattern@.len() implies (text::base32_char(
        #[trigger] app.pattern@[i],
    ) <==> "abcdefghijklmnopqrstuvwxyz234567"@.contains(app.pattern@[i])) by {
        crypto::law_valid_chars(app.pattern@[i]);
    }
}

/// The match types and the backends stand in their rows, and exactly the chosen one is in
/// brackets.
pub proof fn law_choices_shown(app: App, r: Panel)
    requires
        app.wf(),
        call_ensures(pattern_panel, (&app,), r),
    ensures
        ({
            let types = r.lines@[3]@;
            &&& types[2].text@ == if app.match_type is Prefix {
                "["@ + "Prefix"@ + "]"@
            } else {
                " "@ + "Prefix"@ + " "@
            }
            &&& types[4].text@ == if app.match_type is Suffix {
                "["@ + "Suffix"@ + "]"@
            } else {
                " "@ + "Suffix"@ + " "@
            }
            &&& types[6].text@ == if app.match_type is Anywhere {
                "["@ + "Anywhere"@ + "]"@
            } else {
                " "@ + "Anywhere"@ + " "@
            }
        }),
        ({
            let backends = r.lines@[4]@;
            &&& backends[2].text@ == if app.backend is Cpu {
                "["@ + "CPU"@ + "]"@
            } else {
                " "@ + "CPU"@ + " "@
            }
            &&& backends[4].text@ == if app.backend is Gpu {
                "["@ + "GPU"@ + "]"@
            } else {
                " "@ + "GPU"@ + " "@
            }
            &&& backends[4].color == Color::Bad <==> app.gpu is None
            &&& app.backend is Cpu ==> backends[6].text@ == text::decimal(app.threads as nat)
                + " threads"@
            &&& app.backend is Gpu && app.gpu is None ==> backends[6].text@ == "unavailable"@
            &&& app.backend is Gpu && app.gpu is Some ==> backends[6].text@
                == app.gpu->0.api.spec_label() + " · "@ + app.gpu->0.adapter_name@
        }),
{
    let rows = search_rows(app);
    lemma_page(r.lines@, rows, 3);
    lemma_page(r.lines@, rows, 4);
    assert(rows[3] == match_row(app.match_type, selected(app, SearchField::Match)));
    assert(rows[4] == backend_row(app, selected(app, SearchField::Backend)));
}

/// The cursor stands on one row: that of the field, and only while the search panel can be
/// edited and has the keys.
pub proof fn law_cursor_shown(app: App, r: Panel, i: int)
    requires
        app.wf(),
        call_ensures(pattern_panel, (&app,), r),
        i == 1 || i == 3 || i == 4 || (i == 5 && app.backend is Gpu && app.gpu is Some),
    ensures
        ({
            let here = (app.mode is Idle || app.mode is Error) && app.focused_panel is Pattern && (
            match app.search_field {
                SearchField::Pattern => i == 1,
                SearchField::Match => i == 3,
                SearchField::Backend => i == 4,
                SearchField::Batch => i == 5,
            });
            &&& r.lines@[i]@[0].text@.len() > 0
            &&& r.lines@[i]@[0].text@[0] == '▸' <==> here
            &&& r.lines@[i]@[0].color == Color::Accent <==> here
        }),
{
    reveal_strlit("▸ ");
    reveal_strlit("  ");
    let rows = search_rows(app);
    lemma_page(r.lines@, rows, i);
    assert(rows[1] == input_row(app.pattern@, selected(app, SearchField::Pattern)));
    assert(rows[3] == match_row(app.match_type, selected(app, SearchField::Match)));
    assert(rows[4] == backend_row(app, selected(app, SearchField::Backend)));
    if i == 5 {
        law_batch_row(app);
    }
}

/// The batch row, which is there exactly if a GPU is chosen and there, shows every size on
/// offer in its order, and exactly the chosen one is in brackets; then what that one takes.
pub proof fn law_batch_shown(app: App, r: Panel, i: int)
    requires
        app.wf(),
        call_ensures(pattern_panel, (&app,), r),
        app.backend is Gpu,
        app.gpu is Some,
        0 <= i < app.batch_k_options@.len(),
    ensures
        r.lines@.len() == 7,
        r.lines@[5]@.len() == 2 * app.batch_k_options@.len() + 4,
        r.lines@[5]@[2 + 2 * i].text@ == if app.batch_k_options@[i] == app.batch_k {
            "["@ + text::decimal(app.batch_k_options@[i] as nat) + "]"@
        } else {
            " "@ + text::decimal(app.batch_k_options@[i] as nat) + " "@
        },
        exists|whole: nat, tenth: nat|
            {
                &&& r.lines@[5]@[2 * app.batch_k_options@.len() as int + 2].text@ == "~"@
                    + #[trigger] text::decimal(whole) + "."@ + #[trigger] text::decimal(tenth)
                    + " GB GPU  "@
                &&& tenth < 10
                &&& 2 * (100_000_000 * (10 * whole + tenth) - 6_291_456 * app.batch_k)
                    <= 100_000_000
                &&& 2 * (6_291_456 * app.batch_k - 100_000_000 * (10 * whole + tenth))
                    <= 100_000_000
            },
{
    let rows = search_rows(app);
    law_batch_row(app);
    lemma_page(r.lines@, rows, 5);
    lemma_batch_pieces(app.batch_k_options@, app.batch_k, i);
    let t = tenths_of_gb(0x60_0000 * app.batch_k as nat);
    let whole = t / 10;
    let tenth = t % 10;
    let n = app.batch_k_options@.len() as int;
    let row = batch_row(app.batch_k_options@, app.batch_k, selected(app, SearchField::Batch));
    assert(rows[5] == row);
    assert(row[2 * n + 2].0 == footprint_text(app.batch_k));
    assert(r.lines@[5]@[2 * n + 2].text@ == "~"@ + text::decimal(whole) + "."@ + text::decimal(
        tenth,
    ) + " GB GPU  "@);
    assert(row[2 + 2 * i] == batch_pieces(app.batch_k_options@, app.batch_k)[2 * i]);
}

proof fn lemma_batch_pieces(options: Seq<u32>, batch_k: u32, i: int)
    requires
        0 <= i < options.len(),
    ensures
        batch_pieces(options, batch_k).len() == 2 * options.len(),
        batch_pieces(options, batch_k)[2 * i].0 == if options[i] == batch_k {
            "["@ + text::decimal(options[i] as nat) + "]"@
        } else {
            " "@ + text::decimal(options[i] as nat) + " "@
        },
    decreases options.len(),
{
    let init = options.drop_last();
    reveal_with_fuel(batch_pieces, 2);
    if init.len() > 0 {
        lemma_batch_pieces(init, batch_k, 0);
    }
    if i < init.len() {
        lemma_batch_pieces(init, batch_k, i);
        assert(init[i] == options[i]);
        assert(batch_pieces(options, batch_k)[2 * i] == batch_pieces(init, batch_k)[2 * i]);
    }
}

/// An example holds the pattern where the match type wants it: at the start, right before
/// `.onion`, or in the middle. What is left of it without the pattern is the start of the
/// filler.
pub proof fn law_example(pattern: &str, match_type: MatchType, r: String)
    requires
        call_ensures(preview_address, (pattern, &match_type), r),
        pattern@.len() <= 56,
    ensures
        ({
            let n = pattern@.len() as int;
            let filler = "abcdefghijklmnop234567abcdefghijklmnop234567"@;
            let rest = if n < 12 {
                44
            } else {
                56 - n
            };
            let at = match match_type {
                MatchType::Prefix => 0,
                MatchType::Suffix => rest,
                MatchType::Anywhere => (56 - n) / 2,
            };
            &&& r@.len() == n + rest + 6
            &&& r@.skip(n + rest) == ".onion"@
            &&& r@.subrange(at, at + n) == pattern@
            &&& r@.take(at) + r@.subrange(at + n, n + rest) == filler.take(rest)
        }),
{
    lemma_filler();
    let n = pattern@.len() as int;
    let rest = if n < 12 {
        44
    } else {
        56 - n
    };
    let at = match match_type {
        MatchType::Prefix => 0,
        MatchType::Suffix => rest,
        MatchType::Anywhere => (56 - n) / 2,
    };
    assert(r@.skip(n + rest) =~= ".onion"@);
    assert(r@.subrange(at, at + n) =~= pattern@);
    assert(r@.take(at) + r@.subrange(at + n, n + rest) =~= FILLER@.take(rest));
}

/// The row with the example: its three parts make up the example, and the marked one is the
/// pattern. Without a pattern that can be searched for, it asks for one.
pub proof fn law_example_shown(app: App, r: Panel, addr: String, pattern: &str)
    requires
        app.wf(),
        call_ensures(pattern_panel, (&app,), r),
        pattern@ == app.pattern@,
        call_ensures(preview_address, (pattern, &app.match_type), addr),
    ensures
        ({
            let row = r.lines@.last()@;
            let valid = app.pattern@.len() > 0 && forall|i: int|
                0 <= i < app.pattern@.len() ==> "abcdefghijklmnopqrstuvwxyz234567"@.contains(
                    #[trigger] app.pattern@[i],
                );
            if valid {
                &&& row.len() == 5
                &&& row[3].text@ == app.pattern@
                &&& row[3].color == Color::Accent
                &&& row[2].text@ + row[3].text@ + row[4].text@ == addr@
            } else {
                row.len() == 1 && row[0].text@ == "  example  ›  enter a pattern above"@
            }
        }),
{
    let rows = search_rows(app);
    lemma_page(r.lines@, rows, rows.len() - 1);
    assert(rows.last() == preview_row(app.pattern@, app.match_type));
    law_preview_marks_pattern(app.pattern@, app.match_type);
    assert forall|i: int| 0 <= i < app.pattern@.len() implies (text::base32_char(
        #[trigger] app.pattern@[i],
    ) <==> "abcdefghijklmnopqrstuvwxyz234567"@.contains(app.pattern@[i])) by {
        crypto::law_valid_chars(app.pattern@[i]);
    }
}

/// The three parts of a text are the text, cut where the pattern stands: for a prefix at its
/// own length, for a suffix so that `.onion` follows it, for anywhere in the middle; all in
/// bytes, and not past the end.
pub proof fn law_split(
    addr: &str,
    pattern: &str,
    match_type: MatchType,
    r: (String, String, String),
    start: int,
    end: int,
)
    requires
        call_requires(split_preview, (addr, pattern, &match_type)),
        call_ensures(split_preview, (addr, pattern, &match_type), r),
        ({
            let total = encode_utf8(addr@).len() as int;
            let n = encode_utf8(pattern@).len() as int;
            &&& start == match match_type {
                MatchType::Prefix => 0,
                MatchType::Suffix => if total >= n + 6 {
                    total - n - 6
                } else {
                    0
                },
                MatchType::Anywhere => (56 - n) / 2,
            }
            &&& end == if start + n <= total {
                start + n
            } else {
                total
            }
            &&& match_type is Anywhere ==> n <= 56 && (56 - n) / 2 <= total
            &&& is_char_boundary(encode_utf8(addr@), start)
            &&& is_char_boundary(encode_utf8(addr@), end)
        }),
    ensures
        r.0@ + r.1@ + r.2@ == addr@,
        encode_utf8(r.0@).len() == start,
        encode_utf8(r.1@).len() == end - start,
{
    let bytes = encode_utf8(addr@);
    let total = bytes.len() as int;
    encode_utf8_valid_utf8(addr@);
    encode_utf8_decode_utf8(addr@);
    assert(marked_bytes(addr@, pattern@, match_type) == (start, end));
    lemma_later_boundary(bytes, start, end);
    valid_utf8_split(bytes, start);
    decode_utf8_split(bytes, start);
    let tail = bytes.subrange(start, total);
    valid_utf8_split(tail, end - start);
    decode_utf8_split(tail, end - start);
    assert(tail.subrange(0, end - start) =~= bytes.subrange(start, end));
    assert(tail.subrange(end - start, tail.len() as int) =~= bytes.subrange(end, total));
    decode_utf8_encode_utf8(bytes.subrange(0, start));
    decode_utf8_encode_utf8(bytes.subrange(start, end));
    assert(r.0@ + r.1@ + r.2@ =~= r.0@ + (r.1@ + r.2@));
}

/// The probability panel puts every figure under its name, and shows none without a pattern
/// that can be searched for.
pub proof fn law_prob_panel(app: App, f: ProbFigures, r: Panel)
    requires
        call_ensures(prob_panel, (&app, &f), r),
    ensures
        r.title@ == " PROBABILITY "@,
        ({
            let valid = app.pattern@.len() > 0 && forall|i: int|
                0 <= i < app.pattern@.len() ==> "abcdefghijklmnopqrstuvwxyz234567"@.contains(
                    #[trigger] app.pattern@[i],
                );
            if valid {
                &&& r.lines@.len() == 7
                &&& r.lines@[1]@[1].text@ == f.mean@
                &&& r.lines@[2]@[0].text@ == "  p1  "@ && r.lines@[2]@[1].text@ == text::padded(
                    f.p1@,
                    8,
                )
                &&& r.lines@[2]@[2].text@ == "p10  "@ && r.lines@[2]@[3].text@ == text::padded(
                    f.p10@,
                    8,
                )
                &&& r.lines@[2]@[4].text@ == "p25  "@ && r.lines@[2]@[5].text@ == f.p25@
                &&& r.lines@[3]@[0].text@ == "  p50 "@ && r.lines@[3]@[1].text@ == text::padded(
                    f.p50@,
                    8,
                )
                &&& r.lines@[3]@[2].text@ == "p75  "@ && r.lines@[3]@[3].text@ == text::padded(
                    f.p75@,
                    8,
                )
                &&& r.lines@[3]@[4].text@ == "p95  "@ && r.lines@[3]@[5].text@ == f.p95@
                &&& r.lines@[4]@[0].text@ == "  p99 "@ && r.lines@[4]@[1].text@ == f.p99@
                &&& r.lines@[6]@[0].text@ == "  bits  "@ && r.lines@[6]@[1].text@ == f.bits@
                &&& r.lines@[6]@[2].text@ == "   p  "@ && r.lines@[6]@[3].text@ == f.p@
            } else {
                r.lines@.len() == 2 && r.lines@[1]@[0].text@ == "  enter a valid pattern"@
            }
        }),
{
    lemma_estimate(app);
    if has_estimate(app.pattern@) {
        let rows = prob_lines(f);
        lemma_page(r.lines@, rows, 1);
        lemma_page(r.lines@, rows, 2);
        lemma_page(r.lines@, rows, 3);
        lemma_page(r.lines@, rows, 4);
        lemma_page(r.lines@, rows, 6);
    } else {
        lemma_page(r.lines@, no_estimate(), 1);
    }
}

proof fn lemma_estimate(app: App)
    ensures
        has_estimate(app.pattern@) <==> app.pattern@.len() > 0 && forall|i: int|
            0 <= i < app.pattern@.len() ==> "abcdefghijklmnopqrstuvwxyz234567"@.contains(
                #[trigger] app.pattern@[i],
            ),
{
    assert forall|i: int| 0 <= i < app.pattern@.len() implies (text::base32_char(
        #[trigger] app.pattern@[i],
    ) <==> "abcdefghijklmnopqrstuvwxyz234567"@.contains(app.pattern@[i])) by {
        crypto::law_valid_chars(app.pattern@[i]);
    }
}

/// The time panel has a block for every match type, and in it a line for every backend: the
/// figures of just that combination once it was measured, else how to measure it, or that it
/// cannot be.
pub proof fn law_time_panel(
    app: App,
    f: Vec<TimeFigures>,
    r: Panel,
    backend: Backend,
    match_type: MatchType,
    slot: usize,
    rate: Option<Rate>,
)
    requires
        f@.len() == 6,
        call_ensures(time_panel, (&app, &f), r),
        call_ensures(slot_of, (backend, match_type), slot),
        call_ensures(Benchmarks::get, (&app.benchmarks, backend, match_type), rate),
        app.pattern@.len() > 0,
        forall|i: int|
            0 <= i < app.pattern@.len() ==> "abcdefghijklmnopqrstuvwxyz234567"@.contains(
                #[trigger] app.pattern@[i],
            ),
    ensures
        r.title@ == " TIME ESTIMATES "@,
        r.lines@.len() == 10,
        r.lines@[0]@[0].text@ == "  "@ + app.pattern@ + " · "@ + char_count(app.pattern@.len()),
        ({
            let block = match match_type {
                MatchType::Prefix => 1int,
                MatchType::Suffix => 4,
                MatchType::Anywhere => 7,
            };
            let row = r.lines@[block + if backend is Cpu {
                1int
            } else {
                2
            }]@;
            let name = "    "@ + text::padded(
                if backend is Cpu {
                    "CPU"@
                } else {
                    "GPU"@
                },
                4,
            );
            &&& rate is Some ==> row.len() == 3 && row[0].text@ == name + text::padded(
                f@[slot as int].rate@,
                9,
            ) && row[1].text@ == text::padded(f@[slot as int].p50@, 10) && row[2].text@
                == f@[slot as int].p95@
            &&& rate is None ==> row.len() == 1 && row[0].text@ == name + if backend is Gpu
                && app.gpu is None {
                "n/a"@
            } else {
                "[b]"@
            }
            &&& r.lines@[block]@[0].color == Color::Accent <==> app.match_type == match_type
        }),
{
    lemma_estimate(app);
    let rows = time_lines(app, f@);
    let block = match match_type {
        MatchType::Prefix => 1int,
        MatchType::Suffix => 4,
        MatchType::Anywhere => 7,
    };
    let off = if backend is Cpu {
        1int
    } else {
        2
    };
    let b = match_block(app, match_type, f@);
    assert(rows.len() == 10);
    assert(rows[block] == b[0] && rows[block + off] == b[off]);
    assert(rows[0][0].0 == "  "@ + app.pattern@ + " · "@ + char_count(app.pattern@.len()));
    lemma_page(r.lines@, rows, 0);
    lemma_page(r.lines@, rows, block);
    lemma_page(r.lines@, rows, block + off);
}

/// The panel of a running search puts every figure beside its name, under what it runs on.
pub proof fn law_search_rail(app: App, backend: Backend, f: SearchFigures, r: Panel)
    requires
        call_ensures(generate_status, (&app, backend, &f), r),
    ensures
        r.title@ == if backend is Cpu {
            " GENERATING · CPU "@
        } else {
            " GENERATING · GPU "@
        },
        r.lines@.len() == 5,
        backend is Cpu ==> r.lines@[0]@[0].text@ == "CPU · "@ + text::decimal(app.threads as nat)
            + " threads"@,
        backend is Gpu && app.gpu is None ==> r.lines@[0]@[0].text@ == "GPU"@,
        backend is Gpu && app.gpu is Some ==> r.lines@[0]@[0].text@ == "GPU · "@ + (
        app.gpu->0.api.spec_label() + " · "@ + app.gpu->0.adapter_name@),
        r.lines@[1]@[0].text@ == "  "@ + text::padded("tries"@, 8),
        r.lines@[1]@[1].text@ == f.tries@,
        r.lines@[2]@[0].text@ == "  "@ + text::padded("rate"@, 8),
        r.lines@[2]@[1].text@ == f.rate@,
        r.lines@[3]@[0].text@ == "  "@ + text::padded("elapsed"@, 8),
        r.lines@[3]@[1].text@ == f.elapsed@,
        r.lines@[4]@[0].text@ == "  "@ + text::padded("ETA"@, 8),
        r.lines@[4]@[1].text@ == f.eta_p50@,
        r.lines@[4]@[3].text@ == f.eta_p95@,
{
    let rows = rail_lines(app, backend, f);
    lemma_page(r.lines@, rows, 0);
    lemma_page(r.lines@, rows, 1);
    lemma_page(r.lines@, rows, 2);
    lemma_page(r.lines@, rows, 3);
    lemma_page(r.lines@, rows, 4);
}

/// The panel of a running benchmark names the backend and shows the count.
pub proof fn law_benchmark_panel(backend: Backend, count: &str, r: Panel)
    requires
        call_ensures(benchmark_status, (backend, count), r),
    ensures
        r.lines@.len() == 4,
        backend is Cpu ==> r.title@ == " BENCHMARKING · CPU "@ && r.lines@[3]@[0].text@ == "  "@
            + count@ + " keypairs generated"@,
        backend is Gpu ==> r.title@ == " BENCHMARKING · GPU "@ && r.lines@[3]@[0].text@ == "  "@
            + count@ + " keys generated"@,
{
    let rows = page(r.lines@);
    assert(rows.len() == 4);
    assert(rows[3][0].0 == "  "@ + count@ + match backend {
        Backend::Cpu => " keypairs generated"@,
        Backend::Gpu => " keys generated"@,
    });
    lemma_page(r.lines@, rows, 3);
}

/// The label of a benchmark's gauge gives the seconds gone to the nearest one, never more than
/// the five that are planned, and the rate.
pub proof fn law_gauge_label(elapsed: u64, rate: &str, r: String)
    requires
        call_ensures(gauge_label, (elapsed, rate), r),
    ensures
        exists|n: nat|
            {
                &&& r@ == " "@ + #[trigger] text::decimal(n) + "s / 5s  |  "@ + rate@ + " keys/s "@
                &&& n <= 5
                &&& elapsed >= 5_000_000_000 ==> n == 5
                &&& elapsed < 5_000_000_000 ==> 2 * (n * 1_000_000_000 - elapsed) <= 1_000_000_000
                    && 2 * (elapsed - n * 1_000_000_000) <= 1_000_000_000
            },
{
    let gone = if elapsed < BENCH_TIME {
        elapsed
    } else {
        BENCH_TIME
    };
    let n = nearest_second(gone);
    assert(r@ == " "@ + text::decimal(n) + "s / 5s  |  "@ + rate@ + " keys/s "@);
}

/// The mark of a bar stands at its share of the bar, rounded down to a column, and there is
/// none at the full length.
pub proof fn law_gauge_mark(x: u16, width: u16, percent: u16, r: Option<u16>)
    requires
        x + width <= u16::MAX,
        percent <= 100,
        call_ensures(gauge_mark, (x, width, percent), r),
    ensures
        r is Some <==> width > 0 && percent < 100,
        r matches Some(c) ==> x <= c < x + width && 100 * (c - x) <= width * percent < 100 * (c - x
            + 1),
{
    let w = width as int;
    let p = percent as int;
    assert(w * p / 100 < w <==> w > 0 && p < 100) by (nonlinear_arith)
        requires
            0 <= w,
            0 <= p <= 100,
    ;
    assert(0 <= w * p) by (nonlinear_arith)
        requires
            0 <= w,
            0 <= p,
    ;
}

/// The range of a history are its least and its greatest value.
pub proof fn law_history_range(history: VecDeque<u64>, r: Option<(u64, u64)>, i: int)
    requires
        call_ensures(history_range, (&history,), r),
        0 <= i < history@.len(),
    ensures
        r matches Some(range) && {
            &&& range.0 <= history@[i] <= range.1
            &&& history@.contains(range.0)
            &&& history@.contains(range.1)
        },
{
}

/// The actions panel offers a search and a benchmark of the chosen backend, and shows the last
/// message if there is one; without the keys it says how to get them.
pub proof fn law_actions_panel(app: App, r: Panel)
    requires
        call_ensures(idle_status, (&app,), r),
    ensures
        ({
            let focused = app.focused_panel is Actions && (app.mode is Idle || app.mode is Error);
            let told = app.status_msg@.len() > 0;
            &&& r.title@ == " ACTIONS "@
            &&& r.color == Color::Accent <==> focused
            &&& r.lines@.len() == 3 + (if told {
                2int
            } else {
                0
            }) + (if focused {
                0int
            } else {
                1
            })
            &&& r.lines@[1]@[1].text@ == "[g]"@
            &&& r.lines@[1]@[3].text@ == "generate   "@
            &&& r.lines@[2]@[1].text@ == "[b]"@
            &&& r.lines@[2]@[4].text@ == "measure "@ + (if app.backend is Cpu {
                "CPU"@
            } else {
                "GPU"@
            }) + " throughput"@
            &&& told ==> r.lines@[4]@[0].text@ == "  "@ + app.status_msg@
            &&& !focused ==> r.lines@.last()@[0].text@ == "  [Tab] to focus"@
        }),
{
    let focused = app.focused_panel == FocusedPanel::Actions && editable(app.mode);
    let rows = action_lines(app, focused);
    lemma_page(r.lines@, rows, 1);
    lemma_page(r.lines@, rows, 2);
    if app.status_msg@.len() > 0 {
        lemma_page(r.lines@, rows, 4);
    }
    if !focused {
        lemma_page(r.lines@, rows, rows.len() - 1);
    }
}

/// The header names the program, its version at the right edge, and what is going on; the
/// footer names the keys for it.
pub proof fn law_header_and_footer(app: App, width: usize, r: Vec<Vec<Span>>, foot: &'static str)
    requires
        width >= 32,
        call_ensures(header, (&app, width), r),
        call_ensures(footer, (&app,), foot),
    ensures
        r@.len() == 2,
        r@[0]@[0].text@ == " OVDS"@,
        width >= 39 ==> r@[0]@[2].text@.len() == width - 32,
        r@[0]@[2].text@.len() >= 7 && r@[0]@[2].text@.skip(r@[0]@[2].text@.len() - 7) == "v0.6.0 "@,
        ({
            let label = r@[1]@[2].text@;
            match app.mode {
                Mode::Idle => label == "estimate"@ && foot@ == if app.focused_panel is Pattern {
                    "  [↑ ↓] select field  │  [← →] change  │  type a–z 2–7  │  [Tab] → actions  │  [q] quit"@
                } else {
                    "  [g] generate  │  [b] benchmark  │  [Tab] → search  │  [q] quit"@
                },
                Mode::Benchmarking { .. } => label == "benchmark"@ && foot@
                    == "  benchmarking… please wait  │  [q] quit"@,
                Mode::Generating { .. } => label == "search & save keypair"@ && foot@
                    == "  [s] stop search  │  [q] quit"@,
                Mode::Found { .. } => label == "keypair saved"@ && foot@
                    == "  [n] new search  │  [q] quit"@,
                Mode::Error(_) => label == "error"@ && foot@ == "  [Esc] dismiss  │  [q] quit"@,
            }
        }),
{
    let rows = seq![title_line(width as nat), mode_line(app.mode)];
    lemma_page(r@, rows, 0);
    lemma_page(r@, rows, 1);
    reveal_strlit("v");
    reveal_strlit("0.6.0");
    reveal_strlit(" ");
    reveal_strlit("v0.6.0 ");
    let v = "v"@ + VERSION@ + " "@;
    assert(v =~= "v0.6.0 "@);
    text::law_padding(v, (width - 32) as nat);
}

/// The end of the row with the pattern: the cursor if it is here, else an invitation while
/// nothing is typed, else nothing more.
pub proof fn law_input_end(app: App, r: Panel)
    requires
        app.wf(),
        call_ensures(pattern_panel, (&app,), r),
    ensures
        ({
            let row = r.lines@[1]@;
            let n = app.pattern@.len() as int;
            let here = (app.mode is Idle || app.mode is Error) && app.focused_panel is Pattern
                && app.search_field is Pattern;
            &&& row[0].text@.skip(2) == text::padded("string"@, 8)
            &&& here ==> row.len() == n + 3 && row[n + 2].text@ == "█"@
            &&& !here && n == 0 ==> row.len() == 3 && row[2].text@ == "type here…"@
            &&& !here && n > 0 ==> row.len() == n + 2
        }),
{
    reveal_strlit("▸ ");
    reveal_strlit("  ");
    let rows = search_rows(app);
    lemma_page(r.lines@, rows, 1);
    assert(rows[1] == input_row(app.pattern@, selected(app, SearchField::Pattern)));
    assert(r.lines@[1]@[0].text@.skip(2) =~= text::padded("string"@, 8));
}

/// The names of the rows, and the arrows at the end of the one that the cursor is on.
pub proof fn law_row_names(app: App, r: Panel, i: int)
    requires
        app.wf(),
        call_ensures(pattern_panel, (&app,), r),
        i == 3 || i == 4 || (i == 5 && app.backend is Gpu && app.gpu is Some),
    ensures
        r.lines@[i]@[0].text@.skip(2) == text::padded(
            if i == 3 {
                "match"@
            } else if i == 4 {
                "backend"@
            } else {
                "batch"@
            },
            8,
        ),
        r.lines@[i]@.last().text@ == if r.lines@[i]@[0].color == Color::Accent {
            "← →"@
        } else {
            ""@
        },
{
    reveal_strlit("▸ ");
    reveal_strlit("  ");
    let rows = search_rows(app);
    lemma_page(r.lines@, rows, i);
    let name = if i == 3 {
        "match"@
    } else if i == 4 {
        "backend"@
    } else {
        "batch"@
    };
    assert(rows[3] == match_row(app.match_type, selected(app, SearchField::Match)));
    assert(rows[4] == backend_row(app, selected(app, SearchField::Backend)));
    if i == 5 {
        law_batch_row(app);
    }
    assert(r.lines@[i]@[0].text@.skip(2) =~= text::padded(name, 8));
}

/// The panel has a row for the batch sizes exactly if a GPU is chosen and there, and its border
/// shows whether it has the keys.
pub proof fn law_search_panel(app: App, r: Panel)
    requires
        app.wf(),
        call_ensures(pattern_panel, (&app,), r),
    ensures
        r.title@ == " SEARCH "@,
        r.lines@.len() == if app.backend is Gpu && app.gpu is Some {
            7int
        } else {
            6
        },
        r.color == Color::Accent <==> (app.mode is Idle || app.mode is Error)
            && app.focused_panel is Pattern,
{
    law_batch_row(app);
    lemma_page(r.lines@, search_rows(app), 0);
}

/// Which panel has the keys.
pub proof fn law_panel_focused(app: App, r: bool)
    requires
        call_ensures(panel_focused, (&app,), r),
    ensures
        r <==> app.focused_panel is Actions && (app.mode is Idle || app.mode is Error),
{
}

/// The chart's label gives the number of samples, one for each second.
pub proof fn law_history_label(history: VecDeque<u64>, r: String)
    requires
        call_ensures(history_label, (&history,), r),
    ensures
        r@.len() >= 3,
        r@[0] == '-',
        r@.last() == 's',
        text::numeral(r@.subrange(1, r@.len() - 1)) == history@.len(),
{
    reveal_strlit("-");
    reveal_strlit("s");
    text::law_decimal(history@.len());
    assert(r@.subrange(1, r@.len() - 1) =~= text::decimal(history@.len()));
}

/// Without a pattern that can be searched for, the time panel asks for one.
pub proof fn law_no_times(app: App, f: Vec<TimeFigures>, r: Panel)
    requires
        call_ensures(time_panel, (&app, &f), r),
        app.pattern@.len() == 0 || exists|i: int|
            0 <= i < app.pattern@.len() && !"abcdefghijklmnopqrstuvwxyz234567"@.contains(
                #[trigger] app.pattern@[i],
            ),
    ensures
        r.lines@.len() == 2,
        r.lines@[1]@.len() == 1,
        r.lines@[1]@[0].text@ == "  enter a valid pattern"@,
{
    lemma_estimate(app);
    lemma_page(r.lines@, no_estimate(), 1);
}

/// In the time panel the figures of what is chosen, match type and backend, stand out.
pub proof fn law_times_of_choice(
    app: App,
    f: Vec<TimeFigures>,
    r: Panel,
    backend: Backend,
    match_type: MatchType,
    rate: Rate,
)
    requires
        f@.len() == 6,
        call_ensures(time_panel, (&app, &f), r),
        call_ensures(Benchmarks::get, (&app.benchmarks, backend, match_type), Some(rate)),
        app.pattern@.len() > 0,
        forall|i: int|
            0 <= i < app.pattern@.len() ==> "abcdefghijklmnopqrstuvwxyz234567"@.contains(
                #[trigger] app.pattern@[i],
            ),
    ensures
        ({
            let block = match match_type {
                MatchType::Prefix => 1int,
                MatchType::Suffix => 4,
                MatchType::Anywhere => 7,
            };
            let row = r.lines@[block + if backend is Cpu {
                1int
            } else {
                2
            }]@;
            row[0].color == Color::Good <==> match_type == app.match_type && backend == app.backend
        }),
{
    lemma_estimate(app);
    let rows = time_lines(app, f@);
    let block = match match_type {
        MatchType::Prefix => 1int,
        MatchType::Suffix => 4,
        MatchType::Anywhere => 7,
    };
    let off = if backend is Cpu {
        1int
    } else {
        2
    };
    let b = match_block(app, match_type, f@);
    assert(rows.len() == 10);
    assert(rows[block + off] == b[off]);
    lemma_page(r.lines@, rows, block + off);
}

} // verus!
