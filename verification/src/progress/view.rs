//! Drawing the live region.
//!
//! What is drawn is a pure function of a [`RunState`]: one snapshot in, one frame out. The
//! region's height is fixed for the whole run by [`height`], and every line is built to the width
//! it was given, so nothing here can push the frame out of shape.

use vstd::prelude::*;
use crate::text;
use super::ansi::{plain_style, span_view, span_views, Color, Span, Style};
use super::state::{DepId, DepState, Outcome, RunState, Stage, MARK_WIDTH};

verus! {

/// Column the status text starts at, so names do not shuffle between rows.
pub const NAME_WIDTH: usize = 20;

/// Rows of chrome around the worker rows: two borders, the summary, the rule and the footer.
pub const CHROME: u16 = 5;

/// Width below which the byte counts are dropped.
pub const NARROW: usize = 52;

/// Width below which the percentage is dropped too.
pub const CRAMPED: usize = 38;

/// The narrowest bar worth drawing.
pub const MIN_BAR: usize = 4;

/// The widest a worker row's bar grows.
///
/// Capped, not stretched: across a wide terminal a full-width bar leaves the percentage and the
/// byte counts a screen away from the name they belong to.
pub const BAR_MAX: usize = 28;

/// The widest the summary bar grows, for the same reason.
pub const SUMMARY_BAR: usize = 24;

/// The widest the region grows, however wide the terminal is.
pub const REGION_WIDTH: u16 = 84;

/// How tall the region is for a given number of worker rows.
pub open spec fn height_spec(rows: int) -> int {
    if rows == 0 {
        3
    } else if CHROME + rows % 65536 > u16::MAX {
        u16::MAX as int
    } else {
        CHROME + rows % 65536
    }
}

/// How tall the region is for a given number of worker rows.
///
/// A run with no rows to show has no bytes to report either, so it loses the rule and the footer
/// and sits in three lines.
pub fn height(rows: usize) -> (r: u16)
    ensures
        r == height_spec(rows as int),
{
    if rows == 0 {
        3
    } else {
        let rows: u16 = (rows % 65536) as u16;
        if rows > u16::MAX - CHROME {
            u16::MAX
        } else {
            CHROME + rows
        }
    }
}

/// The most worker rows whose region still fits a terminal so many lines tall.
pub open spec fn rows_that_fit_spec(lines: int) -> int {
    if lines >= CHROME + 2 {
        lines - (CHROME + 2)
    } else {
        0
    }
}

/// The most worker rows whose region still fits a terminal `lines` tall.
///
/// Two lines are left spare: one for the line the region sits under, one to scroll into. A region
/// taller than the screen cannot be repainted in place, so fewer rows is always the better trade.
pub fn rows_that_fit(lines: u16) -> (r: usize)
    ensures
        r == rows_that_fit_spec(lines as int),
{
    if lines >= CHROME + 2 {
        (lines - (CHROME + 2)) as usize
    } else {
        0
    }
}

/// How many of the rows asked for are reserved: as many as fit, but one where any are wanted at
/// all; all of them where nothing is known of the terminal.
pub open spec fn fit_spec(rows: int, lines: Option<int>) -> int {
    if rows == 0 {
        0
    } else {
        match lines {
            None => rows,
            Some(lines) => least(rows, most(rows_that_fit_spec(lines), 1)),
        }
    }
}

/// How many of the rows asked for are reserved, given the lines of the terminal if they are known.
pub fn fit(rows: usize, lines: Option<u16>) -> (r: usize)
    ensures
        r == fit_spec(
            rows as int,
            match lines {
                Some(lines) => Some(lines as int),
                None => None,
            },
        ),
{
    if rows == 0 {
        return 0;
    }
    match lines {
        None => rows,
        Some(lines) => {
            let fitting: usize = rows_that_fit(lines);
            let room: usize = if fitting < 1 {
                1
            } else {
                fitting
            };
            if rows < room {
                rows
            } else {
                room
            }
        },
    }
}

/// The region fits a terminal with two lines to spare exactly where it has no more rows than fit:
/// it never asks for more lines than there are, and no row that there is room for is left out.
pub proof fn the_region_fits_the_terminal(rows: u16, lines: u16)
    requires
        rows > 0,
    ensures
        height_spec(rows as int) + 2 <= lines <==> rows <= rows_that_fit_spec(lines as int),
{
}

/// `a` less `b`, or nothing.
pub open spec fn less(a: int, b: int) -> int {
    if a >= b {
        a - b
    } else {
        0
    }
}

/// The smaller of two numbers.
pub open spec fn least(a: int, b: int) -> int {
    if a <= b {
        a
    } else {
        b
    }
}

/// The larger of two numbers.
pub open spec fn most(a: int, b: int) -> int {
    if a >= b {
        a
    } else {
        b
    }
}

/// `a` less `b`, or nothing.
fn without(a: usize, b: usize) -> (r: usize)
    ensures
        r == less(a as int, b as int),
{
    if a >= b {
        a - b
    } else {
        0
    }
}

/// Text cut to fit, with an ellipsis in the last place where something is missing.
pub open spec fn clip_spec(s: Seq<char>, width: int) -> Seq<char> {
    if s.len() <= width {
        s
    } else if width <= 0 {
        Seq::empty()
    } else {
        s.take(width - 1).push('\u{2026}')
    }
}

/// Cuts text to fit, since a line that overflows would break the frame.
pub fn clip(s: &str, width: usize) -> (r: String)
    ensures
        r@ == clip_spec(s@, width as int),
{
    let cs = text::chars_of(s);
    if cs.len() <= width {
        return s.to_owned();
    }
    if width == 0 {
        let r = String::new();
        assert(r@ =~= Seq::empty());
        return r;
    }
    assert(s@.subrange(0, width - 1) == s@.take(width - 1));
    let mut r = text::string_of(&cs, 0, width - 1);
    r.push('\u{2026}');
    r
}

/// A name padded to the column, or cut to it.
pub open spec fn column_spec(name: Seq<char>) -> Seq<char> {
    if name.len() > NAME_WIDTH {
        name.take(NAME_WIDTH - 1).push('\u{2026}')
    } else {
        name + text::repeated(' ', (NAME_WIDTH - name.len()) as nat)
    }
}

/// Pads a name so statuses line up, and cuts one long enough to threaten the width.
pub fn column(name: &str) -> (r: String)
    ensures
        r@ == column_spec(name@),
{
    let cs = text::chars_of(name);
    let n: usize = cs.len();
    if n > NAME_WIDTH {
        assert(name@.subrange(0, NAME_WIDTH - 1) == name@.take(NAME_WIDTH - 1));
        let mut r = text::string_of(&cs, 0, NAME_WIDTH - 1);
        r.push('\u{2026}');
        r
    } else {
        let mut r = name.to_owned();
        r.append(text::repeat(' ', NAME_WIDTH - n).as_str());
        r
    }
}

/// Clipped text never exceeds the room it was given, and text that fits is left alone.
pub proof fn clipping_fits(s: Seq<char>, width: int)
    requires
        0 <= width,
    ensures
        clip_spec(s, width).len() <= width,
        s.len() <= width ==> clip_spec(s, width) == s,
{
}

/// The name column is of one width, whatever the name.
pub proof fn the_name_column_is_a_fixed_width(name: Seq<char>)
    ensures
        column_spec(name).len() == NAME_WIDTH,
{
}

/// `p` divided by `d` to the nearest whole number, halves upwards.
pub open spec fn rounded(p: int, d: int) -> int {
    p / d + if 2 * (p % d) >= d {
        1int
    } else {
        0int
    }
}

/// How many cells of a bar are filled at `n` out of `d`.
pub open spec fn filled_spec(width: int, n: int, d: int) -> int {
    least(rounded(n * width, d), width)
}

/// The unfilled half of a bar: a head where something is filled, and a line behind it.
pub open spec fn unfilled_spec(width: int, filled: int) -> Seq<char> {
    if filled < width && filled > 0 {
        seq!['\u{2574}'] + text::repeated('\u{2500}', (width - filled - 1) as nat)
    } else {
        text::repeated('\u{2500}', (width - filled) as nat)
    }
}

/// The filled and unfilled halves of a bar at `n` out of `d`, so each can be styled on its own.
pub fn bar(width: usize, n: u64, d: u64) -> (r: (String, String))
    requires
        d > 0,
    ensures
        r.0@ == text::repeated(
            '\u{2501}',
            filled_spec(width as int, n as int, d as int) as nat,
        ),
        r.1@ == unfilled_spec(width as int, filled_spec(width as int, n as int, d as int)),
{
    proof {
        assert(n * width <= 0xffff_ffff_ffff_ffff * 0xffff_ffff_ffff_ffff) by (nonlinear_arith)
            requires
                0 <= n <= 0xffff_ffff_ffff_ffff,
                0 <= width <= 0xffff_ffff_ffff_ffff,
        ;
        assert(0 <= n * width) by (nonlinear_arith)
            requires
                0 <= n,
                0 <= width,
        ;
    }
    let p: u128 = n as u128 * width as u128;
    let whole: u128 = p / d as u128;
    let rest: u128 = p % d as u128;
    let cells: u128 = if 2 * rest >= d as u128 {
        1
    } else {
        0
    };
    proof {
        assert(p / (d as u128) <= p) by (nonlinear_arith)
            requires
                d > 0,
                p >= 0,
        ;
    }
    let exact: u128 = whole + cells;
    let filled: usize = if exact >= width as u128 {
        width
    } else {
        exact as usize
    };
    let mut remaining: usize = width - filled;
    let mut unfilled = String::new();
    if remaining > 0 && filled > 0 {
        unfilled.push('\u{2574}');
        remaining -= 1;
    }
    unfilled.append(text::repeat('\u{2500}', remaining).as_str());
    assert(unfilled@ =~= unfilled_spec(width as int, filled as int));
    (text::repeat('\u{2501}', filled), unfilled)
}

/// A bar is exactly the width it was given.
pub proof fn a_bar_is_as_wide_as_asked(width: int, n: int, d: int)
    requires
        0 <= width,
        0 <= n,
        d > 0,
    ensures
        text::repeated('\u{2501}', filled_spec(width, n, d) as nat).len() + unfilled_spec(
            width,
            filled_spec(width, n, d),
        ).len() == width,
{
    assert(0 <= n * width) by (nonlinear_arith)
        requires
            0 <= n,
            0 <= width,
    ;
    assert(0 <= (n * width) / d) by (nonlinear_arith)
        requires
            0 <= n * width,
            d > 0,
    ;
}

/// `p` divided by `d` to the nearest whole number, halves to the even one.
pub open spec fn rounded_even(p: int, d: int) -> int {
    let q = p / d;
    let rest = 2 * (p % d);
    if rest > d || (rest == d && q % 2 == 1) {
        q + 1
    } else {
        q
    }
}

/// `n` divided by `d`, to one decimal place.
pub open spec fn tenths_spec(n: int, d: int) -> Seq<char> {
    let q = rounded_even(n * 10, d);
    text::decimal_spec(q / 10) + "."@ + text::decimal_spec(q % 10)
}

/// `n` divided by `d`, to one decimal place.
pub fn tenths(n: u64, d: u64) -> (r: String)
    requires
        d > 0,
    ensures
        r@ == tenths_spec(n as int, d as int),
{
    let p: u128 = n as u128 * 10;
    let q: u128 = p / d as u128;
    let rest: u128 = 2 * (p % d as u128);
    proof {
        assert(p / (d as u128) <= p) by (nonlinear_arith)
            requires
                d > 0,
                p >= 0,
        ;
    }
    let exact: u128 = if rest > d as u128 || (rest == d as u128 && q % 2 == 1) {
        q + 1
    } else {
        q
    };
    assert(exact / 10 <= n) by {
        assert(exact <= n * 10 + 1);
    }
    let mut r = text::decimal((exact / 10) as u64);
    r.append(".");
    r.append(text::decimal((exact % 10) as u64).as_str());
    r
}

/// The divisor and unit that keep a byte count under four digits.
pub open spec fn unit_spec(bytes: int) -> (int, Seq<char>) {
    if bytes < 1024 {
        (1, "B"@)
    } else if bytes < 1_048_576 {
        (1024, "KiB"@)
    } else if bytes < 1_073_741_824 {
        (1_048_576, "MiB"@)
    } else if bytes < 1_099_511_627_776 {
        (1_073_741_824, "GiB"@)
    } else {
        (1_099_511_627_776, "TiB"@)
    }
}

/// The divisor and unit that keep a byte count under four digits.
pub fn unit_for(bytes: u64) -> (r: (u64, &'static str))
    ensures
        (r.0 as int, r.1@) == unit_spec(bytes as int),
        r.0 > 0,
{
    if bytes < 1024 {
        (1, "B")
    } else if bytes < 1_048_576 {
        (1024, "KiB")
    } else if bytes < 1_073_741_824 {
        (1_048_576, "MiB")
    } else if bytes < 1_099_511_627_776 {
        (1_073_741_824, "GiB")
    } else {
        (1_099_511_627_776, "TiB")
    }
}

/// A byte count the way a person would write it.
pub open spec fn human_spec(bytes: int) -> Seq<char> {
    if bytes < 1024 {
        text::decimal_spec(bytes) + " B"@
    } else {
        tenths_spec(bytes, unit_spec(bytes).0) + " "@ + unit_spec(bytes).1
    }
}

/// `4.2 MiB`, or `512 B` where a decimal would be noise.
pub fn human(bytes: u64) -> (r: String)
    ensures
        r@ == human_spec(bytes as int),
{
    if bytes < 1024 {
        let mut r = text::decimal(bytes);
        r.append(" B");
        return r;
    }
    let (divisor, unit) = unit_for(bytes);
    let mut r = tenths(bytes, divisor);
    r.append(" ");
    r.append(unit);
    r
}

/// Two byte counts, both in the larger one's unit.
pub open spec fn transferred_spec(done: int, expected: int) -> Seq<char> {
    let larger = most(expected, done);
    if larger < 1024 {
        text::decimal_spec(done) + "/"@ + text::decimal_spec(expected) + " B"@
    } else {
        let (divisor, unit) = unit_spec(larger);
        tenths_spec(done, divisor) + "/"@ + tenths_spec(expected, divisor) + " "@ + unit
    }
}

/// `1.2/2.0 MiB`: both figures in the larger one's unit, so they can be compared at a glance.
pub fn transferred(done: u64, expected: u64) -> (r: String)
    ensures
        r@ == transferred_spec(done as int, expected as int),
{
    let larger: u64 = if expected >= done {
        expected
    } else {
        done
    };
    if larger < 1024 {
        let mut r = text::decimal(done);
        r.append("/");
        r.append(text::decimal(expected).as_str());
        r.append(" B");
        return r;
    }
    let (divisor, unit) = unit_for(larger);
    let mut r = tenths(done, divisor);
    r.append("/");
    r.append(tenths(expected, divisor).as_str());
    r.append(" ");
    r.append(unit);
    r
}

/// A number with spaces in front, at least three characters wide.
pub open spec fn right_of_three(n: int) -> Seq<char> {
    text::repeated(' ', less(3, text::decimal_spec(n).len() as int) as nat) + text::decimal_spec(n)
}

/// A number with spaces behind, at least three characters wide.
pub open spec fn left_of_three(n: int) -> Seq<char> {
    text::decimal_spec(n) + text::repeated(' ', less(3, text::decimal_spec(n).len() as int) as nat)
}

/// The spaces that widen a text to three characters.
fn padding(s: &str) -> (r: String)
    ensures
        r@ == text::repeated(' ', less(3, s@.len() as int) as nat),
{
    let n: usize = text::chars_of(s).len();
    text::repeat(' ', without(3, n))
}

/// A number with spaces in front, at least three characters wide.
fn right_aligned(n: u64) -> (r: String)
    ensures
        r@ == right_of_three(n as int),
{
    let digits = text::decimal(n);
    let mut r = padding(digits.as_str());
    r.append(digits.as_str());
    r
}

/// A number with spaces behind, at least three characters wide.
fn left_aligned(n: u64) -> (r: String)
    ensures
        r@ == left_of_three(n as int),
{
    let mut r = text::decimal(n);
    let spaces = padding(r.as_str());
    r.append(spaces.as_str());
    r
}

/// A style with a foreground colour and nothing else.
pub open spec fn coloured(color: Color) -> Style {
    Style { fg: Some(color), bold: false, dim: false }
}

/// Bold and nothing else.
pub open spec fn bold_style() -> Style {
    Style { fg: None, bold: true, dim: false }
}

/// Dim and nothing else.
pub open spec fn dim_style() -> Style {
    Style { fg: None, bold: false, dim: true }
}

/// A style with a foreground colour and nothing else.
fn fg(color: Color) -> (r: Style)
    ensures
        r == coloured(color),
{
    Style { fg: Some(color), bold: false, dim: false }
}

/// Bold and nothing else.
fn bold() -> (r: Style)
    ensures
        r == bold_style(),
{
    Style { fg: None, bold: true, dim: false }
}

/// Dim and nothing else.
fn dim() -> (r: Style)
    ensures
        r == dim_style(),
{
    Style { fg: None, bold: false, dim: true }
}

/// Text in a style.
fn styled(content: String, style: Style) -> (r: Span)
    ensures
        span_view(r) == (content@, style),
{
    Span { content, style }
}

/// How wide the summary's bar is, given how wide the counter and the phase are.
pub open spec fn summary_bar(width: int, counter: int, phase: int) -> int {
    most(least(SUMMARY_BAR as int, less(width, counter + phase)), MIN_BAR as int)
}

/// The summary of the run: how many have settled, a bar, and what the run is doing.
pub open spec fn summary_spec(state: RunState, width: int) -> Seq<(Seq<char>, Style)> {
    let counter = right_of_three(state.done as int) + "/"@ + left_of_three(state.total as int)
        + " "@;
    let phase = "  "@ + state.phase@;
    let bar_width = summary_bar(width, counter.len() as int, phase.len() as int);
    let (n, d) = state.fraction_spec();
    let filled = filled_spec(bar_width, n, d);
    seq![
        (counter, bold_style()),
        (text::repeated('\u{2501}', filled as nat), coloured(Color::Green)),
        (unfilled_spec(bar_width, filled), dim_style()),
        (clip_spec(phase, less(width, counter.len() + bar_width)), plain_style()),
    ]
}

/// `  4/18  ━━━━━━━━╴──────  installing`
pub fn summary_line(state: &RunState, width: usize) -> (r: Vec<Span>)
    ensures
        span_views(r@) == summary_spec(*state, width as int),
{
    let mut counter = right_aligned(state.done as u64);
    counter.append("/");
    counter.append(left_aligned(state.total as u64).as_str());
    counter.append(" ");
    let mut phase = "  ".to_owned();
    phase.append(state.phase.as_str());
    proof {
        lemma_decimal_is_short(state.done as int);
        lemma_decimal_is_short(state.total as int);
        reveal_strlit("/");
        reveal_strlit(" ");
        reveal_strlit("  ");
    }
    let used: usize = text::chars_of(counter.as_str()).len();
    let wanted: usize = text::chars_of(phase.as_str()).len();
    let room: usize = without(without(width, used), wanted);
    let capped: usize = if SUMMARY_BAR <= room {
        SUMMARY_BAR
    } else {
        room
    };
    let bar_width: usize = if capped >= MIN_BAR {
        capped
    } else {
        MIN_BAR
    };
    let (n, d) = state.fraction();
    let (filled, rest) = bar(bar_width, n, d);
    let shown = clip(phase.as_str(), without(width, used + bar_width));
    let r = vec![
        styled(counter, bold()),
        styled(filled, fg(Color::Green)),
        styled(rest, dim()),
        styled(shown, Style::new()),
    ];
    assert(span_views(r@) =~= summary_spec(*state, width as int));
    r
}

/// A number of sixty-four bits takes at most twenty digits.
proof fn lemma_decimal_is_short(n: int)
    requires
        0 <= n <= u64::MAX,
    ensures
        1 <= text::decimal_spec(n).len() <= 20,
{
    reveal_with_fuel(text::decimal_spec, 21);
}

/// The frames a spinner cycles through.
pub open spec fn spinner_spec(frame: int) -> Seq<char> {
    if frame == 0 {
        "\u{280b}"@
    } else if frame == 1 {
        "\u{2819}"@
    } else if frame == 2 {
        "\u{2839}"@
    } else if frame == 3 {
        "\u{2838}"@
    } else if frame == 4 {
        "\u{283c}"@
    } else if frame == 5 {
        "\u{2834}"@
    } else if frame == 6 {
        "\u{2826}"@
    } else if frame == 7 {
        "\u{2827}"@
    } else if frame == 8 {
        "\u{2807}"@
    } else {
        "\u{280f}"@
    }
}

/// The frames a spinner cycles through.
pub fn spinner(tick: usize) -> (r: &'static str)
    ensures
        r@ == spinner_spec(tick as int % 10),
{
    match tick % 10 {
        0 => "\u{280b}",
        1 => "\u{2819}",
        2 => "\u{2839}",
        3 => "\u{2838}",
        4 => "\u{283c}",
        5 => "\u{2834}",
        6 => "\u{2826}",
        7 => "\u{2827}",
        8 => "\u{2807}",
        _ => "\u{280f}",
    }
}

/// The colour a settled outcome is drawn in, or `None` when its mark supplies its own.
pub open spec fn colour_spec(outcome: Outcome) -> Option<Color> {
    match outcome {
        Outcome::Changed => Some(Color::Green),
        Outcome::Unchanged => Some(Color::Cyan),
        Outcome::Failed => None,
    }
}

/// The colour a settled outcome is drawn in, or `None` when its mark supplies its own.
pub fn colour_of(outcome: Outcome) -> (r: Option<Color>)
    ensures
        r == colour_spec(outcome),
{
    match outcome {
        Outcome::Changed => Some(Color::Green),
        Outcome::Unchanged => Some(Color::Cyan),
        Outcome::Failed => None,
    }
}

/// A row's mark: a static one for what only waits, the outcome's for what has settled, a spinner
/// for what is moving.
pub open spec fn mark_of(stage: Stage, tick: int) -> (Seq<char>, Style) {
    match stage {
        Stage::Waiting => ("\u{b7}"@, dim_style()),
        Stage::Done { outcome, .. } => (
            outcome.mark_spec().0,
            match colour_spec(outcome) {
                Some(color) => coloured(color),
                None => plain_style(),
            },
        ),
        _ => (spinner_spec(tick % 10), coloured(Color::Cyan)),
    }
}

/// What pads a row's mark.
pub open spec fn pad_of(stage: Stage) -> Seq<char> {
    match stage {
        Stage::Done { outcome, .. } => outcome.mark_spec().1,
        _ => " "@,
    }
}

/// How wide a row is in front of its status.
pub open spec fn status_column() -> int {
    MARK_WIDTH + 1 + NAME_WIDTH + 1
}

/// The byte counts of a transfer, dropped where the row is narrow.
pub open spec fn counts_text(done: int, expected: int, width: int) -> Seq<char> {
    if width >= NARROW {
        "  "@ + transferred_spec(done, expected)
    } else {
        Seq::empty()
    }
}

/// The percentage of a transfer, dropped where the row is cramped.
pub open spec fn percent_text(n: int, d: int, width: int) -> Seq<char> {
    if width >= CRAMPED {
        " "@ + right_of_three(rounded(n * 100, d)) + "%"@
    } else {
        Seq::empty()
    }
}

/// How wide a transfer's bar is, given how wide what stands behind it is.
pub open spec fn transfer_bar(width: int, behind: int) -> int {
    most(least(BAR_MAX as int, less(less(width, status_column()), behind)), MIN_BAR as int)
}

/// A row's status.
pub open spec fn status_spans(stage: Stage, width: int) -> Seq<(Seq<char>, Style)> {
    let rest = less(width, status_column());
    match stage {
        Stage::Active { label, bytes } => if bytes.active > 0 && bytes.fraction_spec() is Some {
            let (n, d) = bytes.fraction_spec()->0;
            let counts = counts_text(bytes.done as int, bytes.expected as int, width);
            let percent = percent_text(n as int, d as int, width);
            let bar_width = transfer_bar(width, (counts.len() + percent.len()) as int);
            let filled = filled_spec(bar_width, n as int, d as int);
            seq![
                (text::repeated('\u{2501}', filled as nat), coloured(Color::Cyan)),
                (unfilled_spec(bar_width, filled), dim_style()),
                (percent, plain_style()),
                (counts, coloured(Color::DarkGray)),
            ]
        } else {
            let shown = if bytes.done > 0 {
                label@ + " "@ + human_spec(bytes.done as int)
            } else {
                label@
            };
            seq![(clip_spec(shown, rest), plain_style())]
        },
        Stage::Committing { label } => seq![(clip_spec(label@, rest), coloured(Color::Green))],
        Stage::Waiting => seq![(clip_spec("waiting to install"@, rest), dim_style())],
        Stage::Done { outcome, detail } => seq![
            (
                clip_spec(detail@, rest),
                coloured(
                    match colour_spec(outcome) {
                        Some(color) => color,
                        None => Color::Red,
                    },
                ),
            ),
        ],
        Stage::Queued | Stage::Gone => Seq::empty(),
    }
}

/// What stands in front of a row's status: the mark, its padding, and the name.
pub open spec fn row_head(name: Seq<char>, stage: Stage, tick: int) -> Seq<(Seq<char>, Style)> {
    seq![
        mark_of(stage, tick),
        (pad_of(stage), plain_style()),
        (" "@, plain_style()),
        (column_spec(name), bold_style()),
        (" "@, plain_style()),
    ]
}

/// One dependency's row.
pub open spec fn worker_spec(name: Seq<char>, stage: Stage, tick: int, width: int) -> Seq<
    (Seq<char>, Style),
> {
    row_head(name, stage, tick) + status_spans(stage, width)
}

/// What stands in front of a row's status.
fn head(name: &str, stage: &Stage, tick: usize) -> (r: Vec<Span>)
    ensures
        span_views(r@) == row_head(name@, *stage, tick as int),
{
    let mark = match stage {
        Stage::Waiting => styled("\u{b7}".to_owned(), dim()),
        Stage::Done { outcome, .. } => {
            let (glyph, _) = outcome.mark();
            // The failure mark is an emoji: it has its own colour and ignores a foreground one.
            match colour_of(*outcome) {
                Some(color) => styled(glyph.to_owned(), fg(color)),
                None => styled(glyph.to_owned(), Style::new()),
            }
        },
        // Only work that is actually moving gets a spinner.
        _ => styled(spinner(tick).to_owned(), fg(Color::Cyan)),
    };
    // Padded to a fixed width because the marks are not all one cell wide.
    let pad = match stage {
        Stage::Done { outcome, .. } => outcome.mark().1,
        _ => " ",
    };
    let r = vec![
        mark,
        styled(pad.to_owned(), Style::new()),
        styled(" ".to_owned(), Style::new()),
        styled(column(name), bold()),
        styled(" ".to_owned(), Style::new()),
    ];
    assert(span_views(r@) =~= row_head(name@, *stage, tick as int));
    r
}

/// A share of at most one makes at most a hundred percent.
proof fn lemma_percent(n: int, d: int)
    requires
        0 <= n <= d,
        d > 0,
    ensures
        0 <= rounded(n * 100, d) <= 100,
{
    assert(0 <= n * 100 / d <= 100 && (n * 100 / d == 100 ==> (n * 100) % d == 0)) by (
    nonlinear_arith)
        requires
            0 <= n <= d,
            d > 0,
    {
        assert(n * 100 == d * (n * 100 / d) + (n * 100) % d);
        assert(0 <= (n * 100) % d < d);
    }
}

/// `⠹ fzf                ━━━━━━━━╴───   61%  1.2/2.0 MiB`
pub fn worker_line(name: &str, stage: &Stage, tick: usize, width: usize) -> (r: Vec<Span>)
    ensures
        span_views(r@) == worker_spec(name@, *stage, tick as int, width as int),
{
    let mut spans = head(name, stage, tick);
    let ghost front = spans@;
    let rest: usize = without(width, MARK_WIDTH + 1 + NAME_WIDTH + 1);
    match stage {
        Stage::Active { label, bytes } => {
            let share = if bytes.transferring() {
                bytes.fraction()
            } else {
                None
            };
            match share {
                Some((n, d)) => {
                    let counts = if width >= NARROW {
                        let mut counts = "  ".to_owned();
                        counts.append(transferred(bytes.done, bytes.expected).as_str());
                        counts
                    } else {
                        let counts = String::new();
                        assert(counts@ =~= Seq::empty());
                        counts
                    };
                    proof {
                        lemma_percent(n as int, d as int);
                    }
                    let percent = if width >= CRAMPED {
                        let p: u128 = n as u128 * 100;
                        let whole: u64 = (p / d as u128) as u64;
                        let half: u64 = if 2 * (p % d as u128) >= d as u128 {
                            1
                        } else {
                            0
                        };
                        let mut percent = " ".to_owned();
                        percent.append(right_aligned(whole + half).as_str());
                        percent.append("%");
                        percent
                    } else {
                        let percent = String::new();
                        assert(percent@ =~= Seq::empty());
                        percent
                    };
                    proof {
                        lemma_counts_are_short(bytes.done as int, bytes.expected as int);
                        lemma_decimal_is_short(rounded(n * 100, d as int));
                        reveal_strlit(" ");
                        reveal_strlit("  ");
                        reveal_strlit("%");
                    }
                    let behind: usize = text::chars_of(counts.as_str()).len() + text::chars_of(
                        percent.as_str(),
                    ).len();
                    let room: usize = without(rest, behind);
                    let capped: usize = if BAR_MAX <= room {
                        BAR_MAX
                    } else {
                        room
                    };
                    let bar_width: usize = if capped >= MIN_BAR {
                        capped
                    } else {
                        MIN_BAR
                    };
                    let (filled, unfilled) = bar(bar_width, n, d);
                    spans.push(styled(filled, fg(Color::Cyan)));
                    spans.push(styled(unfilled, dim()));
                    spans.push(styled(percent, Style::new()));
                    spans.push(styled(counts, fg(Color::DarkGray)));
                },
                None => {
                    // No total to divide by: report what has arrived instead of a percentage.
                    let mut shown = label.clone();
                    if bytes.done > 0 {
                        shown.append(" ");
                        shown.append(human(bytes.done).as_str());
                    }
                    spans.push(styled(clip(shown.as_str(), rest), Style::new()));
                },
            }
        },
        Stage::Committing { label } => {
            spans.push(styled(clip(label.as_str(), rest), fg(Color::Green)));
        },
        Stage::Waiting => {
            spans.push(styled(clip("waiting to install", rest), dim()));
        },
        Stage::Done { outcome, detail } => {
            // Red on the text even where the mark supplies its own, so a failed row reads as one
            // at a glance.
            let color = match colour_of(*outcome) {
                Some(color) => color,
                None => Color::Red,
            };
            spans.push(styled(clip(detail.as_str(), rest), fg(color)));
        },
        Stage::Queued | Stage::Gone => {},
    }
    assert(span_views(spans@) =~= worker_spec(name@, *stage, tick as int, width as int)) by {
        assert forall|i: int| 0 <= i < front.len() implies #[trigger] span_views(spans@)[i]
            == row_head(name@, *stage, tick as int)[i] by {
            assert(span_views(front)[i] == span_view(front[i]));
        }
    }
    spans
}

/// A count of bytes out of others is short.
proof fn lemma_counts_are_short(done: int, expected: int)
    requires
        0 <= done <= u64::MAX,
        0 <= expected <= u64::MAX,
    ensures
        transferred_spec(done, expected).len() <= 64,
{
    lemma_decimal_is_short(done);
    lemma_decimal_is_short(expected);
    reveal_strlit("/");
    reveal_strlit(" ");
    reveal_strlit(" B");
    reveal_strlit("B");
    reveal_strlit("KiB");
    reveal_strlit("MiB");
    reveal_strlit("GiB");
    reveal_strlit("TiB");
    let larger = most(expected, done);
    let divisor = unit_spec(larger).0;
    lemma_tenths_are_short(done, divisor);
    lemma_tenths_are_short(expected, divisor);
}

/// A quotient to one decimal place is short.
proof fn lemma_tenths_are_short(n: int, d: int)
    requires
        0 <= n <= u64::MAX,
        d >= 1,
    ensures
        tenths_spec(n, d).len() <= 22,
{
    let q = rounded_even(n * 10, d);
    assert(0 <= (n * 10) / d <= n * 10) by (nonlinear_arith)
        requires
            0 <= n,
            d >= 1,
    ;
    assert(q <= n * 10 + 1);
    assert(q / 10 <= n);
    lemma_decimal_is_short(q / 10);
    assert(text::decimal_spec(q % 10).len() == 1);
    reveal_strlit(".");
}

/// A part that is there only where it has something to say.
pub open spec fn part_if(shown: bool, part: Seq<char>) -> Seq<Seq<char>> {
    if shown {
        seq![part]
    } else {
        Seq::empty()
    }
}

/// The parts of the footer: bytes, throughput, time, and what is waiting and queued.
pub open spec fn stats_parts(state: RunState, elapsed: int) -> Seq<Seq<char>> {
    let n = state.deps@.len() as int;
    let waiting = super::state::waiting_count(state.deps@, n);
    let queued = super::state::queued_count(state.deps@, n);
    part_if(state.bytes > 0, human_spec(state.bytes as int)) + part_if(
        state.rate_spec(elapsed) is Some,
        human_spec(state.rate_spec(elapsed)->0) + "/s"@,
    ) + seq![tenths_spec(elapsed, 1_000_000_000) + "s"@] + part_if(
        waiting > 0,
        text::decimal_spec(waiting) + " waiting"@,
    ) + part_if(queued > 0, text::decimal_spec(queued) + " queued"@)
}

/// The footer.
pub open spec fn stats_spec(state: RunState, elapsed: int, width: int) -> Seq<(Seq<char>, Style)> {
    seq![
        (
            clip_spec(text::joined_by(stats_parts(state, elapsed), " \u{b7} "@), width),
            dim_style(),
        ),
    ]
}

/// `12.4 MiB · 3.1 MiB/s · 4.2s · 3 waiting · 11 queued`, after so many nanoseconds.
pub fn stats_line(state: &RunState, elapsed: u64, width: usize) -> (r: Vec<Span>)
    ensures
        span_views(r@) == stats_spec(*state, elapsed as int, width as int),
{
    let mut parts: Vec<String> = Vec::new();
    if state.bytes > 0 {
        parts.push(human(state.bytes));
    }
    if let Some(rate) = state.rate(elapsed) {
        let mut part = human(rate);
        part.append("/s");
        parts.push(part);
    }
    let mut time = tenths(elapsed, 1_000_000_000);
    time.append("s");
    parts.push(time);
    let counts = state.counts();
    if counts.waiting > 0 {
        let mut part = text::decimal(counts.waiting as u64);
        part.append(" waiting");
        parts.push(part);
    }
    if counts.queued > 0 {
        let mut part = text::decimal(counts.queued as u64);
        part.append(" queued");
        parts.push(part);
    }
    assert(text::texts(parts@) =~= stats_parts(*state, elapsed as int));
    let shown = text::join_by(&parts, " \u{b7} ");
    let r = vec![styled(clip(shown.as_str(), width), dim())];
    assert(span_views(r@) =~= stats_spec(*state, elapsed as int, width as int));
    r
}

/// What is drawn inside the frame.
#[derive(Debug)]
pub struct Frame {
    /// The width of the whole region.
    pub width: u16,
    /// The lines inside the border.
    pub lines: Vec<Vec<Span>>,
    /// Which of them is the rule that is joined to the border, if there is one.
    pub rule: Option<usize>,
}

/// What stands on a worker row: its dependency's line, or nothing.
pub open spec fn row_spec(state: RunState, row: int, tick: int, width: int) -> Seq<
    (Seq<char>, Style),
> {
    if row < state.slots@.len() && state.slots@[row] is Some && state.slots@[row]->0
        < state.deps@.len() {
        let dep = state.deps@[state.slots@[row]->0 as int];
        worker_spec(dep.name@, dep.stage, tick, width)
    } else {
        Seq::empty()
    }
}

/// How many worker rows a frame so tall inside its border holds.
pub open spec fn capacity_of(inner: int) -> int {
    if inner >= 4 {
        inner - 3
    } else {
        0
    }
}

/// The lines of a frame so wide and tall inside its border: the summary, the worker rows, and the
/// rule and footer where they fit.
pub open spec fn lines_spec(state: RunState, tick: int, width: int, inner: int, elapsed: int) -> Seq<
    Seq<(Seq<char>, Style)>,
> {
    let rows = Seq::new(
        capacity_of(inner) as nat,
        |i: int| row_spec(state, i, tick, width),
    );
    let body = seq![summary_spec(state, width)] + rows;
    if inner >= 4 {
        body + seq![
            seq![(text::repeated('\u{2500}', width as nat), dim_style())],
            stats_spec(state, elapsed, width),
        ]
    } else {
        body
    }
}

/// The line of a worker row.
fn row_line(state: &RunState, row: usize, tick: usize, width: usize) -> (r: Vec<Span>)
    ensures
        span_views(r@) == row_spec(*state, row as int, tick as int, width as int),
{
    let empty: Vec<Span> = Vec::new();
    assert(span_views(empty@) =~= Seq::empty());
    let slots = state.selection();
    if row >= slots.len() {
        return empty;
    }
    match slots[row] {
        Some(id) => {
            if id < state.deps.len() {
                let dep = &state.deps[id];
                worker_line(dep.name.as_str(), &dep.stage, tick, width)
            } else {
                empty
            }
        },
        None => empty,
    }
}

/// Draws the whole region, after so many nanoseconds. `None` where it is too small to draw.
///
/// An empty row stays empty rather than closing up: the row below it must not move because this
/// one's dependency finished. Blank rows hold the height once the work drains.
pub fn view(state: &RunState, tick: usize, width: u16, height: u16, elapsed: u64) -> (r: Option<
    Frame,
>)
    ensures
        if height < 3 || width < 10 {
            r is None
        } else {
            let region = least(width as int, REGION_WIDTH as int);
            r matches Some(frame) && frame.width == region && super::ansi::line_views(
                frame.lines@,
            ) == lines_spec(*state, tick as int, region - 2, height - 2, elapsed as int)
                && frame.rule == if height >= 6 {
                Some((1 + capacity_of(height - 2)) as usize)
            } else {
                None
            }
        },
{
    if height < 3 || width < 10 {
        return None;
    }
    let region: u16 = if width <= REGION_WIDTH {
        width
    } else {
        REGION_WIDTH
    };
    let room: usize = (region - 2) as usize;
    let inner: usize = (height - 2) as usize;
    let footer = inner >= 4;
    let capacity: usize = if footer {
        inner - 3
    } else {
        0
    };
    let ghost wanted = lines_spec(
        *state,
        tick as int,
        room as int,
        inner as int,
        elapsed as int,
    );
    let mut lines: Vec<Vec<Span>> = Vec::new();
    lines.push(summary_line(state, room));
    let mut row: usize = 0;
    while row < capacity
        invariant
            row <= capacity,
            capacity == capacity_of(inner as int),
            lines@.len() == row + 1,
            wanted == lines_spec(
                *state,
                tick as int,
                room as int,
                inner as int,
                elapsed as int,
            ),
            forall|i: int| 0 <= i <= row ==> span_views((#[trigger] lines@[i])@) == wanted[i],
        decreases capacity - row,
    {
        let line = row_line(state, row, tick, room);
        lines.push(line);
        row += 1;
    }
    if footer {
        let rule = vec![styled(text::repeat('\u{2500}', room), dim())];
        assert(span_views(rule@) =~= seq![
            (text::repeated('\u{2500}', room as nat), dim_style()),
        ]);
        lines.push(rule);
        lines.push(stats_line(state, elapsed, room));
    }
    assert(super::ansi::line_views(lines@) =~= wanted);
    Some(
        Frame {
            width: region,
            lines,
            rule: if footer {
                Some(1 + capacity)
            } else {
                None
            },
        },
    )
}

/// The height holds whatever the run is doing: a region with rows draws exactly as many lines as
/// it has room for.
pub proof fn the_height_holds(state: RunState, tick: int, width: int, inner: int, elapsed: int)
    requires
        inner >= 4,
    ensures
        lines_spec(state, tick, width, inner, elapsed).len() == inner,
{
}

/// A vacated row stays blank, and no other row moves: what stands on a row depends on that row's
/// own slot alone.
pub proof fn a_vacated_row_stays_blank(
    before: RunState,
    after: RunState,
    row: int,
    other: int,
    tick: int,
    width: int,
    inner: int,
    elapsed: int,
)
    requires
        0 <= row < capacity_of(inner),
        0 <= other < capacity_of(inner),
        row != other,
        after.deps == before.deps,
        after.slots@.len() == before.slots@.len(),
        row < after.slots@.len() ==> after.slots@[row] is None,
        forall|i: int| 0 <= i < after.slots@.len() && i != row ==> after.slots@[i] == before.slots@[i],
    ensures
        lines_spec(after, tick, width, inner, elapsed)[1 + row] == Seq::<(Seq<char>, Style)>::empty(),
        lines_spec(after, tick, width, inner, elapsed)[1 + other] == lines_spec(
            before,
            tick,
            width,
            inner,
            elapsed,
        )[1 + other],
{
}

/// How many characters a line has, the mark and its padding counted as the cells they take.
pub open spec fn status_len(spans: Seq<(Seq<char>, Style)>) -> int
    decreases spans.len(),
{
    if spans.len() == 0 {
        0
    } else {
        status_len(spans.drop_last()) + spans.last().0.len()
    }
}

/// A row's status fits the width behind the name: always where there is no bar, and where there is
/// one as soon as the narrowest bar fits beside what stands behind it.
pub proof fn a_status_fits_the_row(stage: Stage, width: int)
    requires
        width >= status_column(),
        (stage matches Stage::Active { bytes, .. } && bytes.active > 0 && bytes.fraction_spec()
            is Some) ==> {
            let bytes = stage->bytes;
            let (n, d) = bytes.fraction_spec()->0;
            status_column() + MIN_BAR + counts_text(
                bytes.done as int,
                bytes.expected as int,
                width,
            ).len() + percent_text(n as int, d as int, width).len() <= width
        },
    ensures
        status_column() + status_len(status_spans(stage, width)) <= width,
{
    reveal_with_fuel(status_len, 5);
    let spans = status_spans(stage, width);
    if let Stage::Active { label, bytes } = stage {
        if bytes.active > 0 && bytes.fraction_spec() is Some {
            let (n, d) = bytes.fraction_spec()->0;
            let counts = counts_text(bytes.done as int, bytes.expected as int, width);
            let percent = percent_text(n as int, d as int, width);
            let bar_width = transfer_bar(width, (counts.len() + percent.len()) as int);
            a_bar_is_as_wide_as_asked(bar_width, n as int, d as int);
            assert(spans.len() == 4);
            let three = spans.drop_last();
            let two = three.drop_last();
            let one = two.drop_last();
            assert(one.drop_last().len() == 0);
            assert(three.last() == spans[2]);
            assert(two.last() == spans[1]);
            assert(one.last() == spans[0]);
        } else {
            assert(spans.drop_last().len() == 0);
        }
    } else if spans.len() > 0 {
        assert(spans.drop_last().len() == 0);
    }
}

/// Rounding gives the nearest whole number: half a step off at most, and halves go up.
pub proof fn rounding_is_to_the_nearest(p: int, d: int)
    requires
        0 <= p,
        0 < d,
    ensures
        2 * p - d < 2 * (rounded(p, d) * d) <= 2 * p + d,
        2 * (rounded_even(p, d) * d) <= 2 * p + d,
        2 * p - d <= 2 * (rounded_even(p, d) * d),
        2 * p + d == 2 * (rounded_even(p, d) * d) || 2 * p - d == 2 * (rounded_even(p, d) * d)
            ==> rounded_even(p, d) % 2 == 0,
{
    let q = p / d;
    let rest = p % d;
    vstd::arithmetic::div_mod::lemma_fundamental_div_mod(p, d);
    vstd::arithmetic::div_mod::lemma_mod_bound(p, d);
    assert(q >= 0) by (nonlinear_arith)
        requires
            0 <= p,
            0 < d,
            q == p / d,
    ;
    assert(d * q == q * d) by (nonlinear_arith);
    assert((q + 1) * d == q * d + d) by (nonlinear_arith);
}

/// A bar is filled as far as the share: empty at nothing, full at the whole and beyond, and to the
/// nearest cell in between.
pub proof fn a_bar_is_filled_to_the_nearest_cell(width: int, n: int, d: int)
    requires
        0 <= width,
        0 <= n,
        0 < d,
    ensures
        n == 0 ==> filled_spec(width, n, d) == 0,
        n >= d ==> filled_spec(width, n, d) == width,
        n < d ==> 2 * (n * width) - d <= 2 * (filled_spec(width, n, d) * d) <= 2 * (n * width) + d,
        0 <= filled_spec(width, n, d) <= width,
{
    let p = n * width;
    assert(0 <= p) by (nonlinear_arith)
        requires
            0 <= n,
            0 <= width,
            p == n * width,
    ;
    rounding_is_to_the_nearest(p, d);
    let r = rounded(p, d);
    assert(r >= 0) by {
        assert(p / d >= 0) by (nonlinear_arith)
            requires
                0 <= p,
                0 < d,
        ;
    }
    if n == 0 {
        assert(p == 0) by (nonlinear_arith)
            requires
                n == 0,
                p == n * width,
        ;
        assert(r == 0) by (nonlinear_arith)
            requires
                r >= 0,
                2 * (r * d) <= d,
                0 < d,
        ;
    }
    if n >= d {
        assert(p >= d * width) by (nonlinear_arith)
            requires
                n >= d,
                width >= 0,
                p == n * width,
        ;
        assert(r >= width) by (nonlinear_arith)
            requires
                2 * p - d < 2 * (r * d),
                p >= d * width,
                0 < d,
        ;
    } else if r > width {
        assert(p <= d * width) by (nonlinear_arith)
            requires
                n < d,
                width >= 0,
                p == n * width,
        ;
        assert(width * d == d * width) by (nonlinear_arith);
        assert(width * d <= r * d) by (nonlinear_arith)
            requires
                width < r,
                0 < d,
        ;
    }
}

/// The unit of a count is the largest the count reaches: no fewer than one of it, and fewer than the
/// next one has.
pub proof fn a_count_is_told_in_the_unit_it_reaches(bytes: int)
    requires
        0 <= bytes,
    ensures
        ({
            let (divisor, unit) = unit_spec(bytes);
            &&& bytes < 1024 ==> divisor == 1 && unit == "B"@
            &&& bytes >= 1024 ==> divisor <= bytes
            &&& divisor < 1_099_511_627_776 ==> bytes < 1024 * divisor
            &&& divisor == 1 || divisor == 1024 && unit == "KiB"@ || divisor == 1024 * 1024 && unit
                == "MiB"@ || divisor == 1024 * 1024 * 1024 && unit == "GiB"@ || divisor == 1024 * 1024
                * 1024 * 1024 && unit == "TiB"@
        }),
        bytes < 1024 ==> human_spec(bytes) == text::decimal_spec(bytes) + " B"@,
        bytes >= 1024 ==> human_spec(bytes) == tenths_spec(bytes, unit_spec(bytes).0) + " "@
            + unit_spec(bytes).1,
{
}

/// Two counts are told in one unit, that of the larger, what has come before what is expected.
pub proof fn two_counts_share_a_unit(done: int, expected: int)
    requires
        0 <= done,
        0 <= expected,
    ensures
        done < 1024 && expected < 1024 ==> transferred_spec(done, expected) == text::decimal_spec(
            done,
        ) + "/"@ + text::decimal_spec(expected) + " B"@,
        expected >= 1024 && expected >= done ==> transferred_spec(done, expected) == tenths_spec(
            done,
            unit_spec(expected).0,
        ) + "/"@ + tenths_spec(expected, unit_spec(expected).0) + " "@ + unit_spec(expected).1,
        done >= 1024 && done >= expected ==> transferred_spec(done, expected) == tenths_spec(
            done,
            unit_spec(done).0,
        ) + "/"@ + tenths_spec(expected, unit_spec(done).0) + " "@ + unit_spec(done).1,
{
}

/// Text that is cut keeps its front, and says by its last character that something is missing. A name
/// is padded with spaces behind it.
pub proof fn cut_text_keeps_its_front(s: Seq<char>, width: int)
    ensures
        0 < width < s.len() ==> clip_spec(s, width).len() == width && clip_spec(s, width).take(
            width - 1,
        ) == s.take(width - 1) && clip_spec(s, width).last() == '\u{2026}',
        s.len() <= NAME_WIDTH ==> column_spec(s).take(s.len() as int) == s && forall|i: int|
            s.len() <= i < NAME_WIDTH ==> #[trigger] column_spec(s)[i] == ' ',
        s.len() > NAME_WIDTH ==> column_spec(s).take(NAME_WIDTH - 1) == s.take(NAME_WIDTH - 1)
            && column_spec(s).last() == '\u{2026}',
{
    if 0 < width < s.len() {
        assert(clip_spec(s, width).take(width - 1) =~= s.take(width - 1));
    }
    if s.len() <= NAME_WIDTH {
        assert(column_spec(s).take(s.len() as int) =~= s);
    } else {
        assert(column_spec(s).take(NAME_WIDTH - 1) =~= s.take(NAME_WIDTH - 1));
    }
}

/// As many rows are reserved as are asked for, as far as they fit: one at least where any are asked
/// for, and all of them where the terminal is unknown.
pub proof fn rows_are_reserved_as_they_fit(rows: int, lines: int)
    requires
        0 <= rows,
        0 <= lines,
    ensures
        fit_spec(0, Some(lines)) == 0,
        fit_spec(rows, None) == rows,
        rows > 0 ==> 1 <= fit_spec(rows, Some(lines)) <= rows,
        rows > 0 && rows <= rows_that_fit_spec(lines) ==> fit_spec(rows, Some(lines)) == rows,
        rows > rows_that_fit_spec(lines) > 0 ==> fit_spec(rows, Some(lines)) == rows_that_fit_spec(
            lines,
        ),
{
}

/// A row shows its dependency: the mark, the name in its column, and the status.
pub proof fn a_row_shows_its_dependency(
    state: RunState,
    row: int,
    tick: int,
    width: int,
    id: DepId,
)
    requires
        0 <= row < state.slots@.len(),
        state.slots@[row] == Some(id),
        id < state.deps@.len(),
    ensures
        ({
            let dep = state.deps@[id as int];
            let spans = row_spec(state, row, tick, width);
            &&& spans.len() >= 5
            &&& spans[3] == (column_spec(dep.name@), bold_style())
            &&& dep.stage matches Stage::Committing { label } ==> spans.len() == 6 && spans[5].0
                == clip_spec(label@, less(width, MARK_WIDTH + NAME_WIDTH + 2))
            &&& dep.stage matches Stage::Done { outcome, detail } ==> spans.len() == 6 && spans[0].0
                == outcome.mark_spec().0 && spans[5].0 == clip_spec(
                detail@,
                less(width, MARK_WIDTH + NAME_WIDTH + 2),
            )
            &&& dep.stage is Waiting ==> spans.len() == 6 && spans[5].0 == clip_spec(
                "waiting to install"@,
                less(width, MARK_WIDTH + NAME_WIDTH + 2),
            )
            &&& dep.stage matches Stage::Active { label, bytes } ==> bytes.done == 0
                && bytes.active == 0 ==> spans.len() == 6 && spans[5].0 == clip_spec(
                label@,
                less(width, MARK_WIDTH + NAME_WIDTH + 2),
            )
        }),
{
}

/// A row that no dependency has is blank.
pub proof fn a_free_row_is_blank(state: RunState, row: int, tick: int, width: int)
    requires
        0 <= row,
        state.slots@.len() <= row || state.slots@[row] is None,
    ensures
        row_spec(state, row, tick, width).len() == 0,
{
}

/// The footer always tells the time; bytes, what is waiting and what is queued only where there are
/// any.
pub proof fn the_footer_tells_what_there_is(state: RunState, elapsed: int)
    ensures
        ({
            let parts = stats_parts(state, elapsed);
            let n = state.deps@.len() as int;
            &&& parts.contains(tenths_spec(elapsed, 1_000_000_000) + "s"@)
            &&& state.bytes > 0 ==> parts[0] == human_spec(state.bytes as int)
            &&& super::state::queued_count(state.deps@, n) > 0 ==> parts.last()
                == text::decimal_spec(super::state::queued_count(state.deps@, n)) + " queued"@
            &&& super::state::queued_count(state.deps@, n) <= 0 && super::state::waiting_count(
                state.deps@,
                n,
            ) > 0 ==> parts.last() == text::decimal_spec(
                super::state::waiting_count(state.deps@, n),
            ) + " waiting"@
        }),
{
    let n = state.deps@.len() as int;
    let waiting = super::state::waiting_count(state.deps@, n);
    let queued = super::state::queued_count(state.deps@, n);
    let bytes = part_if(state.bytes > 0, human_spec(state.bytes as int));
    let rate = part_if(
        state.rate_spec(elapsed) is Some,
        human_spec(state.rate_spec(elapsed)->0) + "/s"@,
    );
    let time = tenths_spec(elapsed, 1_000_000_000) + "s"@;
    let parts = stats_parts(state, elapsed);
    assert(parts[(bytes.len() + rate.len()) as int] == time);
}

/// Each row that fits is there, below the summary; the rule and the footer come last where they fit.
pub proof fn the_frame_is_in_order(
    state: RunState,
    tick: int,
    width: int,
    inner: int,
    elapsed: int,
)
    requires
        0 <= inner,
    ensures
        ({
            let lines = lines_spec(state, tick, width, inner, elapsed);
            &&& lines[0] == summary_spec(state, width)
            &&& inner >= 4 ==> lines.len() == inner && lines.last() == stats_spec(
                state,
                elapsed,
                width,
            )
            &&& inner < 4 ==> lines.len() == 1
            &&& forall|i: int|
                0 <= i < inner - 3 ==> #[trigger] lines[i + 1] == row_spec(state, i, tick, width)
        }),
{
}

/// What a row says of a transfer is dropped where the row is too narrow for it, the counts before the
/// percentage; a percentage is a whole number of hundredths.
pub proof fn a_narrow_row_says_less(done: int, expected: int, width: int)
    ensures
        width >= NARROW ==> counts_text(done, expected, width) == "  "@ + transferred_spec(
            done,
            expected,
        ),
        width < NARROW ==> counts_text(done, expected, width).len() == 0,
        width >= CRAMPED ==> percent_text(done, expected, width) == " "@ + right_of_three(
            rounded(done * 100, expected),
        ) + "%"@,
        width < CRAMPED ==> percent_text(done, expected, width).len() == 0,
        CRAMPED < NARROW,
{
}

} // verus!
