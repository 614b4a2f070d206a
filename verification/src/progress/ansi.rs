//! Turns coloured strings into styled text.
//!
//! Lines printed above the live region are built with the escape sequences of [`crate::ui`],
//! because a piped run has to emit those bytes exactly. Rather than build every line twice, the
//! animated path parses them back.
//!
//! Only those escapes are understood: reset, bold, dim, and the sixteen foreground colours.
//! Anything else is dropped rather than shown, so a stray sequence cannot leak into the frame as
//! literal text.

use vstd::prelude::*;
use crate::text;
use crate::ui::painted;

verus! {

/// A foreground colour.
#[derive(Debug, Clone, Copy, PartialEq, Eq, Structural)]
pub enum Color {
    Black,
    Red,
    Green,
    Yellow,
    Blue,
    Magenta,
    Cyan,
    Gray,
    DarkGray,
    LightRed,
    LightGreen,
    LightYellow,
    LightBlue,
    LightMagenta,
    LightCyan,
    White,
}

/// How a text is drawn.
#[derive(Debug, Clone, Copy, PartialEq, Eq, Structural)]
pub struct Style {
    /// The foreground colour.
    pub fg: Option<Color>,
    /// Whether it is bold.
    pub bold: bool,
    /// Whether it is dim.
    pub dim: bool,
}

/// No colour, neither bold nor dim.
pub open spec fn plain_style() -> Style {
    Style { fg: None, bold: false, dim: false }
}

/// Text drawn in one style.
#[derive(Debug, Clone, PartialEq, Eq)]
pub struct Span {
    /// The text.
    pub content: String,
    /// How it is drawn.
    pub style: Style,
}

/// Text in one style, as a mathematical value.
pub open spec fn span_view(span: Span) -> (Seq<char>, Style) {
    (span.content@, span.style)
}

/// A line of spans, as a mathematical value.
pub open spec fn span_views(spans: Seq<Span>) -> Seq<(Seq<char>, Style)> {
    Seq::new(spans.len(), |i: int| span_view(spans[i]))
}

/// The text of a line, whatever its styles.
pub open spec fn visible(spans: Seq<(Seq<char>, Style)>) -> Seq<char>
    decreases spans.len(),
{
    if spans.len() == 0 {
        Seq::empty()
    } else {
        visible(spans.drop_last()) + spans.last().0
    }
}

impl Style {
    /// No colour, neither bold nor dim.
    pub fn new() -> (r: Self)
        ensures
            r == plain_style(),
    {
        Style { fg: None, bold: false, dim: false }
    }
}

/// The eight basic foreground colours, in the order of their codes.
pub open spec fn basic_spec(index: int) -> Color {
    if index == 0 {
        Color::Black
    } else if index == 1 {
        Color::Red
    } else if index == 2 {
        Color::Green
    } else if index == 3 {
        Color::Yellow
    } else if index == 4 {
        Color::Blue
    } else if index == 5 {
        Color::Magenta
    } else if index == 6 {
        Color::Cyan
    } else {
        Color::Gray
    }
}

/// Their bright counterparts.
pub open spec fn bright_spec(index: int) -> Color {
    if index == 0 {
        Color::DarkGray
    } else if index == 1 {
        Color::LightRed
    } else if index == 2 {
        Color::LightGreen
    } else if index == 3 {
        Color::LightYellow
    } else if index == 4 {
        Color::LightBlue
    } else if index == 5 {
        Color::LightMagenta
    } else if index == 6 {
        Color::LightCyan
    } else {
        Color::White
    }
}

/// The eight basic foreground colours, in the order of their codes.
pub fn basic(index: u64) -> (r: Color)
    ensures
        r == basic_spec(index as int),
{
    match index {
        0 => Color::Black,
        1 => Color::Red,
        2 => Color::Green,
        3 => Color::Yellow,
        4 => Color::Blue,
        5 => Color::Magenta,
        6 => Color::Cyan,
        _ => Color::Gray,
    }
}

/// Their bright counterparts.
pub fn bright(index: u64) -> (r: Color)
    ensures
        r == bright_spec(index as int),
{
    match index {
        0 => Color::DarkGray,
        1 => Color::LightRed,
        2 => Color::LightGreen,
        3 => Color::LightYellow,
        4 => Color::LightBlue,
        5 => Color::LightMagenta,
        6 => Color::LightCyan,
        _ => Color::White,
    }
}

/// A style with one parameter of an escape sequence applied.
pub open spec fn apply_code(style: Style, code: Option<int>) -> Style {
    match code {
        Some(code) => if code == 0 {
            plain_style()
        } else if code == 1 {
            Style { bold: true, ..style }
        } else if code == 2 {
            Style { dim: true, ..style }
        } else if 30 <= code <= 37 {
            Style { fg: Some(basic_spec(code - 30)), ..style }
        } else if 90 <= code <= 97 {
            Style { fg: Some(bright_spec(code - 90)), ..style }
        } else {
            style
        },
        None => style,
    }
}

/// A style with the first `n` parameters of an escape sequence applied.
pub open spec fn apply_parts(style: Style, parts: Seq<Seq<char>>, n: int) -> Style
    decreases n,
{
    if n <= 0 {
        style
    } else {
        apply_code(
            apply_parts(style, parts, n - 1),
            text::number_of(parts[n - 1], u16::MAX as int),
        )
    }
}

/// A style with a parameter list applied; an empty list is a reset.
pub open spec fn apply_spec(style: Style, params: Seq<char>) -> Style {
    if params.len() == 0 {
        plain_style()
    } else {
        let parts = text::segments(params, ';');
        apply_parts(style, parts, parts.len() as int)
    }
}

/// Applies one parameter list to the style in effect.
pub fn apply(style: Style, params: &str) -> (r: Style)
    ensures
        r == apply_spec(style, params@),
{
    if params.is_empty() {
        return Style::new();
    }
    let parts = text::split_on(params, ';');
    let ghost views = text::segments(params@, ';');
    let mut now = style;
    let mut i: usize = 0;
    while i < parts.len()
        invariant
            i <= parts@.len(),
            views == text::texts(parts@),
            now == apply_parts(style, views, i as int),
        decreases parts@.len() - i,
    {
        assert(views[i as int] == parts@[i as int]@);
        match text::parse_number(parts[i].as_str(), u16::MAX as u64) {
            Some(0) => {
                now = Style::new();
            },
            Some(1) => {
                now = Style { fg: now.fg, bold: true, dim: now.dim };
            },
            Some(2) => {
                now = Style { fg: now.fg, bold: now.bold, dim: true };
            },
            Some(code) => {
                if 30 <= code && code <= 37 {
                    now = Style { fg: Some(basic(code - 30)), bold: now.bold, dim: now.dim };
                } else if 90 <= code && code <= 97 {
                    now = Style { fg: Some(bright(code - 90)), bold: now.bold, dim: now.dim };
                }
            },
            None => {},
        }
        i += 1;
    }
    now
}

/// The character every escape sequence begins with.
pub open spec fn escape() -> char {
    '\u{1b}'
}

/// A character of a parameter list.
pub open spec fn param_char(c: char) -> bool {
    text::is_digit(c) || c == ';'
}

/// The end of the parameter list that starts at `from`.
pub open spec fn params_end(s: Seq<char>, from: int) -> int {
    text::skip_while(s, |c: char| param_char(c), from)
}

/// Where the last character of the sequence that starts at `from` stands: behind its parameters and
/// what may stand between the two.
pub open spec fn sequence_end(s: Seq<char>, from: int) -> int {
    text::skip_while(
        s,
        |c: char| ' ' <= c && c <= '/',
        text::skip_while(s, |c: char| '0' <= c && c <= '?', from),
    )
}

/// The text collected so far, as a span if there is any.
pub open spec fn collected(plain: Seq<char>, style: Style) -> Seq<(Seq<char>, Style)> {
    if plain.len() > 0 {
        seq![(plain, style)]
    } else {
        Seq::empty()
    }
}

/// What a line reads as from `at` on, given the text collected so far and the style in effect.
///
/// Only a list of numbers that ends in `m` is understood. Any other sequence is dropped as a whole,
/// and so is an escape that begins none.
pub open spec fn parsed(s: Seq<char>, at: int, style: Style, plain: Seq<char>) -> Seq<
    (Seq<char>, Style),
>
    decreases s.len() - at,
    when 0 <= at
{
    if at >= s.len() {
        collected(plain, style)
    } else if s[at] != escape() {
        parsed(s, at + 1, style, plain.push(s[at]))
    } else if at + 1 >= s.len() || s[at + 1] != '[' {
        parsed(s, at + 1, style, plain)
    } else {
        let end = sequence_end(s, at + 2);
        if end < at + 2 || end >= s.len() {
            collected(plain, style)
        } else if s[end] == escape() {
            parsed(s, end, style, plain)
        } else if s[end] == 'm' && params_end(s, at + 2) == end {
            collected(plain, style) + parsed(
                s,
                end + 1,
                apply_spec(style, s.subrange(at + 2, end)),
                Seq::empty(),
            )
        } else {
            parsed(s, end + 1, style, plain)
        }
    }
}

/// Parses one line of possibly coloured text.
pub fn to_line(line: &str) -> (r: Vec<Span>)
    ensures
        span_views(r@) == parsed(line@, 0, plain_style(), Seq::empty()),
{
    let cs = text::chars_of(line);
    let ghost s = line@;
    let ghost whole = parsed(s, 0, plain_style(), Seq::empty());
    let mut spans: Vec<Span> = Vec::new();
    let mut style = Style::new();
    let mut plain = String::new();
    let mut at: usize = 0;
    let total: usize = cs.len();
    assert(span_views(spans@) + whole =~= whole);
    while at < total
        invariant
            at <= total,
            total == cs@.len(),
            cs@ == s,
            span_views(spans@) + parsed(s, at as int, style, plain@) == whole,
        decreases total - at,
    {
        if cs[at] != '\u{1b}' {
            plain.push(cs[at]);
            at += 1;
            continue ;
        }
        if at + 1 >= total || cs[at + 1] != '[' {
            at += 1;
            continue ;
        }
        let start: usize = at + 2;
        let mut params_end: usize = start;
        let ghost param = |c: char| param_char(c);
        while params_end < total && ((cs[params_end] >= '0' && cs[params_end] <= '9')
            || cs[params_end] == ';')
            invariant
                start <= params_end <= total,
                total == cs@.len(),
                cs@ == s,
                param == |c: char| param_char(c),
                text::skip_while(s, param, start as int) == text::skip_while(
                    s,
                    param,
                    params_end as int,
                ),
            decreases total - params_end,
        {
            params_end += 1;
        }
        assert(self::params_end(s, start as int) == params_end);
        let mut end: usize = start;
        let ghost parameter = |c: char| '0' <= c && c <= '?';
        let ghost between = |c: char| ' ' <= c && c <= '/';
        while end < total && '0' <= cs[end] && cs[end] <= '?'
            invariant
                start <= end <= total,
                total == cs@.len(),
                cs@ == s,
                parameter == |c: char| '0' <= c && c <= '?',
                text::skip_while(s, parameter, start as int) == text::skip_while(
                    s,
                    parameter,
                    end as int,
                ),
            decreases total - end,
        {
            end += 1;
        }
        let ghost middle = end as int;
        assert(text::skip_while(s, parameter, start as int) == middle);
        while end < total && ' ' <= cs[end] && cs[end] <= '/'
            invariant
                start <= middle <= end <= total,
                total == cs@.len(),
                cs@ == s,
                between == |c: char| ' ' <= c && c <= '/',
                text::skip_while(s, between, middle) == text::skip_while(s, between, end as int),
            decreases total - end,
        {
            end += 1;
        }
        assert(sequence_end(s, start as int) == end);
        if end >= total {
            at = total;
            continue ;
        }
        if cs[end] == '\u{1b}' {
            at = end;
            continue ;
        }
        if cs[end] == 'm' && params_end == end {
            let params = text::string_of(&cs, start, end);
            let ghost before = span_views(spans@);
            let ghost held = collected(plain@, style);
            if !plain.as_str().is_empty() {
                let ghost shown = spans@;
                let span = Span { content: plain, style };
                spans.push(span);
                assert(span_views(spans@) =~= span_views(shown).push(span_view(span)));
                plain = String::new();
            }
            assert(span_views(spans@) =~= before + held);
            style = apply(style, params.as_str());
            proof {
                let rest = parsed(s, end + 1, style, Seq::empty());
                assert((before + held) + rest =~= before + (held + rest));
                assert(plain@ =~= Seq::empty());
            }
        }
        at = end + 1;
    }
    if !plain.as_str().is_empty() {
        let ghost before = spans@;
        let span = Span { content: plain, style };
        spans.push(span);
        assert(span_views(spans@) =~= span_views(before) + seq![span_view(span)]);
    } else {
        assert(span_views(spans@) + Seq::<(Seq<char>, Style)>::empty() =~= span_views(spans@));
    }
    spans
}

/// What a text of several lines reads as, line by line; a text without lines is one empty line.
pub open spec fn parsed_lines(s: Seq<char>) -> Seq<Seq<(Seq<char>, Style)>> {
    let lines = text::lines_spec(s);
    if lines.len() == 0 {
        seq![Seq::empty()]
    } else {
        Seq::new(lines.len(), |i: int| parsed(lines[i], 0, plain_style(), Seq::empty()))
    }
}

/// Lines of spans, as a mathematical value.
pub open spec fn line_views(lines: Seq<Vec<Span>>) -> Seq<Seq<(Seq<char>, Style)>> {
    Seq::new(lines.len(), |i: int| span_views(lines[i]@))
}

/// Splits text into lines and parses each, since inserting above the region needs a height.
pub fn to_lines(s: &str) -> (r: Vec<Vec<Span>>)
    ensures
        line_views(r@) == parsed_lines(s@),
        r@.len() > 0,
{
    let lines = text::lines(s);
    let ghost views = text::lines_spec(s@);
    let mut r: Vec<Vec<Span>> = Vec::new();
    if lines.len() == 0 {
        let empty: Vec<Span> = Vec::new();
        assert(span_views(empty@) =~= Seq::empty());
        r.push(empty);
        assert(line_views(r@) =~= parsed_lines(s@));
        return r;
    }
    let mut i: usize = 0;
    while i < lines.len()
        invariant
            i <= lines@.len(),
            views == text::texts(lines@),
            r@.len() == i,
            forall|j: int|
                0 <= j < i ==> span_views((#[trigger] r@[j])@) == parsed(
                    views[j],
                    0,
                    plain_style(),
                    Seq::empty(),
                ),
        decreases lines@.len() - i,
    {
        assert(views[i as int] == lines@[i as int]@);
        r.push(to_line(lines[i].as_str()));
        i += 1;
    }
    assert(line_views(r@) =~= parsed_lines(s@));
    r
}

/// Text without escapes is collected as it stands.
proof fn lemma_plain(s: Seq<char>, at: int, style: Style, plain: Seq<char>)
    requires
        0 <= at <= s.len(),
        forall|i: int| at <= i < s.len() ==> #[trigger] s[i] != escape(),
    ensures
        parsed(s, at, style, plain) == collected(plain + s.skip(at), style),
    decreases s.len() - at,
{
    if at < s.len() {
        lemma_plain(s, at + 1, style, plain.push(s[at]));
        assert(plain.push(s[at]) + s.skip(at + 1) =~= plain + s.skip(at));
    } else {
        assert(plain + s.skip(at) =~= plain);
    }
}

/// Text without escapes survives untouched, in no style.
pub proof fn plain_text_survives(s: Seq<char>)
    requires
        !s.contains(escape()),
    ensures
        parsed(s, 0, plain_style(), Seq::empty()) == collected(s, plain_style()),
{
    assert forall|i: int| 0 <= i < s.len() implies #[trigger] s[i] != escape() by {
        assert(s.contains(s[i]));
    }
    lemma_plain(s, 0, plain_style(), Seq::empty());
    assert(Seq::<char>::empty() + s.skip(0) =~= s);
}

/// Text without escapes up to `to` is collected as it stands.
proof fn lemma_plain_up_to(s: Seq<char>, at: int, to: int, style: Style, plain: Seq<char>)
    requires
        0 <= at <= to <= s.len(),
        forall|i: int| at <= i < to ==> #[trigger] s[i] != escape(),
    ensures
        parsed(s, at, style, plain) == parsed(s, to, style, plain + s.subrange(at, to)),
    decreases to - at,
{
    if at < to {
        lemma_plain_up_to(s, at + 1, to, style, plain.push(s[at]));
        assert(plain.push(s[at]) + s.subrange(at + 1, to) =~= plain + s.subrange(at, to));
    } else {
        assert(plain + s.subrange(at, to) =~= plain);
    }
}

/// A run does not depend on what stands before it.
proof fn lemma_run_behind(s: Seq<char>, p: spec_fn(char) -> bool, cut: int, from: int)
    requires
        0 <= cut <= s.len(),
        0 <= from,
    ensures
        text::skip_while(s, p, cut + from) == cut + text::skip_while(s.skip(cut), p, from),
    decreases s.len() - cut - from,
{
    if cut + from < s.len() {
        assert(s.skip(cut)[from] == s[cut + from]);
        if p(s[cut + from]) {
            lemma_run_behind(s, p, cut, from + 1);
        }
    }
}

/// What a line reads as from some place on does not depend on what stands before it.
proof fn lemma_behind(s: Seq<char>, cut: int, at: int, style: Style, plain: Seq<char>)
    requires
        0 <= cut <= s.len(),
        0 <= at,
    ensures
        parsed(s, cut + at, style, plain) == parsed(s.skip(cut), at, style, plain),
    decreases s.len() - cut - at,
{
    let rest = s.skip(cut);
    if at < rest.len() {
        assert(rest[at] == s[cut + at]);
        assert(at + 1 < rest.len() ==> rest[at + 1] == s[cut + at + 1]);
        if s[cut + at] != escape() {
            lemma_behind(s, cut, at + 1, style, plain.push(s[cut + at]));
        } else if at + 1 >= rest.len() || rest[at + 1] != '[' {
            lemma_behind(s, cut, at + 1, style, plain);
        } else {
            let param = |c: char| param_char(c);
            let parameter = |c: char| '0' <= c && c <= '?';
            let between = |c: char| ' ' <= c && c <= '/';
            let middle = text::skip_while(rest, parameter, at + 2);
            text::lemma_skip_while(rest, parameter, at + 2);
            text::lemma_skip_while(rest, between, middle);
            lemma_run_behind(s, param, cut, at + 2);
            lemma_run_behind(s, parameter, cut, at + 2);
            lemma_run_behind(s, between, cut, middle);
            let end = sequence_end(rest, at + 2);
            assert(sequence_end(s, cut + at + 2) == cut + end);
            if end < rest.len() {
                assert(rest[end] == s[cut + end]);
                assert(rest.subrange(at + 2, end) =~= s.subrange(cut + at + 2, cut + end));
                if rest[end] == escape() {
                    lemma_behind(s, cut, end, style, plain);
                } else if rest[end] == 'm' && params_end(rest, at + 2) == end {
                    let next = apply_spec(style, rest.subrange(at + 2, end));
                    lemma_behind(s, cut, end + 1, next, Seq::empty());
                } else {
                    lemma_behind(s, cut, end + 1, style, plain);
                }
            }
        }
    }
}

/// A sequence that is no list of numbers ended by `m` leaves no trace: the line reads as though the
/// whole of it, from the escape to its last character, were not there.
pub proof fn a_foreign_sequence_leaves_no_trace(
    before: Seq<char>,
    params: Seq<char>,
    between: Seq<char>,
    last: char,
    after: Seq<char>,
)
    requires
        !before.contains(escape()),
        forall|i: int| 0 <= i < params.len() ==> '0' <= #[trigger] params[i] && params[i] <= '?',
        forall|i: int| 0 <= i < between.len() ==> ' ' <= #[trigger] between[i] && between[i] <= '/',
        '@' <= last,
        last <= '~',
        last == 'm' ==> between.len() > 0 || exists|i: int|
            0 <= i < params.len() && !param_char(#[trigger] params[i]),
    ensures
        parsed(
            before + seq![escape(), '['] + params + between + seq![last] + after,
            0,
            plain_style(),
            Seq::empty(),
        ) == parsed(before + after, 0, plain_style(), Seq::empty()),
{
    let whole = before + seq![escape(), '['] + params + between + seq![last] + after;
    let bare = before + after;
    let at = before.len() as int;
    let start = at + 2;
    let middle = start + params.len();
    let end = middle + between.len();
    let style = plain_style();
    let empty = Seq::<char>::empty();
    assert forall|i: int| 0 <= i < at implies #[trigger] whole[i] != escape() && bare[i]
        != escape() by {
        assert(before.contains(before[i]));
        assert(whole[i] == before[i] && bare[i] == before[i]);
    }
    lemma_plain_up_to(whole, 0, at, style, empty);
    lemma_plain_up_to(bare, 0, at, style, empty);
    assert(empty + whole.subrange(0, at) =~= before);
    assert(empty + bare.subrange(0, at) =~= before);
    assert(whole[at] == escape() && whole[at + 1] == '[' && whole[end] == last);
    assert forall|i: int| start <= i < middle implies whole[i] == #[trigger] params[i - start] by {}
    assert forall|i: int| middle <= i < end implies whole[i] == #[trigger] between[i - middle] by {}
    let param = |c: char| param_char(c);
    let parameter = |c: char| '0' <= c && c <= '?';
    let spacing = |c: char| ' ' <= c && c <= '/';
    assert forall|i: int| start <= i < middle implies parameter(#[trigger] whole[i]) by {
        assert(whole[i] == params[i - start]);
    }
    assert forall|i: int| middle <= i < end implies spacing(#[trigger] whole[i]) by {
        assert(whole[i] == between[i - middle]);
    }
    assert(!parameter(whole[middle])) by {
        if middle < end {
            assert(spacing(whole[middle]));
        }
    }
    text::lemma_skip_to(whole, parameter, start, middle);
    text::lemma_skip_to(whole, spacing, middle, end);
    assert(sequence_end(whole, start) == end);
    text::lemma_skip_while(whole, param, start);
    if last == 'm' && params_end(whole, start) == end {
        if between.len() > 0 {
            assert(param(whole[middle]) && spacing(whole[middle]));
        } else {
            let i = choose|i: int| 0 <= i < params.len() && !param_char(#[trigger] params[i]);
            assert(param(whole[start + i]));
        }
    }
    lemma_behind(whole, end + 1, 0, style, before);
    lemma_behind(bare, at, 0, style, before);
    assert(whole.skip(end + 1) =~= after);
    assert(bare.skip(at) =~= after);
}

/// Spans without an escape character.
pub open spec fn escape_free(spans: Seq<(Seq<char>, Style)>) -> bool {
    forall|i: int| 0 <= i < spans.len() ==> !(#[trigger] spans[i]).0.contains(escape())
}

/// Nothing collects an escape.
proof fn lemma_escape_free(s: Seq<char>, at: int, style: Style, plain: Seq<char>)
    requires
        0 <= at,
        !plain.contains(escape()),
    ensures
        escape_free(parsed(s, at, style, plain)),
    decreases s.len() - at,
{
    if at < s.len() {
        if s[at] != escape() {
            let more = plain.push(s[at]);
            assert(!more.contains(escape())) by {
                if more.contains(escape()) {
                    let k = more.index_of(escape());
                    if k < plain.len() {
                        assert(plain[k] == escape());
                    }
                }
            }
            lemma_escape_free(s, at + 1, style, more);
        } else if at + 1 >= s.len() || s[at + 1] != '[' {
            lemma_escape_free(s, at + 1, style, plain);
        } else {
            let end = sequence_end(s, at + 2);
            if at + 2 <= end < s.len() {
                if s[end] == escape() {
                    lemma_escape_free(s, end, style, plain);
                } else if s[end] == 'm' && params_end(s, at + 2) == end {
                    let next = apply_spec(style, s.subrange(at + 2, end));
                    let rest = parsed(s, end + 1, next, Seq::empty());
                    lemma_escape_free(s, end + 1, next, Seq::empty());
                    let all = collected(plain, style) + rest;
                    assert forall|i: int| 0 <= i < all.len() implies !(#[trigger] all[i]).0.contains(
                        escape(),
                    ) by {
                        let n = collected(plain, style).len();
                        if i >= n {
                            assert(all[i] == rest[i - n]);
                        }
                    }
                } else {
                    lemma_escape_free(s, end + 1, style, plain);
                }
            }
        }
    }
}

/// No escape sequence is ever shown, whatever it is: no span holds an escape character.
pub proof fn no_escape_is_shown(s: Seq<char>)
    ensures
        escape_free(parsed(s, 0, plain_style(), Seq::empty())),
{
    lemma_escape_free(s, 0, plain_style(), Seq::empty());
}

/// A text in one of the colours comes back as that text in that colour.
pub proof fn a_painted_text_comes_back(code: Seq<char>, s: Seq<char>)
    requires
        code == "31"@ || code == "32"@ || code == "33"@ || code == "36"@,
        s.len() > 0,
        !s.contains(escape()),
    ensures
        ({
            let colour = if code == "31"@ {
                Color::Red
            } else if code == "32"@ {
                Color::Green
            } else if code == "33"@ {
                Color::Yellow
            } else {
                Color::Cyan
            };
            parsed(painted(code, s), 0, plain_style(), Seq::empty()) == seq![
                (s, (Style { fg: Some(colour), bold: false, dim: false })),
            ]
        }),
{
    reveal_strlit("31");
    reveal_strlit("32");
    reveal_strlit("33");
    reveal_strlit("36");
    reveal_strlit("m");
    reveal_strlit("\u{1b}[");
    reveal_strlit("\u{1b}[0m");
    let empty = Seq::<char>::empty();
    let whole = painted(code, s);
    assert(code.len() == 2);
    assert(code[0] == '3');
    assert(whole.len() == s.len() + 9);
    assert(whole[0] == escape());
    assert(whole[1] == '[');
    assert(whole[2] == '3');
    assert(whole[3] == code[1]);
    assert(whole[4] == 'm');
    let param = |c: char| param_char(c);
    let parameter = |c: char| '0' <= c && c <= '?';
    let between = |c: char| ' ' <= c && c <= '/';
    assert(params_end(whole, 2) == 4) by {
        reveal_with_fuel(text::skip_while, 3);
        assert(param(whole[2]));
        assert(param(whole[3]));
        assert(!param(whole[4]));
    }
    assert(sequence_end(whole, 2) == 4) by {
        reveal_with_fuel(text::skip_while, 3);
        assert(parameter(whole[2]));
        assert(parameter(whole[3]));
        assert(!parameter(whole[4]));
        assert(!between(whole[4]));
    }
    assert(whole.subrange(2, 4) =~= code);
    let style = apply_spec(plain_style(), code);
    assert(text::segments(code, ';') =~= seq![code]) by {
        text::lemma_first_index(code, ';', 0);
    }
    let value = text::digits_value(code, 2);
    assert(value == 30 + (code[1] as int - '0' as int)) by {
        reveal_with_fuel(text::digits_value, 3);
    }
    assert(text::all_digits(code)) by {
        assert forall|i: int| 0 <= i < code.len() implies text::is_digit(#[trigger] code[i]) by {
            assert(i == 0 || i == 1);
        }
    }
    reveal_with_fuel(apply_parts, 2);
    assert(style == apply_code(plain_style(), Some(value)));
    // The text itself, up to the reset behind it.
    let n = s.len() as int;
    let mid = 5 + n;
    assert forall|i: int| 5 <= i < mid implies #[trigger] whole[i] == s[i - 5] by {}
    assert forall|i: int| 5 <= i < mid implies #[trigger] whole[i] != escape() by {
        assert(s.contains(s[i - 5]));
    }
    lemma_collects(whole, 5, mid, style, empty);
    assert(whole.subrange(5, mid) =~= s);
    assert(empty + s =~= s);
    assert(whole[mid] == escape());
    assert(whole[mid + 1] == '[');
    assert(whole[mid + 2] == '0');
    assert(whole[mid + 3] == 'm');
    assert(params_end(whole, mid + 2) == mid + 3) by {
        reveal_with_fuel(text::skip_while, 2);
        assert(param(whole[mid + 2]));
        assert(!param(whole[mid + 3]));
    }
    assert(sequence_end(whole, mid + 2) == mid + 3) by {
        reveal_with_fuel(text::skip_while, 2);
        assert(parameter(whole[mid + 2]));
        assert(!parameter(whole[mid + 3]));
        assert(!between(whole[mid + 3]));
    }
    let reset = apply_spec(style, whole.subrange(mid + 2, mid + 3));
    assert(parsed(whole, mid + 4, reset, empty) =~= Seq::empty());
    assert(parsed(whole, mid, style, s) =~= seq![(s, style)]);
    assert(parsed(whole, 5, style, empty) == parsed(whole, mid, style, s));
    assert(parsed(whole, 0, plain_style(), empty) =~= parsed(whole, 5, style, empty));
}

/// A stretch without escapes is collected.
proof fn lemma_collects(s: Seq<char>, at: int, to: int, style: Style, plain: Seq<char>)
    requires
        0 <= at <= to <= s.len(),
        forall|i: int| at <= i < to ==> #[trigger] s[i] != escape(),
    ensures
        parsed(s, at, style, plain) == parsed(s, to, style, plain + s.subrange(at, to)),
    decreases to - at,
{
    if at < to {
        lemma_collects(s, at + 1, to, style, plain.push(s[at]));
        assert(plain.push(s[at]) + s.subrange(at + 1, to) =~= plain + s.subrange(at, to));
    } else {
        assert(plain + s.subrange(at, to) =~= plain);
    }
}

/// What the parameters of a sequence do: a zero takes everything back, one and two make bold and dim,
/// the thirties and the nineties set the colour and leave the rest, and any other leaves the style.
pub proof fn a_parameter_changes_one_thing(style: Style, code: int)
    ensures
        apply_code(style, Some(0)) == (Style { fg: None, bold: false, dim: false }),
        apply_code(style, Some(1)) == (Style { fg: style.fg, bold: true, dim: style.dim }),
        apply_code(style, Some(2)) == (Style { fg: style.fg, bold: style.bold, dim: true }),
        apply_code(style, None) == style,
        apply_code(style, Some(31)).fg == Some(Color::Red) && apply_code(style, Some(32)).fg == Some(
            Color::Green,
        ) && apply_code(style, Some(33)).fg == Some(Color::Yellow) && apply_code(style, Some(36)).fg
            == Some(Color::Cyan) && apply_code(style, Some(90)).fg == Some(Color::DarkGray),
        30 <= code <= 37 || 90 <= code <= 97 ==> apply_code(style, Some(code)).bold == style.bold
            && apply_code(style, Some(code)).dim == style.dim && apply_code(style, Some(code)).fg
            is Some,
        code > 2 && !(30 <= code <= 37) && !(90 <= code <= 97) ==> apply_code(style, Some(code))
            == style,
        apply_spec(style, Seq::empty()) == (Style { fg: None, bold: false, dim: false }),
{
}

/// Each colour has a number of its own.
pub proof fn colours_are_told_apart(a: int, b: int)
    requires
        0 <= a < 8,
        0 <= b < 8,
    ensures
        a != b ==> basic_spec(a) != basic_spec(b) && bright_spec(a) != bright_spec(b),
        basic_spec(a) != bright_spec(b),
{
}

} // verus!
