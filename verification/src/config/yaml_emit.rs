//! A YAML emitter for config documents.
//!
//! Block sequences are indented under their key, and a scalar that cannot be written plainly is
//! double-quoted. Config files are rewritten on every version bump, so the layout has to be the
//! one they are kept in.

use vstd::prelude::*;
use crate::text;
use crate::value::{
    lemma_json_view, list_view, table_view, write_number, Json, JsonView, OrderedMap,
};

verus! {

/// A control character.
pub open spec fn is_control(c: char) -> bool {
    let u = c as u32;
    u < 0x20 || 0x7f <= u <= 0x9f
}

/// A character that YAML takes for the end of a line, for a byte order mark, or for none at all.
pub open spec fn is_odd(c: char) -> bool {
    c == '\u{2028}' || c == '\u{2029}' || c == '\u{feff}' || c == '\u{fffe}' || c == '\u{ffff}'
}

/// The lower-case hexadecimal digit for a value below sixteen.
pub open spec fn hex_digit(d: int) -> char {
    if d < 10 {
        ('0' as int + d) as char
    } else {
        ('a' as int + d - 10) as char
    }
}

/// How one character is written between double quotes.
pub open spec fn escaped(c: char) -> Seq<char> {
    if c == '"' {
        "\\\""@
    } else if c == '\\' {
        "\\\\"@
    } else if c == '\n' {
        "\\n"@
    } else if c == '\r' {
        "\\r"@
    } else if c == '\t' {
        "\\t"@
    } else if is_control(c) {
        "\\x"@.push(hex_digit(c as int / 16)).push(hex_digit(c as int % 16))
    } else if c == '\u{2028}' {
        "\\u2028"@
    } else if c == '\u{2029}' {
        "\\u2029"@
    } else if c == '\u{feff}' {
        "\\ufeff"@
    } else if c == '\u{fffe}' {
        "\\ufffe"@
    } else if c == '\u{ffff}' {
        "\\uffff"@
    } else {
        seq![c]
    }
}

/// How the first `n` characters are written between double quotes.
pub open spec fn escaped_all(s: Seq<char>, n: int) -> Seq<char>
    decreases n,
{
    if n <= 0 {
        Seq::empty()
    } else {
        escaped_all(s, n - 1) + escaped(s[n - 1])
    }
}

/// `s` between double quotes.
pub open spec fn quoted(s: Seq<char>) -> Seq<char> {
    seq!['"'] + escaped_all(s, s.len() as int) + seq!['"']
}

/// A word that stands for nothing, or for true or false.
pub open spec fn reserved_word(s: Seq<char>) -> bool {
    ||| s == "null"@
    ||| s == "Null"@
    ||| s == "NULL"@
    ||| s == "~"@
    ||| s == "true"@
    ||| s == "True"@
    ||| s == "TRUE"@
    ||| s == "false"@
    ||| s == "False"@
    ||| s == "FALSE"@
}

/// A word that stands for a number that is none, or for one that is infinite, whatever its sign.
pub open spec fn special_number(s: Seq<char>) -> bool {
    let word = s.skip(after_sign(s, 0));
    ||| word == ".inf"@
    ||| word == ".Inf"@
    ||| word == ".INF"@
    ||| s == ".nan"@
    ||| s == ".NaN"@
    ||| s == ".NAN"@
}

/// The position after a sign at `at`, if there is one.
pub open spec fn after_sign(s: Seq<char>, at: int) -> int {
    if at < s.len() && (s[at] == '+' || s[at] == '-') {
        at + 1
    } else {
        at
    }
}

/// The position after the digits from `at` on.
pub open spec fn after_digits(s: Seq<char>, at: int) -> int {
    text::skip_while(s, |c: char| text::is_digit(c), at)
}

/// An exponent fills `s` from `at` on, or nothing does.
pub open spec fn exponent_or_end(s: Seq<char>, at: int) -> bool {
    at == s.len() || ((s[at] == 'e' || s[at] == 'E') && {
        let from = after_sign(s, at + 1);
        from < after_digits(s, from) && after_digits(s, from) == s.len()
    })
}

/// `s` in ASCII lower case, from `at` on.
pub open spec fn lower_from(s: Seq<char>, at: int) -> Seq<char> {
    Seq::new((s.len() - at) as nat, |i: int| text::lower_spec(s[at + i]))
}

/// A decimal number: a sign or none; then `inf`, `infinity` or `nan` in any case, or digits with
/// at most one dot among or around them and perhaps an exponent.
pub open spec fn decimal_number(s: Seq<char>) -> bool {
    let from = after_sign(s, 0);
    let word = lower_from(s, from);
    let whole = after_digits(s, from);
    let dotted = whole < s.len() && s[whole] == '.';
    let end = if dotted {
        after_digits(s, whole + 1)
    } else {
        whole
    };
    ||| word == "inf"@
    ||| word == "infinity"@
    ||| word == "nan"@
    ||| (whole > from || (dotted && end > whole + 1)) && exponent_or_end(s, end)
}

/// The value of a hexadecimal digit, `None` where it is none.
pub open spec fn digit_value(c: char) -> Option<int> {
    if '0' <= c && c <= '9' {
        Some(c as int - '0' as int)
    } else if 'a' <= c && c <= 'f' {
        Some(c as int - 'a' as int + 10)
    } else if 'A' <= c && c <= 'F' {
        Some(c as int - 'A' as int + 10)
    } else {
        None
    }
}

/// From `at` on, `s` is a number to the radix: a sign or none, and one digit or more.
pub open spec fn radix_number(s: Seq<char>, at: int, radix: int) -> bool {
    let from = after_sign(s, at);
    &&& from < s.len()
    &&& forall|i: int|
        from <= i < s.len() ==> digit_value(#[trigger] s[i]) is Some && digit_value(s[i])->0 < radix
}

/// A number to the radix that a letter names: a sign or none, a zero, the letter, and the digits.
pub open spec fn lettered_number(s: Seq<char>, letter: char, radix: int) -> bool {
    let from = after_sign(s, 0);
    from + 1 < s.len() && s[from] == '0' && s[from + 1] == letter && radix_number(s, from + 2, radix)
}

/// YAML would read the text back as something other than a string.
pub open spec fn non_string(s: Seq<char>) -> bool {
    ||| reserved_word(s)
    ||| decimal_number(s)
    ||| special_number(s)
    ||| lettered_number(s, 'x', 16)
    ||| lettered_number(s, 'o', 8)
    ||| lettered_number(s, 'b', 2)
}

/// At the start of a line, the text would begin or end a document.
pub open spec fn document_marker(s: Seq<char>) -> bool {
    ("---"@.is_prefix_of(s) || "..."@.is_prefix_of(s)) && (s.len() == 3 || s[3] == ' ')
}

/// A character that cannot begin a plain scalar.
pub open spec fn indicator(c: char) -> bool {
    ||| c == ','
    ||| c == '['
    ||| c == ']'
    ||| c == '{'
    ||| c == '}'
    ||| c == '#'
    ||| c == '&'
    ||| c == '*'
    ||| c == '!'
    ||| c == '|'
    ||| c == '>'
    ||| c == '\''
    ||| c == '"'
    ||| c == '%'
    ||| c == '@'
    ||| c == '`'
}

/// The text survives being written plainly.
pub open spec fn plain_safe(s: Seq<char>) -> bool {
    &&& s.len() > 0
    &&& !non_string(s)
    &&& s[0] != ' '
    &&& s.last() != ' '
    &&& forall|i: int| 0 <= i < s.len() ==> !is_control(#[trigger] s[i]) && !is_odd(s[i])
    &&& !document_marker(s)
    &&& !indicator(s[0])
    &&& (s[0] == '-' || s[0] == '?' || s[0] == ':') ==> s.len() > 1 && s[1] != ' '
    &&& text::find_from(s, ": "@, 0) is None
    &&& text::find_from(s, " #"@, 0) is None
    &&& s.last() != ':'
}

/// How a string is written.
pub open spec fn scalar_of(s: Seq<char>) -> Seq<char> {
    if plain_safe(s) {
        s
    } else {
        quoted(s)
    }
}

/// A collection that is written as a block.
pub open spec fn block(value: JsonView) -> bool {
    match value {
        JsonView::List(items) => items.len() > 0,
        JsonView::Table(map) => map.len() > 0,
        _ => false,
    }
}

/// How a leaf is written, the empty collections among them.
pub open spec fn leaf_text(value: JsonView) -> Seq<char> {
    match value {
        JsonView::Null => "null"@,
        JsonView::Bool(b) => if b {
            "true"@
        } else {
            "false"@
        },
        JsonView::Number(written) => written,
        JsonView::Text(s) => scalar_of(s),
        JsonView::List(_) => "[]"@,
        JsonView::Table(_) => "{}"@,
    }
}

/// `s` without the spaces in front.
pub open spec fn without_lead(s: Seq<char>) -> Seq<char> {
    s.skip(text::skip_while(s, |c: char| c == ' ', 0))
}

/// How a collection is written as a block, each line behind `pad` and each level `step` deeper.
pub open spec fn block_text(value: JsonView, pad: Seq<char>, step: Seq<char>) -> Seq<char>
    decreases value, 0int,
{
    match value {
        JsonView::Table(map) => mapping_text(map, map.len() as int, pad, step),
        JsonView::List(items) => sequence_text(items, items.len() as int, pad, step),
        _ => Seq::empty(),
    }
}

/// How the first `n` entries of a map are written.
pub open spec fn mapping_text(
    map: Seq<(Seq<char>, JsonView)>,
    n: int,
    pad: Seq<char>,
    step: Seq<char>,
) -> Seq<char>
    decreases map, n,
{
    if n <= 0 || n > map.len() {
        Seq::empty()
    } else {
        let (key, value) = map[n - 1];
        let before = mapping_text(map, n - 1, pad, step) + pad + scalar_of(key);
        if block(value) {
            before + ":\n"@ + block_text(value, pad + step, step)
        } else {
            before + ": "@ + leaf_text(value) + "\n"@
        }
    }
}

/// How the first `n` items of a list are written. A collection in it begins on the dash's line.
pub open spec fn sequence_text(
    items: Seq<JsonView>,
    n: int,
    pad: Seq<char>,
    step: Seq<char>,
) -> Seq<char>
    decreases items, n,
{
    if n <= 0 || n > items.len() {
        Seq::empty()
    } else {
        let value = items[n - 1];
        let before = sequence_text(items, n - 1, pad, step) + pad + "- "@;
        if block(value) {
            before + without_lead(block_text(value, pad + "  "@, step))
        } else {
            before + leaf_text(value) + "\n"@
        }
    }
}

/// How a document is written, with a line ending at its end.
pub open spec fn document_text(value: JsonView, indent: int) -> Seq<char> {
    let step = text::repeated(
        ' ',
        if indent > 1 {
            indent as nat
        } else {
            1
        },
    );
    if block(value) {
        block_text(value, Seq::empty(), step)
    } else {
        leaf_text(value) + "\n"@
    }
}

/// Whether `c` is a control character.
fn control(c: char) -> (r: bool)
    ensures
        r == is_control(c),
{
    let u: u32 = c as u32;
    u < 0x20 || (0x7f <= u && u <= 0x9f)
}

/// Whether YAML takes `c` for the end of a line, for a byte order mark, or for none at all.
fn odd(c: char) -> (r: bool)
    ensures
        r == is_odd(c),
{
    c == '\u{2028}' || c == '\u{2029}' || c == '\u{feff}' || c == '\u{fffe}' || c == '\u{ffff}'
}

/// The lower-case hexadecimal digit for a value below sixteen.
fn hex(d: u8) -> (r: char)
    requires
        d < 16,
    ensures
        r == hex_digit(d as int),
{
    if d < 10 {
        (48u8 + d) as char
    } else {
        (87u8 + d) as char
    }
}

/// Writes one character as it stands between double quotes.
fn push_escaped(out: &mut String, c: char)
    ensures
        final(out)@ == old(out)@ + escaped(c),
{
    if c == '"' {
        out.append("\\\"");
    } else if c == '\\' {
        out.append("\\\\");
    } else if c == '\n' {
        out.append("\\n");
    } else if c == '\r' {
        out.append("\\r");
    } else if c == '\t' {
        out.append("\\t");
    } else if control(c) {
        let u: u8 = c as u8;
        out.append("\\x");
        out.push(hex(u / 16));
        out.push(hex(u % 16));
        assert(out@ =~= old(out)@ + escaped(c));
    } else if c == '\u{2028}' {
        out.append("\\u2028");
    } else if c == '\u{2029}' {
        out.append("\\u2029");
    } else if c == '\u{feff}' {
        out.append("\\ufeff");
    } else if c == '\u{fffe}' {
        out.append("\\ufffe");
    } else if c == '\u{ffff}' {
        out.append("\\uffff");
    } else {
        out.push(c);
        assert(out@ =~= old(out)@ + escaped(c));
    }
}

/// Writes a string between double quotes.
fn quote(s: &str) -> (r: String)
    ensures
        r@ == quoted(s@),
{
    let cs = text::chars_of(s);
    let mut out = String::new();
    out.push('"');
    assert(out@ =~= seq!['"'] + escaped_all(s@, 0));
    let mut i: usize = 0;
    while i < cs.len()
        invariant
            i <= cs@.len(),
            cs@ == s@,
            out@ == seq!['"'] + escaped_all(s@, i as int),
        decreases cs@.len() - i,
    {
        let ghost before = out@;
        push_escaped(&mut out, cs[i]);
        i += 1;
        assert(out@ =~= seq!['"'] + escaped_all(s@, i as int));
    }
    out.push('"');
    assert(out@ =~= quoted(s@));
    out
}

/// The position after a sign at `at`, if there is one.
fn past_sign(cs: &Vec<char>, at: usize) -> (r: usize)
    requires
        at <= cs@.len(),
    ensures
        r == after_sign(cs@, at as int),
        at <= r <= cs@.len(),
{
    if at < cs.len() && (cs[at] == '+' || cs[at] == '-') {
        at + 1
    } else {
        at
    }
}

/// The position after the digits from `at` on.
fn past_digits(cs: &Vec<char>, at: usize) -> (r: usize)
    requires
        at <= cs@.len(),
    ensures
        r == after_digits(cs@, at as int),
        at <= r <= cs@.len(),
{
    let ghost digit = |c: char| text::is_digit(c);
    let mut i: usize = at;
    while i < cs.len() && '0' <= cs[i] && cs[i] <= '9'
        invariant
            at <= i <= cs@.len(),
            digit == |c: char| text::is_digit(c),
            text::skip_while(cs@, digit, at as int) == text::skip_while(cs@, digit, i as int),
        decreases cs@.len() - i,
    {
        i += 1;
    }
    i
}

/// Whether `word` stands in `cs` from `at` to the end, in any case.
fn is_word_from(cs: &Vec<char>, at: usize, word: &str) -> (r: bool)
    requires
        at <= cs@.len(),
    ensures
        r == (lower_from(cs@, at as int) == word@),
{
    let ws = text::chars_of(word);
    let total: usize = cs.len();
    if ws.len() != total - at {
        assert(lower_from(cs@, at as int).len() != word@.len());
        return false;
    }
    let mut i: usize = 0;
    while i < ws.len()
        invariant
            i <= ws@.len() == cs@.len() - at,
            at <= cs@.len() == total,
            ws@ == word@,
            forall|j: int| 0 <= j < i ==> lower_from(cs@, at as int)[j] == word@[j],
        decreases ws@.len() - i,
    {
        if text::lower(cs[at + i]) != ws[i] {
            assert(lower_from(cs@, at as int)[i as int] != word@[i as int]);
            return false;
        }
        i += 1;
    }
    assert(lower_from(cs@, at as int) =~= word@);
    true
}

/// Whether an exponent fills `cs` from `at` on, or nothing does.
fn is_exponent_or_end(cs: &Vec<char>, at: usize) -> (r: bool)
    requires
        at <= cs@.len(),
    ensures
        r == exponent_or_end(cs@, at as int),
{
    let n: usize = cs.len();
    if at == n {
        return true;
    }
    if cs[at] != 'e' && cs[at] != 'E' {
        return false;
    }
    let from: usize = past_sign(cs, at + 1);
    let end: usize = past_digits(cs, from);
    from < end && end == n
}

/// Whether a text is a decimal number.
fn is_decimal_number(cs: &Vec<char>) -> (r: bool)
    ensures
        r == decimal_number(cs@),
{
    let n: usize = cs.len();
    let from: usize = past_sign(cs, 0);
    if is_word_from(cs, from, "inf") || is_word_from(cs, from, "infinity") || is_word_from(
        cs,
        from,
        "nan",
    ) {
        return true;
    }
    let whole: usize = past_digits(cs, from);
    let dotted = whole < n && cs[whole] == '.';
    let end: usize = if dotted {
        past_digits(cs, whole + 1)
    } else {
        whole
    };
    (whole > from || (dotted && end > whole + 1)) && is_exponent_or_end(cs, end)
}

/// The value of a hexadecimal digit.
fn value_of_digit(c: char) -> (r: Option<u64>)
    ensures
        match r {
            Some(d) => digit_value(c) == Some(d as int) && d < 16,
            None => digit_value(c) is None,
        },
{
    let u: u32 = c as u32;
    if '0' <= c && c <= '9' {
        Some((u - 48) as u64)
    } else if 'a' <= c && c <= 'f' {
        Some((u - 87) as u64)
    } else if 'A' <= c && c <= 'F' {
        Some((u - 55) as u64)
    } else {
        None
    }
}

/// Whether `cs` is, from `at` on, a number to the radix.
fn is_radix_number(cs: &Vec<char>, at: usize, radix: u64) -> (r: bool)
    requires
        at <= cs@.len(),
    ensures
        r == radix_number(cs@, at as int, radix as int),
{
    let from: usize = past_sign(cs, at);
    if from >= cs.len() {
        return false;
    }
    let mut i: usize = from;
    while i < cs.len()
        invariant
            from <= i <= cs@.len(),
            from == after_sign(cs@, at as int),
            from < cs@.len(),
            forall|j: int|
                from <= j < i ==> digit_value(#[trigger] cs@[j]) is Some && digit_value(cs@[j])->0
                    < radix,
        decreases cs@.len() - i,
    {
        match value_of_digit(cs[i]) {
            Some(d) => {
                if d >= radix {
                    assert(digit_value(cs@[i as int])->0 >= radix);
                    return false;
                }
            },
            None => {
                assert(digit_value(cs@[i as int]) is None);
                return false;
            },
        }
        i += 1;
    }
    true
}

/// Whether `cs` is a number to the radix that a letter names.
fn is_lettered_number(cs: &Vec<char>, letter: char, radix: u64) -> (r: bool)
    ensures
        r == lettered_number(cs@, letter, radix as int),
{
    let from: usize = past_sign(cs, 0);
    let n: usize = cs.len();
    n - from > 1 && cs[from] == '0' && cs[from + 1] == letter && is_radix_number(
        cs,
        from + 2,
        radix,
    )
}

/// Whether YAML would read the text back as something other than a string.
fn resolves_to_non_string(s: &str) -> (r: bool)
    ensures
        r == non_string(s@),
{
    if text::equal(s, "null") || text::equal(s, "Null") || text::equal(s, "NULL") || text::equal(
        s,
        "~",
    ) || text::equal(s, "true") || text::equal(s, "True") || text::equal(s, "TRUE") || text::equal(
        s,
        "false",
    ) || text::equal(s, "False") || text::equal(s, "FALSE") {
        return true;
    }
    let cs = text::chars_of(s);
    let from: usize = past_sign(&cs, 0);
    let unsigned = text::string_of(&cs, from, cs.len());
    assert(unsigned@ =~= s@.skip(from as int));
    let word = unsigned.as_str();
    if text::equal(word, ".inf") || text::equal(word, ".Inf") || text::equal(word, ".INF")
        || text::equal(s, ".nan") || text::equal(s, ".NaN") || text::equal(s, ".NAN") {
        return true;
    }
    is_decimal_number(&cs) || is_lettered_number(&cs, 'x', 16) || is_lettered_number(&cs, 'o', 8)
        || is_lettered_number(&cs, 'b', 2)
}

/// Whether `c` cannot begin a plain scalar.
fn is_indicator(c: char) -> (r: bool)
    ensures
        r == indicator(c),
{
    c == ',' || c == '[' || c == ']' || c == '{' || c == '}' || c == '#' || c == '&' || c == '*'
        || c == '!' || c == '|' || c == '>' || c == '\'' || c == '"' || c == '%' || c == '@' || c
        == '`'
}

/// Whether a string survives being written plainly.
fn is_plain_safe(s: &str) -> (r: bool)
    ensures
        r == plain_safe(s@),
{
    let cs = text::chars_of(s);
    let n: usize = cs.len();
    if n == 0 || resolves_to_non_string(s) {
        return false;
    }
    if cs[0] == ' ' || cs[n - 1] == ' ' {
        return false;
    }
    let mut i: usize = 0;
    while i < n
        invariant
            i <= n == cs@.len(),
            cs@ == s@,
            forall|j: int| 0 <= j < i ==> !is_control(#[trigger] s@[j]) && !is_odd(s@[j]),
        decreases n - i,
    {
        if control(cs[i]) || odd(cs[i]) {
            assert(is_control(s@[i as int]) || is_odd(s@[i as int]));
            return false;
        }
        i += 1;
    }
    if (text::starts_with(s, "---") || text::starts_with(s, "...")) && (n == 3 || (n > 3 && cs[3]
        == ' ')) {
        return false;
    }
    proof {
        reveal_strlit("---");
        reveal_strlit("...");
    }
    let first: char = cs[0];
    // Leading indicators always force quoting, and these only when they would start a token.
    if is_indicator(first) {
        return false;
    }
    if (first == '-' || first == '?' || first == ':') && (n == 1 || cs[1] == ' ') {
        return false;
    }
    !(text::contains(s, ": ") || text::contains(s, " #") || cs[n - 1] == ':')
}

/// Writes a string plainly when YAML would read it back unchanged, else double-quoted.
pub fn plain_or_quoted(s: &str) -> (r: String)
    ensures
        r@ == scalar_of(s@),
{
    if is_plain_safe(s) {
        s.to_owned()
    } else {
        quote(s)
    }
}

/// Whether a collection is written as a block.
fn is_block(value: &Json) -> (r: bool)
    ensures
        r == block(value@),
{
    proof {
        lemma_json_view(*value);
    }
    match value {
        Json::List(items) => items.len() > 0,
        Json::Table(map) => map.len() > 0,
        _ => false,
    }
}

/// Writes a leaf, the empty collections among them.
fn leaf(value: &Json) -> (r: String)
    ensures
        r@ == leaf_text(value@),
{
    proof {
        lemma_json_view(*value);
    }
    match value {
        Json::Null => "null".to_owned(),
        Json::Bool(b) => if *b {
            "true".to_owned()
        } else {
            "false".to_owned()
        },
        Json::Number(n) => write_number(n),
        Json::Text(s) => plain_or_quoted(s.as_str()),
        Json::List(_) => "[]".to_owned(),
        Json::Table(_) => "{}".to_owned(),
    }
}

/// `s` without the spaces in front.
fn strip_lead(s: &str) -> (r: String)
    ensures
        r@ == without_lead(s@),
{
    let cs = text::chars_of(s);
    let ghost blank = |c: char| c == ' ';
    let mut from: usize = 0;
    while from < cs.len() && cs[from] == ' '
        invariant
            from <= cs@.len(),
            cs@ == s@,
            blank == |c: char| c == ' ',
            text::skip_while(s@, blank, 0) == text::skip_while(s@, blank, from as int),
        decreases cs@.len() - from,
    {
        from += 1;
    }
    assert(cs@.subrange(from as int, cs@.len() as int) == cs@.skip(from as int));
    text::string_of(&cs, from, cs.len())
}

/// Writes a collection as a block, each line behind `pad` and each level `step` deeper.
fn write_block(value: &Json, pad: &str, step: &str) -> (r: String)
    ensures
        r@ == block_text(value@, pad@, step@),
    decreases value, 0int,
{
    proof {
        lemma_json_view(*value);
    }
    match value {
        Json::Table(map) => write_mapping(map, pad, step),
        Json::List(items) => write_sequence(items, pad, step),
        _ => String::new(),
    }
}

/// Writes the entries of a map.
fn write_mapping(map: &OrderedMap<Json>, pad: &str, step: &str) -> (r: String)
    ensures
        r@ == mapping_text(table_view(map@), map@.len() as int, pad@, step@),
    decreases map, 1int,
{
    let ghost views = table_view(map@);
    let mut out = String::new();
    let mut i: usize = 0;
    while i < map.len()
        invariant
            i <= map@.len(),
            views == table_view(map@),
            out@ == mapping_text(views, i as int, pad@, step@),
        decreases map@.len() - i,
    {
        let value = map.value_at(i);
        assert(views[i as int] == (map@[i as int].0, value@));
        out.append(pad);
        out.append(plain_or_quoted(map.key_at(i)).as_str());
        if is_block(value) {
            out.append(":\n");
            let deeper = pad.to_owned().concat(step);
            proof {
                crate::value::lemma_value_is_smaller(*map, i as int);
            }
            out.append(write_block(value, deeper.as_str(), step).as_str());
        } else {
            out.append(": ");
            out.append(leaf(value).as_str());
            out.append("\n");
        }
        i += 1;
    }
    out
}

/// Writes the items of a list.
fn write_sequence(items: &Vec<Json>, pad: &str, step: &str) -> (r: String)
    ensures
        r@ == sequence_text(list_view(items@), items@.len() as int, pad@, step@),
    decreases items, 1int,
{
    let ghost views = list_view(items@);
    let mut out = String::new();
    let mut i: usize = 0;
    while i < items.len()
        invariant
            i <= items@.len(),
            views == list_view(items@),
            out@ == sequence_text(views, i as int, pad@, step@),
        decreases items@.len() - i,
    {
        let value = &items[i];
        assert(views[i as int] == value@);
        out.append(pad);
        out.append("- ");
        if is_block(value) {
            // The first key shares the dash's line; the rest align past it.
            let deeper = pad.to_owned().concat("  ");
            let nested = write_block(value, deeper.as_str(), step);
            out.append(strip_lead(nested.as_str()).as_str());
        } else {
            out.append(leaf(value).as_str());
            out.append("\n");
        }
        i += 1;
    }
    out
}

/// Renders a document as YAML, ending with a newline.
pub fn to_string(value: &Json, indent: usize) -> (r: String)
    ensures
        r@ == document_text(value@, indent as int),
{
    let width: usize = if indent > 1 {
        indent
    } else {
        1
    };
    let step = text::repeat(' ', width);
    if is_block(value) {
        proof {
            reveal_strlit("");
            assert(""@ =~= Seq::empty());
        }
        write_block(value, "", step.as_str())
    } else {
        leaf(value).concat("\n")
    }
}

/// Between double quotes stands no bare control character and no bare quote, so what is quoted
/// stays on its line and ends where it ends.
pub proof fn quoting_leaves_nothing_bare(c: char)
    ensures
        forall|i: int|
            0 <= i < escaped(c).len() ==> !is_control(#[trigger] escaped(c)[i]) && !is_odd(
                escaped(c)[i],
            ),
        escaped(c).contains('"') ==> escaped(c) == "\\\""@,
{
    reveal_strlit("\\\"");
    reveal_strlit("\\\\");
    reveal_strlit("\\n");
    reveal_strlit("\\r");
    reveal_strlit("\\t");
    reveal_strlit("\\x");
    reveal_strlit("\\u2028");
    reveal_strlit("\\u2029");
    reveal_strlit("\\ufeff");
    reveal_strlit("\\ufffe");
    reveal_strlit("\\uffff");
}

/// How characters are written goes from the front too.
proof fn lemma_escaped_front(s: Seq<char>, n: int)
    requires
        0 < n <= s.len(),
    ensures
        escaped_all(s, n) == escaped(s[0]) + escaped_all(s.skip(1), n - 1),
    decreases n,
{
    if n == 1 {
        assert(escaped_all(s, 0) =~= Seq::empty());
        assert(escaped_all(s.skip(1), 0) =~= Seq::empty());
        assert(escaped_all(s, 1) =~= escaped(s[0]));
        assert(escaped(s[0]) + Seq::<char>::empty() =~= escaped(s[0]));
    } else {
        lemma_escaped_front(s, n - 1);
        assert(s.skip(1)[n - 2] == s[n - 1]);
        assert((escaped(s[0]) + escaped_all(s.skip(1), n - 2)) + escaped(s[n - 1]) =~= escaped(s[0])
            + (escaped_all(s.skip(1), n - 2) + escaped(s[n - 1])));
    }
}

/// Values below sixteen have different digits.
proof fn lemma_hex_digit(a: int, b: int)
    requires
        0 <= a < 16,
        0 <= b < 16,
    ensures
        hex_digit(a) == hex_digit(b) ==> a == b,
{
}

/// How a character is written tells it from every other, whatever stands behind.
proof fn lemma_escaped_differs(c: char, d: char, x: Seq<char>, y: Seq<char>)
    requires
        escaped(c) + x == escaped(d) + y,
    ensures
        c == d,
        x == y,
{
    reveal_strlit("\\\"");
    reveal_strlit("\\\\");
    reveal_strlit("\\n");
    reveal_strlit("\\r");
    reveal_strlit("\\t");
    reveal_strlit("\\x");
    reveal_strlit("\\u2028");
    reveal_strlit("\\u2029");
    reveal_strlit("\\ufeff");
    reveal_strlit("\\ufffe");
    reveal_strlit("\\uffff");
    let left = escaped(c) + x;
    let right = escaped(d) + y;
    assert(escaped(c).len() > 0 && escaped(d).len() > 0);
    assert(left[0] == escaped(c)[0]);
    assert(right[0] == escaped(d)[0]);
    if escaped(c).len() > 1 && escaped(d).len() > 1 {
        assert(left[1] == escaped(c)[1]);
        assert(right[1] == escaped(d)[1]);
        if escaped(c).len() == 4 && escaped(d).len() == 4 {
            assert(left[2] == escaped(c)[2] && left[3] == escaped(c)[3]);
            assert(right[2] == escaped(d)[2] && right[3] == escaped(d)[3]);
            lemma_hex_digit(c as int / 16, d as int / 16);
            lemma_hex_digit(c as int % 16, d as int % 16);
            assert(escaped(c)[2] == hex_digit(c as int / 16));
            assert(escaped(c)[3] == hex_digit(c as int % 16));
            assert(escaped(d)[2] == hex_digit(d as int / 16));
            assert(escaped(d)[3] == hex_digit(d as int % 16));
            assert(c as int == c as int / 16 * 16 + c as int % 16);
            assert(d as int == d as int / 16 * 16 + d as int % 16);
            assert(c == d);
        }
        if escaped(c).len() == 6 && escaped(d).len() == 6 {
            assert(left[2] == escaped(c)[2] && left[5] == escaped(c)[5]);
            assert(right[2] == escaped(d)[2] && right[5] == escaped(d)[5]);
            assert(left[3] == escaped(c)[3] && right[3] == escaped(d)[3]);
            assert(c == d);
        }
    }
    assert(c == d);
    assert(x =~= left.skip(escaped(c).len() as int));
    assert(y =~= right.skip(escaped(d).len() as int));
}

/// Two texts that are written alike between double quotes are the same.
proof fn lemma_quoted_differs(a: Seq<char>, b: Seq<char>)
    requires
        escaped_all(a, a.len() as int) == escaped_all(b, b.len() as int),
    ensures
        a == b,
    decreases a.len(),
{
    if a.len() == 0 {
        if b.len() > 0 {
            lemma_escaped_front(b, b.len() as int);
            lemma_escaped_some(b[0]);
            assert(escaped_all(b, b.len() as int).len() > 0);
        }
        assert(a =~= b);
    } else {
        lemma_escaped_front(a, a.len() as int);
        lemma_escaped_some(a[0]);
        if b.len() == 0 {
            assert(escaped_all(a, a.len() as int).len() > 0);
        } else {
            lemma_escaped_front(b, b.len() as int);
            lemma_escaped_differs(
                a[0],
                b[0],
                escaped_all(a.skip(1), a.len() - 1),
                escaped_all(b.skip(1), b.len() - 1),
            );
            lemma_quoted_differs(a.skip(1), b.skip(1));
            assert(a =~= seq![a[0]] + a.skip(1));
            assert(b =~= seq![b[0]] + b.skip(1));
        }
    }
}

/// Every character is written as something.
proof fn lemma_escaped_some(c: char)
    ensures
        escaped(c).len() > 0,
{
    reveal_strlit("\\\"");
    reveal_strlit("\\\\");
    reveal_strlit("\\n");
    reveal_strlit("\\r");
    reveal_strlit("\\t");
    reveal_strlit("\\u2028");
    reveal_strlit("\\u2029");
    reveal_strlit("\\ufeff");
    reveal_strlit("\\ufffe");
    reveal_strlit("\\uffff");
}

/// Two different texts are never written alike.
pub proof fn different_texts_are_written_differently(a: Seq<char>, b: Seq<char>)
    requires
        a != b,
    ensures
        scalar_of(a) != scalar_of(b),
{
    if scalar_of(a) == scalar_of(b) {
        if plain_safe(a) && !plain_safe(b) {
            assert(a[0] == quoted(b)[0]);
        } else if !plain_safe(a) && plain_safe(b) {
            assert(b[0] == quoted(a)[0]);
        } else if !plain_safe(a) {
            let x = escaped_all(a, a.len() as int);
            let y = escaped_all(b, b.len() as int);
            assert(x =~= quoted(a).subrange(1, quoted(a).len() - 1));
            assert(y =~= quoted(b).subrange(1, quoted(b).len() - 1));
            lemma_quoted_differs(a, b);
        }
    }
}

/// What would be read back as something else is quoted: the words for nothing, true and false, numbers,
/// and text that is empty, begins with a mark of YAML's or with a space, ends with a colon or a space,
/// or holds what would end it.
pub proof fn what_would_be_misread_is_quoted(s: Seq<char>, i: int)
    requires
        ({
            ||| s.len() == 0
            ||| s == "null"@ || s == "true"@ || s == "false"@ || s == "~"@
            ||| forall|k: int| 0 <= k < s.len() ==> '0' <= #[trigger] s[k] && s[k] <= '9'
            ||| s[0] == ' ' || s[0] == '[' || s[0] == '{' || s[0] == '#' || s[0] == '*' || s[0] == '&'
                || s[0] == '!' || s[0] == '"' || s[0] == '\'' || s[0] == '@' || s[0] == '%'
            ||| s.last() == ':' || s.last() == ' '
            ||| s.len() > 1 && s[0] == '-' && s[1] == ' '
            ||| 0 <= i && i + 1 < s.len() && (s[i] == ':' && s[i + 1] == ' ' || s[i] == ' ' && s[i + 1]
                == '#')
            ||| 0 <= i < s.len() && (s[i] == '\n' || s[i] == '\t')
        }),
    ensures
        scalar_of(s) == quoted(s),
        scalar_of(s)[0] == '"' && scalar_of(s).last() == '"',
{
    reveal_strlit(": ");
    reveal_strlit(" #");
    if plain_safe(s) {
        text::lemma_find_from(s, ": "@, 0);
        text::lemma_find_from(s, " #"@, 0);
        if 0 <= i && i + 1 < s.len() {
            let pair = s.subrange(i, i + 2);
            assert(pair[0] == s[i] && pair[1] == s[i + 1]);
            if s[i] == ':' && s[i + 1] == ' ' {
                assert(pair =~= ": "@);
                assert(text::occurs_at(s, ": "@, i));
            }
            if s[i] == ' ' && s[i + 1] == '#' {
                assert(pair =~= " #"@);
                assert(text::occurs_at(s, " #"@, i));
            }
        }
        if forall|k: int| 0 <= k < s.len() ==> '0' <= #[trigger] s[k] && s[k] <= '9' {
            let digit = |c: char| text::is_digit(c);
            assert forall|k: int| 0 <= k < s.len() implies digit(#[trigger] s[k]) by {}
            assert('0' <= s[0] && s[0] <= '9');
            text::lemma_skip_to(s, digit, 0, s.len() as int);
            assert(decimal_number(s));
        }
        if 0 <= i < s.len() {
            assert(!is_control(s[i]));
        }
    }
}

/// A name made of letters, digits and a few marks that begins with a letter is written as it is, unless
/// it is one of the words that mean something else.
pub proof fn a_plain_name_is_written_as_it_is(s: Seq<char>)
    requires
        s.len() > 0,
        text::is_letter(s[0]),
        forall|i: int|
            0 <= i < s.len() ==> text::is_letter(#[trigger] s[i]) || text::is_digit(s[i]) || s[i] == '-'
                || s[i] == '_' || s[i] == '.' || s[i] == '/' || s[i] == '@',
        !reserved_word(s),
        lower_from(s, 0) != "inf"@,
        lower_from(s, 0) != "infinity"@,
        lower_from(s, 0) != "nan"@,
    ensures
        scalar_of(s) == s,
{
    reveal_strlit(": ");
    reveal_strlit(" #");
    reveal_strlit(".inf");
    reveal_strlit(".Inf");
    reveal_strlit(".INF");
    reveal_strlit(".nan");
    reveal_strlit(".NaN");
    reveal_strlit(".NAN");
    reveal_strlit("---");
    reveal_strlit("...");
    assert(s.skip(0) =~= s);
    assert(s[0] != '.' && s[0] != '-' && s[0] != '+');
    assert(after_sign(s, 0) == 0);
    let digit = |c: char| text::is_digit(c);
    text::lemma_skip_to(s, digit, 0, 0);
    assert(!decimal_number(s));
    assert(!special_number(s)) by {
        assert(".inf"@[0] == '.' && ".Inf"@[0] == '.' && ".INF"@[0] == '.' && ".nan"@[0] == '.'
            && ".NaN"@[0] == '.' && ".NAN"@[0] == '.');
    }
    assert(!document_marker(s)) by {
        if "---"@.is_prefix_of(s) {
            assert(s.subrange(0, 3)[0] == '-');
        }
        if "..."@.is_prefix_of(s) {
            assert(s.subrange(0, 3)[0] == '.');
        }
    }
    text::lemma_find_from(s, ": "@, 0);
    text::lemma_find_from(s, " #"@, 0);
    if let Some(at) = text::find_from(s, ": "@, 0) {
        assert(s.subrange(at, at + 2)[0] == ':');
        assert(s[at] == ':');
    }
    if let Some(at) = text::find_from(s, " #"@, 0) {
        assert(s.subrange(at, at + 2)[0] == ' ');
        assert(s[at] == ' ');
    }
    assert(s[s.len() - 1] != ':' && s[s.len() - 1] != ' ');
}

/// Between quotes a character stands for itself, but for those that cannot: a quote and a backslash
/// have one in front, and what is no text is told by its number.
pub proof fn a_character_is_escaped_where_it_has_to_be(c: char)
    ensures
        c != '"' && c != '\\' && !is_control(c) && !is_odd(c) ==> escaped(c) == seq![c],
        c == '"' || c == '\\' ==> escaped(c) == seq!['\\', c],
        is_control(c) || is_odd(c) ==> escaped(c).len() >= 2 && escaped(c)[0] == '\\',
        c == '\n' ==> escaped(c) == seq!['\\', 'n'],
        c == '\t' ==> escaped(c) == seq!['\\', 't'],
        c == '\r' ==> escaped(c) == seq!['\\', 'r'],
{
    reveal_strlit("\\\"");
    reveal_strlit("\\\\");
    reveal_strlit("\\n");
    reveal_strlit("\\r");
    reveal_strlit("\\t");
    reveal_strlit("\\x");
    reveal_strlit("\\u2028");
    reveal_strlit("\\u2029");
    reveal_strlit("\\ufeff");
    reveal_strlit("\\ufffe");
    reveal_strlit("\\uffff");
    if c == '"' {
        assert(escaped(c) =~= seq!['\\', c]);
    }
    if c == '\\' {
        assert(escaped(c) =~= seq!['\\', c]);
    }
    if c == '\n' {
        assert(escaped(c) =~= seq!['\\', 'n']);
    }
    if c == '\r' {
        assert(escaped(c) =~= seq!['\\', 'r']);
    }
    if c == '\t' {
        assert(escaped(c) =~= seq!['\\', 't']);
    }
}

/// A map is written a line for each key, in order, with the value behind the colon where it fits there;
/// a list a dash for each item. An empty one is written as such.
pub proof fn a_collection_is_written_in_order(
    map: Seq<(Seq<char>, JsonView)>,
    items: Seq<JsonView>,
    pad: Seq<char>,
    step: Seq<char>,
    n: int,
)
    ensures
        0 < n <= map.len() && !block(map[n - 1].1) ==> mapping_text(map, n, pad, step)
            == mapping_text(map, n - 1, pad, step) + pad + scalar_of(map[n - 1].0) + ": "@ + leaf_text(
            map[n - 1].1,
        ) + "\n"@,
        0 < n <= map.len() && block(map[n - 1].1) ==> mapping_text(map, n, pad, step)
            == mapping_text(map, n - 1, pad, step) + pad + scalar_of(map[n - 1].0) + ":\n"@
            + block_text(map[n - 1].1, pad + step, step),
        0 < n <= items.len() && !block(items[n - 1]) ==> sequence_text(items, n, pad, step)
            == sequence_text(items, n - 1, pad, step) + pad + "- "@ + leaf_text(items[n - 1]) + "\n"@,
        leaf_text(JsonView::Null) == "null"@,
        leaf_text(JsonView::Bool(true)) == "true"@,
        leaf_text(JsonView::Bool(false)) == "false"@,
        map.len() == 0 ==> leaf_text(JsonView::Table(map)) == "{}"@ && !block(JsonView::Table(map)),
        items.len() == 0 ==> leaf_text(JsonView::List(items)) == "[]"@ && !block(
            JsonView::List(items),
        ),
        map.len() > 0 ==> block(JsonView::Table(map)),
        items.len() > 0 ==> block(JsonView::List(items)),
{
}

} // verus!
