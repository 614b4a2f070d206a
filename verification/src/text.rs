//! Text as a sequence of characters, and the few operations on it that the rest needs.

use vstd::prelude::*;

verus! {

/// `String::push` appends one character to the end.
pub assume_specification[ String::push ](s: &mut String, c: char)
    ensures
        final(s)@ == old(s)@.push(c),
;

/// `pattern` stands in `s` from position `at` on.
pub open spec fn occurs_at(s: Seq<char>, pattern: Seq<char>, at: int) -> bool {
    0 <= at && at + pattern.len() <= s.len() && s.subrange(at, at + pattern.len()) == pattern
}

/// Where `pattern` first occurs in `s` at or after `from`.
pub open spec fn find_from(s: Seq<char>, pattern: Seq<char>, from: int) -> Option<int>
    decreases s.len() - from + 1,
{
    if from < 0 || from + pattern.len() > s.len() {
        None
    } else if occurs_at(s, pattern, from) {
        Some(from)
    } else {
        find_from(s, pattern, from + 1)
    }
}

/// `s` with the first `pattern` replaced; `s` itself where there is none.
pub open spec fn replace_first_spec(
    s: Seq<char>,
    pattern: Seq<char>,
    with: Seq<char>,
) -> Seq<char> {
    match find_from(s, pattern, 0) {
        Some(at) => s.take(at) + with + s.skip(at + pattern.len()),
        None => s,
    }
}

/// The last position before `end` that holds `c`.
pub open spec fn last_index(s: Seq<char>, c: char, end: int) -> Option<int>
    decreases end,
{
    if end <= 0 {
        None
    } else if s[end - 1] == c {
        Some(end - 1)
    } else {
        last_index(s, c, end - 1)
    }
}

/// The first position at or after `from` that holds `c`.
pub open spec fn first_index(s: Seq<char>, c: char, from: int) -> Option<int>
    decreases s.len() - from,
{
    if from < 0 || from >= s.len() {
        None
    } else if s[from] == c {
        Some(from)
    } else {
        first_index(s, c, from + 1)
    }
}

/// An ASCII decimal digit.
pub open spec fn is_digit(c: char) -> bool {
    '0' <= c && c <= '9'
}

/// An ASCII letter.
pub open spec fn is_letter(c: char) -> bool {
    ('a' <= c && c <= 'z') || ('A' <= c && c <= 'Z')
}

/// The digit character for a value below ten.
pub open spec fn digit_char(d: int) -> char {
    ('0' as int + d) as char
}

/// `n` in decimal, without leading zeros.
pub open spec fn decimal_spec(n: int) -> Seq<char>
    decreases n,
{
    if n < 10 {
        seq![digit_char(n)]
    } else {
        decimal_spec(n / 10).push(digit_char(n % 10))
    }
}

/// `c` in lower case where it is an ASCII capital, unchanged otherwise.
pub open spec fn lower_spec(c: char) -> char {
    if 'A' <= c && c <= 'Z' {
        (c as int + 32) as char
    } else {
        c
    }
}

/// `n` copies of `c`.
pub open spec fn repeated(c: char, n: nat) -> Seq<char> {
    Seq::new(n, |i: int| c)
}

/// What `find_from` gives is the first place the pattern stands, and `None` means it stands
/// nowhere from `from` on.
pub proof fn lemma_find_from(s: Seq<char>, pattern: Seq<char>, from: int)
    requires
        0 <= from,
    ensures
        match find_from(s, pattern, from) {
            Some(at) => {
                &&& from <= at
                &&& occurs_at(s, pattern, at)
                &&& forall|i: int| from <= i < at ==> !#[trigger] occurs_at(s, pattern, i)
            },
            None => forall|i: int| from <= i ==> !#[trigger] occurs_at(s, pattern, i),
        },
    decreases s.len() - from + 1,
{
    if from + pattern.len() > s.len() {
    } else if occurs_at(s, pattern, from) {
    } else {
        lemma_find_from(s, pattern, from + 1);
    }
}

/// What `last_index` gives is the last place `c` stands before `end`.
pub proof fn lemma_last_index(s: Seq<char>, c: char, end: int)
    requires
        end <= s.len(),
    ensures
        match last_index(s, c, end) {
            Some(at) => 0 <= at < end && s[at] == c && forall|i: int|
                at < i < end ==> s[i] != c,
            None => forall|i: int| 0 <= i < end ==> s[i] != c,
        },
    decreases end,
{
    if end > 0 && s[end - 1] != c {
        lemma_last_index(s, c, end - 1);
    }
}

/// What `first_index` gives is the first place `c` stands at or after `from`.
pub proof fn lemma_first_index(s: Seq<char>, c: char, from: int)
    requires
        0 <= from,
    ensures
        match first_index(s, c, from) {
            Some(at) => from <= at < s.len() && s[at] == c && forall|i: int|
                from <= i < at ==> s[i] != c,
            None => forall|i: int| from <= i < s.len() ==> s[i] != c,
        },
    decreases s.len() - from,
{
    if from < s.len() && s[from] != c {
        lemma_first_index(s, c, from + 1);
    }
}

/// The characters of `s`.
pub fn chars_of(s: &str) -> (r: Vec<char>)
    ensures
        r@ == s@,
{
    let mut r: Vec<char> = Vec::new();
    for c in it: s.chars()
        invariant
            r@ == it.seq().take(it.index()),
            it.seq() == s@,
    {
        r.push(c);
    }
    assert(r@ == s@);
    r
}

/// The characters from `from` up to `to`, as a string.
pub fn string_of(chars: &Vec<char>, from: usize, to: usize) -> (r: String)
    requires
        from <= to <= chars@.len(),
    ensures
        r@ == chars@.subrange(from as int, to as int),
{
    let mut r = String::new();
    let mut i: usize = from;
    while i < to
        invariant
            from <= i <= to <= chars@.len(),
            r@ == chars@.subrange(from as int, i as int),
        decreases to - i,
    {
        r.push(chars[i]);
        i += 1;
        assert(r@ == chars@.subrange(from as int, i as int));
    }
    r
}

/// Appends the characters from `from` up to `to`.
pub fn push_chars(out: &mut String, chars: &Vec<char>, from: usize, to: usize)
    requires
        from <= to <= chars@.len(),
    ensures
        final(out)@ == old(out)@ + chars@.subrange(from as int, to as int),
{
    let piece = string_of(chars, from, to);
    out.append(piece.as_str());
}

/// Whether two character sequences are the same.
pub fn same_chars(a: &Vec<char>, b: &Vec<char>) -> (r: bool)
    ensures
        r == (a@ == b@),
{
    if a.len() != b.len() {
        return false;
    }
    let mut i: usize = 0;
    while i < a.len()
        invariant
            i <= a@.len() == b@.len(),
            forall|j: int| 0 <= j < i ==> a@[j] == b@[j],
        decreases a@.len() - i,
    {
        if a[i] != b[i] {
            assert(a@[i as int] != b@[i as int]);
            return false;
        }
        i += 1;
    }
    assert(a@ == b@);
    true
}

/// Whether two texts are the same.
pub fn equal(a: &str, b: &str) -> (r: bool)
    ensures
        r == (a@ == b@),
{
    let a = chars_of(a);
    let b = chars_of(b);
    same_chars(&a, &b)
}

/// Whether `pattern` stands in `s` from `at` on.
pub fn matches_at(s: &Vec<char>, pattern: &Vec<char>, at: usize) -> (r: bool)
    ensures
        r == occurs_at(s@, pattern@, at as int),
{
    let total: usize = s.len();
    if at > total || pattern.len() > total - at {
        return false;
    }
    let mut i: usize = 0;
    while i < pattern.len()
        invariant
            i <= pattern@.len(),
            at + pattern@.len() <= s@.len() == total,
            forall|j: int| 0 <= j < i ==> s@[at + j] == pattern@[j],
        decreases pattern@.len() - i,
    {
        if s[at + i] != pattern[i] {
            assert(s@.subrange(at as int, at + pattern@.len())[i as int] != pattern@[i as int]);
            return false;
        }
        i += 1;
    }
    assert(s@.subrange(at as int, at + pattern@.len()) == pattern@);
    true
}

/// Whether `s` begins with `prefix`.
pub fn starts_with(s: &str, prefix: &str) -> (r: bool)
    ensures
        r == prefix@.is_prefix_of(s@),
{
    let cs = chars_of(s);
    let ps = chars_of(prefix);
    let r = matches_at(&cs, &ps, 0);
    assert(s@.len() >= prefix@.len() ==> (prefix@ == s@.subrange(0, prefix@.len() as int)) == r);
    r
}

/// Whether `s` ends with `suffix`.
pub fn ends_with(s: &str, suffix: &str) -> (r: bool)
    ensures
        r == suffix@.is_suffix_of(s@),
{
    let cs = chars_of(s);
    let ps = chars_of(suffix);
    if ps.len() > cs.len() {
        return false;
    }
    matches_at(&cs, &ps, cs.len() - ps.len())
}

/// Where `pattern` first occurs in `s` at or after `from`.
pub fn find_chars(s: &Vec<char>, pattern: &Vec<char>, from: usize) -> (r: Option<usize>)
    ensures
        match r {
            Some(at) => find_from(s@, pattern@, from as int) == Some(at as int) && at
                + pattern@.len() <= s@.len(),
            None => find_from(s@, pattern@, from as int) is None,
        },
{
    if from > s.len() || pattern.len() > s.len() - from {
        return None;
    }
    let last: usize = s.len() - pattern.len();
    let mut i: usize = from;
    while i <= last
        invariant
            from <= i <= last + 1,
            last == s@.len() - pattern@.len(),
            last < usize::MAX || i <= last,
            find_from(s@, pattern@, from as int) == find_from(s@, pattern@, i as int),
        ensures
            find_from(s@, pattern@, from as int) is None,
        decreases last + 1 - i,
    {
        if matches_at(s, pattern, i) {
            return Some(i);
        }
        if i == last {
            assert(find_from(s@, pattern@, i + 1) is None);
            break;
        }
        i += 1;
    }
    None
}

/// Whether `pattern` occurs anywhere in `s`.
pub fn contains(s: &str, pattern: &str) -> (r: bool)
    ensures
        r == (find_from(s@, pattern@, 0) is Some),
{
    let cs = chars_of(s);
    let ps = chars_of(pattern);
    find_chars(&cs, &ps, 0).is_some()
}

/// `s` with its first `pattern` replaced by `with`.
pub fn replace_first(s: &str, pattern: &str, with: &str) -> (r: String)
    ensures
        r@ == replace_first_spec(s@, pattern@, with@),
{
    let cs = chars_of(s);
    let ps = chars_of(pattern);
    match find_chars(&cs, &ps, 0) {
        Some(at) => {
            let total: usize = cs.len();
            let mut out = string_of(&cs, 0, at);
            out.append(with);
            push_chars(&mut out, &cs, at + ps.len(), total);
            assert(s@.subrange(0, at as int) == s@.take(at as int));
            assert(s@.subrange(at + pattern@.len(), s@.len() as int) == s@.skip(
                at + pattern@.len(),
            ));
            out
        },
        None => s.to_owned(),
    }
}

/// The last position before `end` that holds `c`.
pub fn rfind_char(s: &Vec<char>, c: char, end: usize) -> (r: Option<usize>)
    requires
        end <= s@.len(),
    ensures
        match r {
            Some(at) => last_index(s@, c, end as int) == Some(at as int) && at < end,
            None => last_index(s@, c, end as int) is None,
        },
{
    let mut i: usize = end;
    while i > 0
        invariant
            i <= end <= s@.len(),
            last_index(s@, c, end as int) == last_index(s@, c, i as int),
        decreases i,
    {
        if s[i - 1] == c {
            return Some(i - 1);
        }
        i -= 1;
    }
    None
}

/// The first position at or after `from` that holds `c`.
pub fn find_char(s: &Vec<char>, c: char, from: usize) -> (r: Option<usize>)
    ensures
        match r {
            Some(at) => first_index(s@, c, from as int) == Some(at as int) && from <= at < s@.len(),
            None => first_index(s@, c, from as int) is None,
        },
{
    let mut i: usize = from;
    while i < s.len()
        invariant
            from <= i,
            from <= s@.len() ==> i <= s@.len(),
            first_index(s@, c, from as int) == first_index(s@, c, i as int),
        decreases s@.len() - i,
    {
        if s[i] == c {
            return Some(i);
        }
        i += 1;
    }
    None
}

/// Whether `c` occurs anywhere in `s`.
pub fn contains_char(s: &str, c: char) -> (r: bool)
    ensures
        r == s@.contains(c),
{
    let cs = chars_of(s);
    let r = find_char(&cs, c, 0);
    proof {
        lemma_first_index(s@, c, 0);
    }
    r.is_some()
}

/// The digit character for a value below ten.
pub fn digit(d: u64) -> (r: char)
    requires
        d < 10,
    ensures
        r == digit_char(d as int),
{
    (48u8 + d as u8) as char
}

/// `n` in decimal.
pub fn decimal(n: u64) -> (r: String)
    ensures
        r@ == decimal_spec(n as int),
    decreases n,
{
    if n < 10 {
        let mut r = String::new();
        r.push(digit(n));
        assert(r@ == seq![digit_char(n as int)]);
        r
    } else {
        let mut r = decimal(n / 10);
        r.push(digit(n % 10));
        r
    }
}

/// `n` copies of `c`.
pub fn repeat(c: char, n: usize) -> (r: String)
    ensures
        r@ == repeated(c, n as nat),
{
    let mut r = String::new();
    let mut i: usize = 0;
    while i < n
        invariant
            i <= n,
            r@ == repeated(c, i as nat),
        decreases n - i,
    {
        r.push(c);
        i += 1;
        assert(r@ == repeated(c, i as nat));
    }
    r
}

/// `c` in ASCII lower case.
pub fn lower(c: char) -> (r: char)
    ensures
        r == lower_spec(c),
{
    if 'A' <= c && c <= 'Z' {
        ((c as u8) + 32) as char
    } else {
        c
    }
}

/// A copy of the texts.
pub fn clone_strings(v: &Vec<String>) -> (r: Vec<String>)
    ensures
        r@ == v@,
{
    let mut r: Vec<String> = Vec::new();
    let mut i: usize = 0;
    while i < v.len()
        invariant
            i <= v@.len(),
            r@ == v@.take(i as int),
        decreases v@.len() - i,
    {
        r.push(v[i].clone());
        i += 1;
        assert(r@ == v@.take(i as int));
    }
    assert(r@ == v@);
    r
}

/// The texts of a list of strings.
pub open spec fn texts(v: Seq<String>) -> Seq<Seq<char>> {
    Seq::new(v.len(), |i: int| v[i]@)
}

/// The text of an optional string.
pub open spec fn text_of(s: Option<String>) -> Option<Seq<char>> {
    match s {
        Some(s) => Some(s@),
        None => None,
    }
}

/// The text of an optional string slice.
pub open spec fn str_of(s: Option<&str>) -> Option<Seq<char>> {
    match s {
        Some(s) => Some(s@),
        None => None,
    }
}

/// The texts of an optional pair of strings.
pub open spec fn pair_of(s: Option<(String, String)>) -> Option<(Seq<char>, Seq<char>)> {
    match s {
        Some(s) => Some((s.0@, s.1@)),
        None => None,
    }
}

/// The first position at or after `from` whose character does not satisfy `p`; the length where
/// all do.
pub open spec fn skip_while(s: Seq<char>, p: spec_fn(char) -> bool, from: int) -> int
    decreases s.len() - from,
{
    if from < 0 || from >= s.len() || !p(s[from]) {
        from
    } else {
        skip_while(s, p, from + 1)
    }
}

/// The end of `s` up to `end` once trailing characters that satisfy `p` are dropped, but never
/// before `from`.
pub open spec fn back_while(s: Seq<char>, p: spec_fn(char) -> bool, from: int, end: int) -> int
    decreases end - from,
{
    if end <= from || !p(s[end - 1]) {
        end
    } else {
        back_while(s, p, from, end - 1)
    }
}

/// `s` without leading and trailing characters that satisfy `p`.
pub open spec fn trimmed(s: Seq<char>, p: spec_fn(char) -> bool) -> Seq<char> {
    let from = skip_while(s, p, 0);
    s.subrange(from, back_while(s, p, from, s.len() as int))
}

/// A character with the Unicode property `White_Space`.
pub open spec fn is_whitespace(c: char) -> bool {
    let u = c as u32;
    ||| 0x9 <= u <= 0xd
    ||| u == 0x20
    ||| u == 0x85
    ||| u == 0xa0
    ||| u == 0x1680
    ||| 0x2000 <= u <= 0x200a
    ||| u == 0x2028
    ||| u == 0x2029
    ||| u == 0x202f
    ||| u == 0x205f
    ||| u == 0x3000
}

/// The first line of `s`, without its line ending (a newline, or a carriage return and a
/// newline).
pub open spec fn first_line_spec(s: Seq<char>) -> Seq<char> {
    match first_index(s, '\n', 0) {
        Some(at) => if at > 0 && s[at - 1] == '\r' {
            s.take(at - 1)
        } else {
            s.take(at)
        },
        None => s,
    }
}

/// The first run of characters of `s` that are not white space; empty where there is none.
pub open spec fn first_word_spec(s: Seq<char>) -> Seq<char> {
    let from = skip_while(s, |c: char| is_whitespace(c), 0);
    s.subrange(from, skip_while(s, |c: char| !is_whitespace(c), from))
}

/// The first word of `s`, or `s` itself where it has none.
pub open spec fn first_word_or_all(s: Seq<char>) -> Seq<char> {
    if first_word_spec(s).len() > 0 {
        first_word_spec(s)
    } else {
        s
    }
}

/// `skip_while` stays between its start and the end, and stops at the first character that does
/// not satisfy `p`.
pub proof fn lemma_skip_while(s: Seq<char>, p: spec_fn(char) -> bool, from: int)
    requires
        0 <= from <= s.len(),
    ensures
        from <= skip_while(s, p, from) <= s.len(),
        forall|i: int| from <= i < skip_while(s, p, from) ==> p(#[trigger] s[i]),
        skip_while(s, p, from) < s.len() ==> !p(s[skip_while(s, p, from)]),
    decreases s.len() - from,
{
    if from < s.len() && p(s[from]) {
        lemma_skip_while(s, p, from + 1);
    }
}

/// `back_while` stays between its bounds, and what it drops all satisfies `p`.
pub proof fn lemma_back_while(s: Seq<char>, p: spec_fn(char) -> bool, from: int, end: int)
    requires
        0 <= from <= end <= s.len(),
    ensures
        from <= back_while(s, p, from, end) <= end,
        forall|i: int| back_while(s, p, from, end) <= i < end ==> p(#[trigger] s[i]),
        from < back_while(s, p, from, end) ==> !p(s[back_while(s, p, from, end) - 1]),
    decreases end - from,
{
    if from < end && p(s[end - 1]) {
        lemma_back_while(s, p, from, end - 1);
    }
}

/// Whether `c` has the Unicode property `White_Space`.
pub fn whitespace(c: char) -> (r: bool)
    ensures
        r == is_whitespace(c),
{
    let u: u32 = c as u32;
    (0x9 <= u && u <= 0xd) || u == 0x20 || u == 0x85 || u == 0xa0 || u == 0x1680 || (0x2000 <= u
        && u <= 0x200a) || u == 0x2028 || u == 0x2029 || u == 0x202f || u == 0x205f || u == 0x3000
}

/// The first line of `s`.
pub fn first_line(s: &str) -> (r: String)
    ensures
        r@ == first_line_spec(s@),
{
    let cs = chars_of(s);
    match find_char(&cs, '\n', 0) {
        Some(at) => {
            assert(cs@.subrange(0, at as int) == cs@.take(at as int));
            if at > 0 && cs[at - 1] == '\r' {
                assert(cs@.subrange(0, at - 1) == cs@.take(at - 1));
                string_of(&cs, 0, at - 1)
            } else {
                string_of(&cs, 0, at)
            }
        },
        None => s.to_owned(),
    }
}

/// The first word of `s`.
pub fn first_word(s: &str) -> (r: String)
    ensures
        r@ == first_word_spec(s@),
{
    let cs = chars_of(s);
    let ghost blank = |c: char| is_whitespace(c);
    let ghost inked = |c: char| !is_whitespace(c);
    let mut from: usize = 0;
    while from < cs.len() && whitespace(cs[from])
        invariant
            from <= cs@.len(),
            cs@ == s@,
            blank == |c: char| is_whitespace(c),
            skip_while(s@, blank, 0) == skip_while(s@, blank, from as int),
        decreases cs@.len() - from,
    {
        from += 1;
    }
    let mut to: usize = from;
    while to < cs.len() && !whitespace(cs[to])
        invariant
            from <= to <= cs@.len(),
            cs@ == s@,
            inked == |c: char| !is_whitespace(c),
            skip_while(s@, inked, from as int) == skip_while(s@, inked, to as int),
        decreases cs@.len() - to,
    {
        to += 1;
    }
    string_of(&cs, from, to)
}

/// What `s` splits into at each `c`.
pub open spec fn segments(s: Seq<char>, c: char) -> Seq<Seq<char>>
    decreases s.len(),
{
    match first_index(s, c, 0) {
        Some(at) => if 0 <= at < s.len() {
            seq![s.take(at)] + segments(s.skip(at + 1), c)
        } else {
            seq![s]
        },
        None => seq![s],
    }
}

/// The pieces from the last one before `n` that does not satisfy `skip` backwards: that piece.
pub open spec fn last_piece(
    pieces: Seq<Seq<char>>,
    skip: spec_fn(Seq<char>) -> bool,
    n: int,
) -> Option<Seq<char>>
    decreases n,
{
    if n <= 0 {
        None
    } else if !skip(pieces[n - 1]) {
        Some(pieces[n - 1])
    } else {
        last_piece(pieces, skip, n - 1)
    }
}

/// What `s` splits into at each `c`.
pub fn split_on(s: &str, c: char) -> (r: Vec<String>)
    ensures
        texts(r@) == segments(s@, c),
{
    let cs = chars_of(s);
    let total: usize = cs.len();
    let mut r: Vec<String> = Vec::new();
    let mut from: usize = 0;
    assert(texts(r@) + segments(s@.skip(0), c) =~= segments(s@, c)) by {
        assert(s@.skip(0) == s@);
    }
    loop
        invariant
            from <= cs@.len() == total,
            cs@ == s@,
            texts(r@) + segments(s@.skip(from as int), c) == segments(s@, c),
        decreases cs@.len() - from,
    {
        let ghost rest = s@.skip(from as int);
        proof {
            lemma_first_index(rest, c, 0);
            lemma_first_index(s@, c, from as int);
        }
        let ghost before = r@;
        match find_char(&cs, c, from) {
            Some(at) => {
                proof {
                    let k = first_index(rest, c, 0);
                    assert(rest[at - from] == c);
                    assert(k is Some);
                    assert(k->0 == at - from) by {
                        assert(s@[from + k->0] == c);
                    }
                    assert(rest.take(at - from) == s@.subrange(from as int, at as int));
                    assert(rest.skip(at - from + 1) == s@.skip(at + 1));
                }
                r.push(string_of(&cs, from, at));
                assert(texts(r@) =~= texts(before).push(s@.subrange(from as int, at as int)));
                assert(texts(r@) + segments(s@.skip(at + 1), c) =~= texts(before) + (seq![
                    rest.take(at - from),
                ] + segments(rest.skip(at - from + 1), c)));
                from = at + 1;
            },
            None => {
                proof {
                    assert(first_index(rest, c, 0) is None) by {
                        if first_index(rest, c, 0) is Some {
                            let k = first_index(rest, c, 0)->0;
                            assert(s@[from + k] == c);
                        }
                    }
                    assert(rest == s@.subrange(from as int, s@.len() as int));
                }
                r.push(string_of(&cs, from, cs.len()));
                assert(texts(r@) =~= texts(before) + seq![rest]);
                return r;
            },
        }
    }
}

/// The pieces with `c` between them.
pub open spec fn joined(pieces: Seq<Seq<char>>, c: char) -> Seq<char>
    decreases pieces.len(),
{
    if pieces.len() == 0 {
        Seq::empty()
    } else if pieces.len() == 1 {
        pieces[0]
    } else {
        joined(pieces.drop_last(), c).push(c) + pieces.last()
    }
}

/// The pieces with `c` between them.
pub fn join_with(pieces: &Vec<String>, c: char) -> (r: String)
    ensures
        r@ == joined(texts(pieces@), c),
{
    let ghost all = texts(pieces@);
    let mut r = String::new();
    let mut i: usize = 0;
    while i < pieces.len()
        invariant
            i <= pieces@.len(),
            all == texts(pieces@),
            r@ == joined(all.take(i as int), c),
        decreases pieces@.len() - i,
    {
        if i > 0 {
            r.push(c);
        }
        r.append(pieces[i].as_str());
        proof {
            let next = all.take(i + 1);
            assert(next.drop_last() =~= all.take(i as int));
            assert(next.last() == pieces@[i as int]@);
            if i == 0 {
                assert(r@ =~= next[0]);
            }
        }
        i += 1;
    }
    assert(all.take(i as int) =~= all);
    r
}

/// Splitting at a `c` that stands between two texts splits each of them.
pub proof fn lemma_segments_concat(a: Seq<char>, b: Seq<char>, c: char)
    ensures
        segments(a.push(c) + b, c) == segments(a, c) + segments(b, c),
    decreases a.len(),
{
    let whole = a.push(c) + b;
    lemma_first_index(a, c, 0);
    lemma_first_index(whole, c, 0);
    match first_index(a, c, 0) {
        Some(at) => {
            assert(whole[at] == c);
            assert forall|i: int| 0 <= i < at implies whole[i] != c by {
                assert(whole[i] == a[i]);
            }
            assert(first_index(whole, c, 0) == Some(at));
            assert(whole.take(at) == a.take(at));
            assert(whole.skip(at + 1) == a.skip(at + 1).push(c) + b);
            lemma_segments_concat(a.skip(at + 1), b, c);
            assert(segments(whole, c) =~= segments(a, c) + segments(b, c));
        },
        None => {
            assert(whole[a.len() as int] == c);
            assert forall|i: int| 0 <= i < a.len() implies whole[i] != c by {
                assert(whole[i] == a[i]);
            }
            assert(first_index(whole, c, 0) == Some(a.len() as int));
            assert(whole.take(a.len() as int) == a);
            assert(whole.skip((a.len() + 1) as int) == b);
        },
    }
}

/// Pieces without `c` are read back from their join as they were.
pub proof fn lemma_segments_joined(pieces: Seq<Seq<char>>, c: char)
    requires
        pieces.len() > 0,
        forall|i: int| 0 <= i < pieces.len() ==> !(#[trigger] pieces[i]).contains(c),
    ensures
        segments(joined(pieces, c), c) == pieces,
    decreases pieces.len(),
{
    let last = pieces.last();
    lemma_first_index(last, c, 0);
    assert(segments(last, c) =~= seq![last]) by {
        if first_index(last, c, 0) is Some {
            assert(last.contains(last[first_index(last, c, 0)->0]));
        }
    }
    if pieces.len() == 1 {
        assert(pieces =~= seq![last]);
    } else {
        let front = pieces.drop_last();
        assert forall|i: int| 0 <= i < front.len() implies !(#[trigger] front[i]).contains(c) by {
            assert(front[i] == pieces[i]);
        }
        lemma_segments_joined(front, c);
        lemma_segments_concat(joined(front, c), last, c);
        assert(pieces =~= front + seq![last]);
    }
}

/// No piece of a split holds the character it was split at.
pub proof fn lemma_segments_free(s: Seq<char>, c: char)
    ensures
        segments(s, c).len() > 0,
        forall|i: int| 0 <= i < segments(s, c).len() ==> !(#[trigger] segments(s, c)[i]).contains(c),
    decreases s.len(),
{
    lemma_first_index(s, c, 0);
    match first_index(s, c, 0) {
        Some(at) => {
            let rest = segments(s.skip(at + 1), c);
            lemma_segments_free(s.skip(at + 1), c);
            let all = segments(s, c);
            assert(all == seq![s.take(at)] + rest);
            assert(!s.take(at).contains(c));
            assert forall|i: int| 0 <= i < all.len() implies !(#[trigger] all[i]).contains(c) by {
                if i > 0 {
                    assert(all[i] == rest[i - 1]);
                }
            }
        },
        None => {},
    }
}

/// `s` with every `pattern` replaced, from left to right; `s` itself where the pattern is empty.
pub open spec fn replace_all_spec(
    s: Seq<char>,
    pattern: Seq<char>,
    with: Seq<char>,
) -> Seq<char>
    decreases s.len(),
{
    match find_from(s, pattern, 0) {
        Some(at) => if pattern.len() > 0 && 0 <= at && at + pattern.len() <= s.len() {
            s.take(at) + with + replace_all_spec(s.skip(at + pattern.len()), pattern, with)
        } else {
            s
        },
        None => s,
    }
}

/// `s` with every `pattern` replaced by `with`.
pub fn replace_all(s: &str, pattern: &str, with: &str) -> (r: String)
    ensures
        r@ == replace_all_spec(s@, pattern@, with@),
    decreases s@.len(),
{
    let cs = chars_of(s);
    let ps = chars_of(pattern);
    let total: usize = cs.len();
    match find_chars(&cs, &ps, 0) {
        Some(at) => {
            if ps.len() == 0 {
                return s.to_owned();
            }
            let mut out = string_of(&cs, 0, at);
            assert(s@.subrange(0, at as int) == s@.take(at as int));
            assert(s@.subrange(at + pattern@.len(), total as int) == s@.skip(at + pattern@.len()));
            let rest = string_of(&cs, at + ps.len(), total);
            out.append(with);
            out.append(replace_all(rest.as_str(), pattern, with).as_str());
            out
        },
        None => s.to_owned(),
    }
}

/// Pieces joined again are what was split.
pub proof fn lemma_joined_segments(s: Seq<char>, c: char)
    ensures
        joined(segments(s, c), c) == s,
    decreases s.len(),
{
    lemma_first_index(s, c, 0);
    lemma_segments_free(s, c);
    match first_index(s, c, 0) {
        Some(at) => {
            let rest = segments(s.skip(at + 1), c);
            lemma_joined_segments(s.skip(at + 1), c);
            lemma_segments_free(s.skip(at + 1), c);
            lemma_joined_first(segments(s, c), c);
            assert(segments(s, c).skip(1) =~= rest);
            assert(s =~= s.take(at).push(c) + s.skip(at + 1));
        },
        None => {},
    }
}

/// The first piece comes first in what is joined, and the others behind it.
pub proof fn lemma_joined_first(pieces: Seq<Seq<char>>, c: char)
    requires
        pieces.len() > 0,
    ensures
        joined(pieces, c) == if pieces.len() == 1 {
            pieces[0]
        } else {
            pieces[0].push(c) + joined(pieces.skip(1), c)
        },
    decreases pieces.len(),
{
    if pieces.len() == 2 {
        assert(pieces.drop_last() =~= seq![pieces[0]]);
        assert(pieces.skip(1) =~= seq![pieces[1]]);
        assert(joined(pieces.drop_last(), c) == pieces[0]);
        assert(joined(pieces.skip(1), c) == pieces[1]);
    } else if pieces.len() > 2 {
        let front = pieces.drop_last();
        lemma_joined_first(front, c);
        assert(front.skip(1) =~= pieces.skip(1).drop_last());
        assert(pieces.skip(1).last() == pieces.last());
        assert(front[0] == pieces[0]);
        assert(joined(pieces.skip(1), c) == joined(front.skip(1), c).push(c) + pieces.last());
        assert((pieces[0].push(c) + joined(front.skip(1), c)).push(c) + pieces.last()
            =~= pieces[0].push(c) + (joined(front.skip(1), c).push(c) + pieces.last()));
    }
}

/// Splitting brings in no character.
pub proof fn lemma_segments_keep(s: Seq<char>, c: char, x: char)
    requires
        !s.contains(x),
    ensures
        forall|i: int| 0 <= i < segments(s, c).len() ==> !(#[trigger] segments(s, c)[i]).contains(x),
    decreases s.len(),
{
    lemma_first_index(s, c, 0);
    match first_index(s, c, 0) {
        Some(at) => {
            let tail = s.skip(at + 1);
            assert(!tail.contains(x)) by {
                if tail.contains(x) {
                    assert(s[at + 1 + tail.index_of(x)] == x);
                }
            }
            lemma_segments_keep(tail, c, x);
            let rest = segments(tail, c);
            let all = segments(s, c);
            assert(all == seq![s.take(at)] + rest);
            assert forall|i: int| 0 <= i < all.len() implies !(#[trigger] all[i]).contains(x) by {
                if i == 0 {
                    if s.take(at).contains(x) {
                        assert(s[s.take(at).index_of(x)] == x);
                    }
                } else {
                    assert(all[i] == rest[i - 1]);
                }
            }
        },
        None => {},
    }
}

/// Joining brings in no character but the one between the pieces.
pub proof fn lemma_joined_keep(pieces: Seq<Seq<char>>, c: char, x: char)
    requires
        c != x,
        forall|i: int| 0 <= i < pieces.len() ==> !(#[trigger] pieces[i]).contains(x),
    ensures
        !joined(pieces, c).contains(x),
    decreases pieces.len(),
{
    if pieces.len() > 1 {
        let front = pieces.drop_last();
        assert forall|i: int| 0 <= i < front.len() implies !(#[trigger] front[i]).contains(x) by {
            assert(front[i] == pieces[i]);
        }
        lemma_joined_keep(front, c, x);
        let all = joined(pieces, c);
        let before = joined(front, c);
        assert(!pieces[pieces.len() - 1].contains(x));
        if all.contains(x) {
            let i = all.index_of(x);
            if i < before.len() {
                assert(before[i] == x);
            } else if i > before.len() {
                assert(pieces.last()[i - before.len() - 1] == x);
            }
        }
    } else if pieces.len() == 1 {
        assert(!pieces[0].contains(x));
    }
}

/// A run that satisfies `p` up to `end`, where it does not or nothing follows, ends there.
pub proof fn lemma_skip_to(s: Seq<char>, p: spec_fn(char) -> bool, from: int, end: int)
    requires
        0 <= from <= end <= s.len(),
        forall|i: int| from <= i < end ==> p(#[trigger] s[i]),
        end == s.len() || !p(s[end]),
    ensures
        skip_while(s, p, from) == end,
    decreases end - from,
{
    if from < end {
        assert(p(s[from]));
        lemma_skip_to(s, p, from + 1, end);
    }
}

/// `s` with backslashes turned into slashes.
pub open spec fn slashed(s: Seq<char>) -> Seq<char> {
    Seq::new(
        s.len(),
        |i: int|
            if s[i] == '\\' {
                '/'
            } else {
                s[i]
            },
    )
}

/// `s` with backslashes turned into slashes.
pub fn to_slashes(s: &str) -> (r: String)
    ensures
        r@ == slashed(s@),
{
    let cs = chars_of(s);
    let mut r = String::new();
    let mut i: usize = 0;
    while i < cs.len()
        invariant
            i <= cs@.len(),
            cs@ == s@,
            r@ == slashed(s@).take(i as int),
        decreases cs@.len() - i,
    {
        r.push(if cs[i] == '\\' {
            '/'
        } else {
            cs[i]
        });
        i += 1;
        assert(r@ == slashed(s@).take(i as int));
    }
    assert(r@ == slashed(s@));
    r
}

/// The value of the first `n` digits of a text.
pub open spec fn digits_value(s: Seq<char>, n: int) -> int
    decreases n,
{
    if n <= 0 {
        0
    } else {
        digits_value(s, n - 1) * 10 + (s[n - 1] as int - '0' as int)
    }
}

/// A text of digits and nothing else, at least one.
pub open spec fn all_digits(s: Seq<char>) -> bool {
    s.len() > 0 && forall|i: int| 0 <= i < s.len() ==> is_digit(#[trigger] s[i])
}

/// The number of at most `limit` that a text writes out in digits.
pub open spec fn number_of(s: Seq<char>, limit: int) -> Option<int> {
    if all_digits(s) && digits_value(s, s.len() as int) <= limit {
        Some(digits_value(s, s.len() as int))
    } else {
        None
    }
}

/// The number a text writes out in digits, with or without a plus sign in front.
pub open spec fn unsigned_of(s: Seq<char>) -> Option<int> {
    number_of(
        if s.len() > 0 && s[0] == '+' {
            s.skip(1)
        } else {
            s
        },
        u64::MAX as int,
    )
}

/// The value of some digits is no more than that of the same digits and those that follow.
proof fn lemma_digits_grow(s: Seq<char>, n: int, m: int)
    requires
        0 <= n <= m <= s.len(),
        forall|i: int| 0 <= i < s.len() ==> is_digit(#[trigger] s[i]),
    ensures
        0 <= digits_value(s, n) <= digits_value(s, m),
    decreases m,
{
    if n < m {
        lemma_digits_grow(s, n, m - 1);
        assert(is_digit(s[m - 1]));
    } else if n > 0 {
        lemma_digits_grow(s, n - 1, n - 1);
        assert(is_digit(s[n - 1]));
    }
}

/// Reads a number of at most `limit` from digits.
pub fn parse_number(s: &str, limit: u64) -> (r: Option<u64>)
    ensures
        match r {
            Some(n) => number_of(s@, limit as int) == Some(n as int),
            None => number_of(s@, limit as int) is None,
        },
{
    let cs = chars_of(s);
    if cs.len() == 0 {
        return None;
    }
    let mut i: usize = 0;
    while i < cs.len()
        invariant
            i <= cs@.len(),
            cs@ == s@,
            forall|k: int| 0 <= k < i ==> is_digit(#[trigger] s@[k]),
        decreases cs@.len() - i,
    {
        if !(cs[i] >= '0' && cs[i] <= '9') {
            assert(!is_digit(s@[i as int]));
            return None;
        }
        i += 1;
    }
    let mut n: u64 = 0;
    let mut j: usize = 0;
    while j < cs.len()
        invariant
            j <= cs@.len(),
            cs@ == s@,
            all_digits(s@),
            n <= limit,
            n == digits_value(s@, j as int),
        decreases cs@.len() - j,
    {
        assert(is_digit(s@[j as int]));
        let d: u64 = (cs[j] as u64) - 48;
        proof {
            lemma_digits_grow(s@, j as int + 1, s@.len() as int);
            assert(digits_value(s@, j as int + 1) == n * 10 + d);
        }
        if d > limit || n > (limit - d) / 10 {
            return None;
        }
        n = n * 10 + d;
        j += 1;
    }
    Some(n)
}

/// Reads a number from digits, with or without a plus sign in front.
pub fn parse_unsigned(s: &str) -> (r: Option<u64>)
    ensures
        match r {
            Some(n) => unsigned_of(s@) == Some(n as int),
            None => unsigned_of(s@) is None,
        },
{
    let cs = chars_of(s);
    let total: usize = cs.len();
    if total > 0 && cs[0] == '+' {
        let rest = string_of(&cs, 1, total);
        assert(s@.subrange(1, total as int) == s@.skip(1));
        parse_number(rest.as_str(), u64::MAX)
    } else {
        parse_number(s, u64::MAX)
    }
}

/// A text without a carriage return at its end.
pub open spec fn without_return(s: Seq<char>) -> Seq<char> {
    if s.len() > 0 && s.last() == '\r' {
        s.drop_last()
    } else {
        s
    }
}

/// The lines of a text: what its line feeds split it into, each without the carriage return in
/// front of its line feed, and without the empty text behind the last line feed.
pub open spec fn lines_spec(s: Seq<char>) -> Seq<Seq<char>> {
    let pieces = segments(s, '\n');
    let n = pieces.len() as int;
    let ended = Seq::new((n - 1) as nat, |i: int| without_return(pieces[i]));
    if pieces.last().len() == 0 {
        ended
    } else {
        ended.push(pieces.last())
    }
}

/// The lines of a text.
pub fn lines(s: &str) -> (r: Vec<String>)
    ensures
        texts(r@) == lines_spec(s@),
{
    let pieces = split_on(s, '\n');
    let ghost views = segments(s@, '\n');
    proof {
        lemma_segments_free(s@, '\n');
    }
    let last: usize = pieces.len() - 1;
    let mut r: Vec<String> = Vec::new();
    let mut i: usize = 0;
    while i < last
        invariant
            i <= last < pieces@.len(),
            views == texts(pieces@),
            r@.len() == i,
            forall|j: int| 0 <= j < i ==> (#[trigger] r@[j])@ == without_return(views[j]),
        decreases last - i,
    {
        let piece = pieces[i].as_str();
        assert(views[i as int] == piece@);
        let cs = chars_of(piece);
        let total: usize = cs.len();
        if total > 0 && cs[total - 1] == '\r' {
            assert(piece@.subrange(0, total - 1) == piece@.drop_last());
            r.push(string_of(&cs, 0, total - 1));
        } else {
            r.push(piece.to_owned());
        }
        i += 1;
    }
    let tail = pieces[last].as_str();
    assert(views.last() == tail@);
    if !tail.is_empty() {
        r.push(tail.to_owned());
    }
    assert(texts(r@) =~= lines_spec(s@));
    r
}

/// Pieces with a separator between each two.
pub open spec fn joined_by(pieces: Seq<Seq<char>>, separator: Seq<char>) -> Seq<char>
    decreases pieces.len(),
{
    if pieces.len() == 0 {
        Seq::empty()
    } else if pieces.len() == 1 {
        pieces[0]
    } else {
        joined_by(pieces.drop_last(), separator) + separator + pieces.last()
    }
}

/// Pieces with a separator between each two.
pub fn join_by(pieces: &Vec<String>, separator: &str) -> (r: String)
    ensures
        r@ == joined_by(texts(pieces@), separator@),
{
    let ghost all = texts(pieces@);
    let mut r = String::new();
    let mut i: usize = 0;
    assert(all.take(0) =~= Seq::empty());
    while i < pieces.len()
        invariant
            i <= pieces@.len(),
            all == texts(pieces@),
            r@ == joined_by(all.take(i as int), separator@),
        decreases pieces@.len() - i,
    {
        let ghost front = all.take(i as int);
        assert(all.take(i + 1).drop_last() =~= front);
        assert(all.take(i + 1).last() == pieces@[i as int]@);
        if i == 0 {
            assert(Seq::<char>::empty() + pieces@[0]@ =~= pieces@[0]@);
        } else {
            r.append(separator);
        }
        r.append(pieces[i].as_str());
        i += 1;
    }
    assert(all.take(i as int) =~= all);
    r
}

/// `s` without one `suffix` at its end.
pub open spec fn without_suffix(s: Seq<char>, suffix: Seq<char>) -> Seq<char> {
    if suffix.is_suffix_of(s) {
        s.take(s.len() - suffix.len())
    } else {
        s
    }
}

/// `s` without `suffix`, where it ends in it.
pub fn strip_suffix(s: &str, suffix: &str) -> (r: String)
    ensures
        r@ == without_suffix(s@, suffix@),
{
    let cs = chars_of(s);
    if ends_with(s, suffix) {
        let end: usize = cs.len() - chars_of(suffix).len();
        assert(cs@.subrange(0, end as int) == cs@.take(end as int));
        string_of(&cs, 0, end)
    } else {
        assert(cs@.subrange(0, cs@.len() as int) == cs@);
        string_of(&cs, 0, cs.len())
    }
}

/// A text in which the pattern does not stand at the front keeps its first character.
proof fn lemma_replace_keeps_one(s: Seq<char>, pattern: Seq<char>, with: Seq<char>)
    requires
        s.len() > 0,
        pattern.len() > 0,
        !occurs_at(s, pattern, 0),
    ensures
        replace_all_spec(s, pattern, with) == seq![s[0]] + replace_all_spec(
            s.skip(1),
            pattern,
            with,
        ),
{
    let rest = s.skip(1);
    let n = pattern.len() as int;
    lemma_find_from(s, pattern, 0);
    lemma_find_from(rest, pattern, 0);
    assert forall|i: int| 0 <= i implies occurs_at(s, pattern, i + 1) == #[trigger] occurs_at(
        rest,
        pattern,
        i,
    ) by {
        if i + n <= rest.len() {
            assert(rest.subrange(i, i + n) =~= s.subrange(i + 1, i + 1 + n));
        }
    }
    match find_from(s, pattern, 0) {
        Some(at) => {
            assert(occurs_at(s, pattern, (at - 1) + 1));
            assert(occurs_at(rest, pattern, at - 1));
            let found = find_from(rest, pattern, 0)->0;
            assert(occurs_at(s, pattern, found + 1));
            assert(found == at - 1);
            assert(rest.skip(found + n) =~= s.skip(at + n));
            assert(seq![s[0]] + rest.take(found) =~= s.take(at));
            let tail = replace_all_spec(s.skip(at + n), pattern, with);
            assert(seq![s[0]] + (rest.take(found) + with + tail) =~= s.take(at) + with + tail);
        },
        None => {
            if find_from(rest, pattern, 0) is Some {
                assert(occurs_at(s, pattern, find_from(rest, pattern, 0)->0 + 1));
            }
            assert(seq![s[0]] + rest =~= s);
        },
    }
}

/// Replacing leaves what stands before the pattern as it is: a front at none of whose characters the
/// pattern begins stays, and replacing goes on behind it.
pub proof fn replacing_leaves_the_rest(
    front: Seq<char>,
    s: Seq<char>,
    pattern: Seq<char>,
    with: Seq<char>,
)
    requires
        pattern.len() > 0,
        forall|i: int| 0 <= i < front.len() ==> !#[trigger] occurs_at(front + s, pattern, i),
    ensures
        replace_all_spec(front + s, pattern, with) == front + replace_all_spec(s, pattern, with),
    decreases front.len(),
{
    let whole = front + s;
    let tail = replace_all_spec(s, pattern, with);
    if front.len() == 0 {
        assert(whole =~= s);
        assert(front + tail =~= tail);
    } else {
        let fewer = front.skip(1);
        let n = pattern.len() as int;
        assert(whole.skip(1) =~= fewer + s);
        assert(!occurs_at(whole, pattern, 0));
        lemma_replace_keeps_one(whole, pattern, with);
        assert forall|i: int| 0 <= i < fewer.len() implies !#[trigger] occurs_at(
            fewer + s,
            pattern,
            i,
        ) by {
            assert(!occurs_at(whole, pattern, i + 1));
            if i + n <= (fewer + s).len() {
                assert((fewer + s).subrange(i, i + n) =~= whole.subrange(i + 1, i + 1 + n));
            }
        }
        replacing_leaves_the_rest(fewer, s, pattern, with);
        assert(seq![whole[0]] + (fewer + tail) =~= front + tail);
    }
}

/// Replacing exchanges each occurrence: one at the front is exchanged, and replacing goes on behind
/// it.
pub proof fn replacing_goes_on_behind(pattern: Seq<char>, s: Seq<char>, with: Seq<char>)
    requires
        pattern.len() > 0,
    ensures
        replace_all_spec(pattern + s, pattern, with) == with + replace_all_spec(s, pattern, with),
{
    let whole = pattern + s;
    let n = pattern.len() as int;
    lemma_find_from(whole, pattern, 0);
    assert(whole.subrange(0, n) =~= pattern);
    assert(occurs_at(whole, pattern, 0));
    assert(find_from(whole, pattern, 0) == Some(0int));
    assert(whole.skip(n) =~= s);
    assert(whole.take(0) + with =~= with);
}

/// A number that is read is within its limit.
pub proof fn a_number_is_in_range(s: Seq<char>, limit: int)
    ensures
        number_of(s, limit) matches Some(n) ==> 0 <= n <= limit,
{
    if all_digits(s) {
        lemma_digits_positive(s, s.len() as int);
    }
}

/// Digits make no negative number.
proof fn lemma_digits_positive(s: Seq<char>, n: int)
    requires
        0 <= n <= s.len(),
        all_digits(s),
    ensures
        digits_value(s, n) >= 0,
    decreases n,
{
    if n > 0 {
        lemma_digits_positive(s, n - 1);
        assert(is_digit(s[n - 1]));
    }
}

/// The value of the first digits does not look at what follows.
proof fn lemma_digits_front(s: Seq<char>, t: Seq<char>, n: int)
    requires
        0 <= n <= s.len(),
        n <= t.len(),
        forall|i: int| 0 <= i < n ==> s[i] == t[i],
    ensures
        digits_value(s, n) == digits_value(t, n),
    decreases n,
{
    if n > 0 {
        lemma_digits_front(s, t, n - 1);
    }
}

/// A number that is written out is read back as it was, and is refused where it is beyond the limit.
pub proof fn a_number_is_read_back(n: int, limit: int)
    requires
        0 <= n,
    ensures
        n <= limit ==> number_of(decimal_spec(n), limit) == Some(n),
        n > limit ==> number_of(decimal_spec(n), limit) is None,
{
    lemma_decimal_value(n);
}

/// The digits of a number have its value.
proof fn lemma_decimal_value(n: int)
    requires
        0 <= n,
    ensures
        all_digits(decimal_spec(n)),
        digits_value(decimal_spec(n), decimal_spec(n).len() as int) == n,
    decreases n,
{
    let s = decimal_spec(n);
    if n < 10 {
        reveal_with_fuel(digits_value, 2);
        assert(s.len() == 1 && s[0] == digit_char(n));
    } else {
        lemma_decimal_value(n / 10);
        let front = decimal_spec(n / 10);
        lemma_digits_front(front, s, front.len() as int);
        assert(s[front.len() as int] == digit_char(n % 10));
        assert forall|i: int| 0 <= i < s.len() implies is_digit(#[trigger] s[i]) by {
            if i < front.len() {
                assert(s[i] == front[i]);
                assert(is_digit(front[i]));
            }
        }
    }
}

} // verus!
