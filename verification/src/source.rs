//! Reading one operand of `install`.
//!
//! `install` takes any number of sources, each of which may carry its own version as
//! `source@version`. Splitting that is purely syntactic.

use vstd::prelude::*;
use crate::text;

verus! {

/// Where the tail of `s` begins: after its last slash.
pub open spec fn tail_start(s: Seq<char>) -> int {
    match text::last_index(s, '/', s.len() as int) {
        Some(at) => at + 1,
        None => 0,
    }
}

/// Where the `@` stands that separates a source from its version: the last one, if it comes after
/// the last slash and is not the first character.
pub open spec fn separator(s: Seq<char>) -> Option<int> {
    match text::last_index(s, '@', s.len() as int) {
        Some(at) => if at >= tail_start(s) && at > 0 {
            Some(at)
        } else {
            None
        },
        None => None,
    }
}

/// The two halves of `source@version`.
pub open spec fn split_spec(s: Seq<char>) -> (Seq<char>, Option<Seq<char>>) {
    match separator(s) {
        Some(at) => (
            s.take(at),
            if at + 1 < s.len() {
                Some(s.skip(at + 1))
            } else {
                None
            },
        ),
        None => (s, None),
    }
}

/// Splits `source@version` into its two halves.
///
/// The `@` has to fall after the last `/` to count as a separator, so a URL carrying userinfo
/// (`https://user@github.com/o/r`) keeps it, and it may not be the first character, so nothing is
/// split off an empty source. A separator with nothing after it names no version.
pub fn split(arg: &str) -> (r: (&str, Option<&str>))
    ensures
        r.0@ == split_spec(arg@).0,
        match r.1 {
            Some(version) => split_spec(arg@).1 == Some(version@),
            None => split_spec(arg@).1 is None,
        },
{
    let cs = text::chars_of(arg);
    let total: usize = cs.len();
    let tail: usize = match text::rfind_char(&cs, '/', total) {
        Some(at) => at + 1,
        None => 0,
    };
    match text::rfind_char(&cs, '@', total) {
        Some(at) => {
            if at < tail || at == 0 {
                return (arg, None);
            }
            assert(arg@.subrange(0, at as int) == arg@.take(at as int));
            assert(arg@.subrange(at + 1, total as int) == arg@.skip(at + 1));
            let source = arg.substring_char(0, at);
            if at + 1 < total {
                (source, Some(arg.substring_char(at + 1, total)))
            } else {
                (source, None)
            }
        },
        None => (arg, None),
    }
}

/// A hexadecimal digit.
pub open spec fn is_hex(c: char) -> bool {
    text::is_digit(c) || ('a' <= c && c <= 'f') || ('A' <= c && c <= 'F')
}

/// A whole commit hash.
pub open spec fn commit_sha(s: Seq<char>) -> bool {
    s.len() == 40 && forall|i: int| 0 <= i < s.len() ==> is_hex(#[trigger] s[i])
}

/// Only decimal digits, and at least one.
pub open spec fn number(s: Seq<char>) -> bool {
    s.len() > 0 && forall|i: int| 0 <= i < s.len() ==> text::is_digit(#[trigger] s[i])
}

/// A character of a prerelease or build suffix.
pub open spec fn suffix_char(c: char) -> bool {
    text::is_digit(c) || text::is_letter(c) || c == '.' || c == '-'
}

/// A prerelease or build suffix.
pub open spec fn suffix(s: Seq<char>) -> bool {
    s.len() > 0 && forall|i: int| 0 <= i < s.len() ==> suffix_char(#[trigger] s[i])
}

/// The first character at or after `from` that begins a suffix: `-` or `+`.
pub open spec fn number_end(s: Seq<char>) -> int {
    text::skip_while(s, |c: char| c != '-' && c != '+', 0)
}

/// `s` without one leading `v`.
pub open spec fn without_v(s: Seq<char>) -> Seq<char> {
    if s.len() > 0 && s[0] == 'v' {
        s.skip(1)
    } else {
        s
    }
}

/// `1.0`, `v1.0.0`, `1.0.0-beta.1`: numbers with at least one dot between them, and perhaps a
/// suffix.
pub open spec fn dotted_number(s: Seq<char>) -> bool {
    let core = without_v(s);
    let end = number_end(core);
    let parts = text::segments(core.take(end), '.');
    &&& end < core.len() ==> suffix(core.skip(end + 1))
    &&& core.take(end).contains('.')
    &&& forall|i: int| 0 <= i < parts.len() ==> number(#[trigger] parts[i])
}

/// Whether `arg` is a whole commit hash. Nothing shorter: `deadbee` is a plausible name.
fn is_commit_sha(arg: &str) -> (r: bool)
    ensures
        r == commit_sha(arg@),
{
    let cs = text::chars_of(arg);
    if cs.len() != 40 {
        return false;
    }
    let mut i: usize = 0;
    while i < cs.len()
        invariant
            i <= cs@.len(),
            cs@ == arg@,
            forall|j: int| 0 <= j < i ==> is_hex(#[trigger] arg@[j]),
        decreases cs@.len() - i,
    {
        let c: char = cs[i];
        if !(('0' <= c && c <= '9') || ('a' <= c && c <= 'f') || ('A' <= c && c <= 'F')) {
            assert(!is_hex(arg@[i as int]));
            return false;
        }
        i += 1;
    }
    true
}

/// Whether `s` is only decimal digits, and at least one.
fn is_number(s: &str) -> (r: bool)
    ensures
        r == number(s@),
{
    let cs = text::chars_of(s);
    let mut i: usize = 0;
    while i < cs.len()
        invariant
            i <= cs@.len(),
            cs@ == s@,
            forall|j: int| 0 <= j < i ==> text::is_digit(#[trigger] s@[j]),
        decreases cs@.len() - i,
    {
        let c: char = cs[i];
        if !('0' <= c && c <= '9') {
            assert(!text::is_digit(s@[i as int]));
            return false;
        }
        i += 1;
    }
    cs.len() > 0
}

/// Whether `s` is a prerelease or build suffix.
fn is_suffix(s: &str) -> (r: bool)
    ensures
        r == suffix(s@),
{
    let cs = text::chars_of(s);
    let mut i: usize = 0;
    while i < cs.len()
        invariant
            i <= cs@.len(),
            cs@ == s@,
            forall|j: int| 0 <= j < i ==> suffix_char(#[trigger] s@[j]),
        decreases cs@.len() - i,
    {
        let c: char = cs[i];
        if !(('0' <= c && c <= '9') || ('a' <= c && c <= 'z') || ('A' <= c && c <= 'Z') || c == '.'
            || c == '-') {
            assert(!suffix_char(s@[i as int]));
            return false;
        }
        i += 1;
    }
    cs.len() > 0
}

/// Whether `arg` is numbers with at least one dot between them: `v1` could be a name.
fn is_dotted_number(arg: &str) -> (r: bool)
    ensures
        r == dotted_number(arg@),
{
    let all = text::chars_of(arg);
    let core = if all.len() > 0 && all[0] == 'v' {
        assert(all@.subrange(1, all@.len() as int) == all@.skip(1));
        text::string_of(&all, 1, all.len())
    } else {
        arg.to_owned()
    };
    let cs = text::chars_of(core.as_str());
    let ghost plain = |c: char| c != '-' && c != '+';
    let mut end: usize = 0;
    while end < cs.len() && cs[end] != '-' && cs[end] != '+'
        invariant
            end <= cs@.len(),
            cs@ == core@,
            plain == |c: char| c != '-' && c != '+',
            text::skip_while(core@, plain, 0) == text::skip_while(core@, plain, end as int),
        decreases cs@.len() - end,
    {
        end += 1;
    }
    assert(end == number_end(core@));
    if end < cs.len() {
        assert(cs@.subrange(end + 1, cs@.len() as int) == cs@.skip(end + 1));
        let rest = text::string_of(&cs, end + 1, cs.len());
        if !is_suffix(rest.as_str()) {
            return false;
        }
    }
    assert(cs@.subrange(0, end as int) == cs@.take(end as int));
    let head = text::string_of(&cs, 0, end);
    if !text::contains_char(head.as_str(), '.') {
        return false;
    }
    let parts = text::split_on(head.as_str(), '.');
    let ghost views = text::segments(head@, '.');
    let mut i: usize = 0;
    while i < parts.len()
        invariant
            i <= parts@.len() == views.len(),
            text::texts(parts@) == views,
            views == text::segments(head@, '.'),
            core@ == without_v(arg@),
            head@ == core@.take(number_end(core@)),
            forall|j: int| 0 <= j < i ==> number(#[trigger] views[j]),
        decreases parts@.len() - i,
    {
        assert(parts@[i as int]@ == views[i as int]);
        if !is_number(parts[i].as_str()) {
            assert(!number(views[i as int]));
            return false;
        }
        i += 1;
    }
    true
}

/// A version rather than something that could name a repository.
pub open spec fn bare_version(s: Seq<char>) -> bool {
    commit_sha(s) || dotted_number(s)
}

/// Whether `arg` is a bare version rather than something that could name a repository.
///
/// Every operand of `install` is a source, so `vendor add owner/repo v1.0.0` would otherwise
/// search GitHub for a repository called `v1.0.0`.
pub fn looks_like_bare_version(arg: &str) -> (r: bool)
    ensures
        r == bare_version(arg@),
{
    is_commit_sha(arg) || is_dotted_number(arg)
}

/// A source and a version written with an `@` between them are read back as they were, where the
/// version holds neither `@` nor slash and neither of the two is empty.
pub proof fn split_undoes_join(source: Seq<char>, version: Seq<char>)
    requires
        source.len() > 0,
        version.len() > 0,
        !version.contains('@'),
        !version.contains('/'),
    ensures
        split_spec(source.push('@') + version) == (source, Some(version)),
{
    let s = source.push('@') + version;
    let n = s.len() as int;
    text::lemma_last_index(s, '@', n);
    text::lemma_last_index(s, '/', n);
    assert(s[source.len() as int] == '@');
    assert forall|i: int| source.len() < i < n implies s[i] != '@' && s[i] != '/' by {
        assert(s[i] == version[i - source.len() - 1]);
        assert(version.contains(s[i]));
    }
    assert(s.take(source.len() as int) == source);
    assert(s.skip((source.len() + 1) as int) == version);
}

/// An `@` before the last slash belongs to the URL.
pub proof fn an_at_sign_before_the_last_slash_is_kept(s: Seq<char>)
    requires
        text::last_index(s, '@', s.len() as int) is Some,
        text::last_index(s, '/', s.len() as int) is Some,
        text::last_index(s, '@', s.len() as int)->0 < text::last_index(s, '/', s.len() as int)->0,
    ensures
        split_spec(s) == (s, None::<Seq<char>>),
{
}

/// What an operand is split into makes it up again: a version stands behind the last `@` and holds
/// neither `@` nor slash, and neither of the two is empty. Without a version the source is the
/// operand, or the operand without an `@` at its end.
pub proof fn the_halves_make_up_the_operand(s: Seq<char>)
    ensures
        match split_spec(s) {
            (source, Some(version)) => source.push('@') + version == s && source.len() > 0
                && version.len() > 0 && !version.contains('@') && !version.contains('/'),
            (source, None) => source == s || (source.len() > 0 && source.push('@') == s),
        },
        !s.contains('@') ==> split_spec(s) == (s, None::<Seq<char>>),
{
    let n = s.len() as int;
    text::lemma_last_index(s, '@', n);
    text::lemma_last_index(s, '/', n);
    match separator(s) {
        Some(at) => {
            if at + 1 < n {
                let version = s.skip(at + 1);
                assert(s.take(at).push('@') + version =~= s);
                if version.contains('@') {
                    let i = version.index_of('@');
                    assert(s[at + 1 + i] == '@');
                }
                if version.contains('/') {
                    let i = version.index_of('/');
                    assert(s[at + 1 + i] == '/');
                }
            } else {
                assert(s.take(at).push('@') =~= s);
            }
            assert(s.contains(s[at]));
        },
        None => {},
    }
}

/// An `@` with nothing behind it names no version, and is no part of the source; one that stands
/// first separates nothing.
pub proof fn a_trailing_at_sign_names_no_version(source: Seq<char>)
    ensures
        source.len() > 0 ==> split_spec(source.push('@')) == (source, None::<Seq<char>>),
        !source.contains('@') ==> split_spec(seq!['@'] + source) == (
            seq!['@'] + source,
            None::<Seq<char>>,
        ),
{
    let s = source.push('@');
    let n = s.len() as int;
    text::lemma_last_index(s, '@', n);
    text::lemma_last_index(s, '/', n);
    assert(s[n - 1] == '@');
    assert(s.take(n - 1) =~= source);
    let t = seq!['@'] + source;
    text::lemma_last_index(t, '@', t.len() as int);
    if !source.contains('@') {
        assert(t[0] == '@');
        assert forall|i: int| 0 < i < t.len() implies t[i] != '@' by {
            assert(source.contains(source[i - 1]));
            assert(t[i] == source[i - 1]);
        }
    }
}

/// A whole commit hash is a version, and nothing with a slash is: a path always names a source. What
/// is no hash needs a dot.
pub proof fn a_path_is_no_version(s: Seq<char>)
    ensures
        s.len() == 40 && (forall|i: int|
            0 <= i < 40 ==> ('0' <= #[trigger] s[i] && s[i] <= '9') || ('a' <= s[i] && s[i] <= 'f')
                || ('A' <= s[i] && s[i] <= 'F')) ==> bare_version(s),
        bare_version(s) && s.len() != 40 ==> s.contains('.'),
        s.contains('/') ==> !bare_version(s),
{
    let core = without_v(s);
    let end = number_end(core);
    text::lemma_skip_while(core, |c: char| c != '-' && c != '+', 0);
    if dotted_number(s) {
        let head = core.take(end);
        let i = head.index_of('.');
        assert(core[i] == '.');
        assert(s.contains('.')) by {
            if s.len() > 0 && s[0] == 'v' {
                assert(s[i + 1] == '.');
            } else {
                assert(s[i] == '.');
            }
        }
    }
    if s.contains('/') && bare_version(s) {
        let at = s.index_of('/');
        if commit_sha(s) {
            assert(is_hex(s[at]));
        } else {
            let k = if s.len() > 0 && s[0] == 'v' {
                at - 1
            } else {
                at
            };
            assert(core[k] == '/');
            let head = core.take(end);
            if k < end {
                assert(head[k] == '/');
                let parts = text::segments(head, '.');
                text::lemma_joined_segments(head, '.');
                assert forall|i: int| 0 <= i < parts.len() implies !(#[trigger] parts[i]).contains(
                    '/',
                ) by {
                    assert(number(parts[i]));
                }
                text::lemma_joined_keep(parts, '.', '/');
                assert(head.contains('/'));
            } else if k > end {
                assert(core.skip(end + 1)[k - end - 1] == '/');
                assert(suffix(core.skip(end + 1)));
                assert(suffix_char(core.skip(end + 1)[k - end - 1]));
            }
        }
    }
}

/// Two numbers with a dot between them are a version, with or without a `v` in front and a suffix
/// behind a dash or a plus.
pub proof fn dotted_numbers_are_a_version(a: Seq<char>, b: Seq<char>, mark: char, end: Seq<char>)
    requires
        a.len() > 0,
        b.len() > 0,
        forall|i: int| 0 <= i < a.len() ==> '0' <= #[trigger] a[i] && a[i] <= '9',
        forall|i: int| 0 <= i < b.len() ==> '0' <= #[trigger] b[i] && b[i] <= '9',
        mark == '-' || mark == '+',
        end.len() > 0,
        forall|i: int| 0 <= i < end.len() ==> suffix_char(#[trigger] end[i]),
    ensures
        bare_version(a.push('.') + b),
        bare_version(seq!['v'] + (a.push('.') + b)),
        bare_version((a.push('.') + b).push(mark) + end),
        bare_version(seq!['v'] + ((a.push('.') + b).push(mark) + end)),
{
    let plain = a.push('.') + b;
    let full = plain.push(mark) + end;
    assert(full.take(plain.len() as int) =~= plain);
    assert(plain.take(plain.len() as int) =~= plain);
    lemma_dotted(a, b, plain);
    lemma_dotted(a, b, full);
    assert(plain[0] == a[0] && full[0] == a[0]);
    assert(full.skip((plain.len() + 1) as int) =~= end);
    assert((seq!['v'] + plain).skip(1) =~= plain);
    assert((seq!['v'] + full).skip(1) =~= full);
    assert(full[plain.len() as int] == mark);
    assert(number_end(full) == plain.len());
    assert(number_end(plain) == plain.len());
}

/// Where the numbers of a dotted pair end, and what they are.
proof fn lemma_dotted(a: Seq<char>, b: Seq<char>, s: Seq<char>)
    requires
        a.len() > 0,
        b.len() > 0,
        forall|i: int| 0 <= i < a.len() ==> '0' <= #[trigger] a[i] && a[i] <= '9',
        forall|i: int| 0 <= i < b.len() ==> '0' <= #[trigger] b[i] && b[i] <= '9',
        s.len() >= a.len() + 1 + b.len(),
        s.take((a.len() + 1 + b.len()) as int) == a.push('.') + b,
        s.len() > a.len() + 1 + b.len() ==> s[(a.len() + 1 + b.len()) as int] == '-' || s[(a.len()
            + 1 + b.len()) as int] == '+',
    ensures
        number_end(s) == a.len() + 1 + b.len(),
        (a.push('.') + b).contains('.'),
        text::segments(a.push('.') + b, '.') == seq![a, b],
        number(a),
        number(b),
{
    let plain = a.push('.') + b;
    let n = plain.len() as int;
    let free = |c: char| c != '-' && c != '+';
    assert(plain[a.len() as int] == '.');
    assert forall|i: int| 0 <= i < n implies free(#[trigger] s[i]) by {
        assert(s.take(n)[i] == s[i]);
        assert(plain[i] == s[i]);
        if i < a.len() {
            assert(plain[i] == a[i]);
        } else if i > a.len() {
            assert(plain[i] == b[i - a.len() - 1]);
        }
    }
    text::lemma_skip_to(s, free, 0, n);
    assert(!a.contains('.') && !b.contains('.'));
    text::lemma_segments_concat(a, b, '.');
    text::lemma_first_index(a, '.', 0);
    text::lemma_first_index(b, '.', 0);
    assert(text::segments(a, '.') =~= seq![a]) by {
        if let Some(at) = text::first_index(a, '.', 0) {
            assert(a.contains(a[at]));
        }
    }
    assert(text::segments(b, '.') =~= seq![b]) by {
        if let Some(at) = text::first_index(b, '.', 0) {
            assert(b.contains(b[at]));
        }
    }
    assert(seq![a] + seq![b] =~= seq![a, b]);
}

} // verus!
