//! String templating and URL helpers.
//!
//! Every substitution here replaces the first occurrence only.

use vstd::prelude::*;
use vstd::utf8::is_ascii_chars;
use crate::error::VendorError;
use crate::fsx::{behind_drive, without_drive};
use crate::model::Repository;
use crate::text;

verus! {

/// A bare `https://github.com/owner/repo` URL.
pub const GITHUB_URL: &'static str = "^https?://(?:www\\.)?github\\.com/[^/]+/[^/]+$";

/// Anything that holds `github.com/owner/repo`.
pub const REPO_PATH: &'static str = "github\\.com/([^/]+)/([^/]+)";

/// Three numbers with dots between them.
pub const SEMVER_CORE: &'static str = "\\d+\\.\\d+\\.\\d+";

/// `owner/repo`.
pub const OWNER_REPO_SHORTHAND: &'static str = "^[^/]+/[^/]+$";

/// Text that is not empty and has no slash.
pub open spec fn plain_name(s: Seq<char>) -> bool {
    s.len() > 0 && !s.contains('/')
}

/// Two names with a slash between them.
pub open spec fn owner_repo(s: Seq<char>) -> bool {
    exists|at: int|
        0 <= at < s.len() && #[trigger] s[at] == '/' && plain_name(s.take(at)) && plain_name(
            s.skip(at + 1),
        )
}

/// `start` and then an owner and a repository, and nothing else.
pub open spec fn owner_repo_after(s: Seq<char>, start: Seq<char>) -> bool {
    start.is_prefix_of(s) && owner_repo(s.skip(start.len() as int))
}

/// A bare URL of a repository on GitHub.
pub open spec fn github_url(s: Seq<char>) -> bool {
    ||| owner_repo_after(s, "https://github.com/"@)
    ||| owner_repo_after(s, "http://github.com/"@)
    ||| owner_repo_after(s, "https://www.github.com/"@)
    ||| owner_repo_after(s, "http://www.github.com/"@)
}

/// The end of the run of characters from `from` on that are no slash.
pub open spec fn name_end(s: Seq<char>, from: int) -> int {
    text::skip_while(s, |c: char| c != '/', from)
}

/// `github.com/` stands at `at`, with an owner and a repository behind it.
pub open spec fn repo_at(s: Seq<char>, at: int) -> bool {
    let from = at + "github.com/"@.len();
    let slash = name_end(s, from);
    &&& text::occurs_at(s, "github.com/"@, at)
    &&& slash > from
    &&& slash + 1 < s.len()
    &&& s[slash + 1] != '/'
}

/// The owner and the repository that first stand behind a `github.com/` at or after `from`.
pub open spec fn repo_from(s: Seq<char>, from: int) -> Option<(Seq<char>, Seq<char>)>
    decreases s.len() - from,
{
    if from < 0 || from >= s.len() {
        None
    } else if repo_at(s, from) {
        let owner = from + "github.com/"@.len();
        let slash = name_end(s, owner);
        Some((s.subrange(owner, slash), s.subrange(slash + 1, name_end(s, slash + 1))))
    } else {
        repo_from(s, from + 1)
    }
}

/// The end of the run of digits from `from` on.
pub open spec fn digits_end(s: Seq<char>, from: int) -> int {
    text::skip_while(s, |c: char| text::is_digit(c), from)
}

/// The end of the three dotted numbers that begin at `at`, where there are three.
pub open spec fn semver_end(s: Seq<char>, at: int) -> Option<int> {
    let first = digits_end(s, at);
    let second = digits_end(s, first + 1);
    let third = digits_end(s, second + 1);
    if at < first < s.len() && s[first] == '.' && first + 1 < second < s.len() && s[second] == '.'
        && second + 1 < third {
        Some(third)
    } else {
        None
    }
}

/// The first three dotted numbers at or after `from`.
pub open spec fn semver_from(s: Seq<char>, from: int) -> Option<Seq<char>>
    decreases s.len() - from,
{
    if from < 0 || from >= s.len() {
        None
    } else if semver_end(s, from) is Some {
        Some(s.subrange(from, semver_end(s, from)->0))
    } else {
        semver_from(s, from + 1)
    }
}

/// Whether `text` matches the regular expression `pattern`; `None` where that is no expression.
pub uninterp spec fn regex_is_match_result(pattern: Seq<char>, text: Seq<char>) -> Option<bool>;

/// The text of the first match of `pattern` in `text`.
pub uninterp spec fn regex_find_result(pattern: Seq<char>, text: Seq<char>) -> Option<Seq<char>>;

/// The texts of the first two groups of the first match of `pattern` in `text`.
pub uninterp spec fn regex_captures_result(
    pattern: Seq<char>,
    text: Seq<char>,
) -> Option<(Seq<char>, Seq<char>)>;

/// `regex::Regex::is_match`. A negated class matches any other character, and `^` and `$` match
/// the ends of the text, so the two expressions of this module match exactly the texts that
/// `github_url` and `owner_repo` describe.
#[verifier::external_body]
fn regex_is_match(pattern: &str, text: &str) -> (r: Option<bool>)
    ensures
        r == regex_is_match_result(pattern@, text@),
        pattern@ == GITHUB_URL@ ==> r == Some(github_url(text@)),
        pattern@ == OWNER_REPO_SHORTHAND@ ==> r == Some(owner_repo(text@)),
{
    match regex::Regex::new(pattern) {
        Ok(regex) => Some(regex.is_match(text)),
        Err(_) => None,
    }
}

/// `regex::Regex::find`, which gives the leftmost match and repeats greedily. `\d` matches any
/// decimal digit of Unicode, so what the expression of this module finds is stated for ASCII text.
#[verifier::external_body]
fn regex_find(pattern: &str, text: &str) -> (r: Option<String>)
    ensures
        text::text_of(r) == regex_find_result(pattern@, text@),
        pattern@ == SEMVER_CORE@ && is_ascii_chars(text@) ==> text::text_of(r) == semver_from(
            text@,
            0,
        ),
{
    match regex::Regex::new(pattern) {
        Ok(regex) => regex.find(text).map(|found| found.as_str().to_owned()),
        Err(_) => None,
    }
}

/// `regex::Regex::captures`, which gives the leftmost match and repeats greedily.
#[verifier::external_body]
fn regex_captures(pattern: &str, text: &str) -> (r: Option<(String, String)>)
    ensures
        text::pair_of(r) == regex_captures_result(pattern@, text@),
        pattern@ == REPO_PATH@ ==> text::pair_of(r) == repo_from(text@, 0),
{
    let regex = regex::Regex::new(pattern).ok()?;
    let found = regex.captures(text)?;
    Some((found.get(1)?.as_str().to_owned(), found.get(2)?.as_str().to_owned()))
}

/// Whether `url` is a bare `https://github.com/owner/repo` URL.
pub fn is_github_url(url: &str) -> (r: bool)
    ensures
        r == github_url(url@),
{
    match regex_is_match(GITHUB_URL, url) {
        Some(matches) => matches,
        None => false,
    }
}

/// Whether `source` is in `owner/repo` shorthand.
pub fn is_owner_repo_shorthand(source: &str) -> (r: bool)
    ensures
        r == owner_repo(source@),
{
    match regex_is_match(OWNER_REPO_SHORTHAND, source) {
        Some(matches) => matches,
        None => false,
    }
}

/// Extracts the owner and repository name from any URL that holds `github.com/owner/repo`.
pub fn owner_and_name_from_repo_url(url: &str) -> (r: Result<Repository, VendorError>)
    ensures
        match r {
            Ok(repository) => repo_from(url@, 0) == Some((repository.owner@, repository.name@)),
            Err(e) => repo_from(url@, 0) is None && (e matches VendorError::InvalidGitHubUrl(u)
                && u@ == url@),
        },
{
    match regex_captures(REPO_PATH, url) {
        Some((owner, name)) => Ok(Repository { owner, name }),
        None => Err(VendorError::InvalidGitHubUrl(url.to_owned())),
    }
}

/// `s` without any leading `prefix`.
pub open spec fn trim_start_spec(s: Seq<char>, prefix: Seq<char>) -> Seq<char>
    decreases s.len(),
{
    if prefix.len() > 0 && prefix.is_prefix_of(s) {
        trim_start_spec(s.skip(prefix.len() as int), prefix)
    } else {
        s
    }
}

/// `s` without any trailing `suffix`.
pub open spec fn trim_end_spec(s: Seq<char>, suffix: Seq<char>) -> Seq<char>
    decreases s.len(),
{
    if suffix.len() > 0 && suffix.is_suffix_of(s) {
        trim_end_spec(s.take(s.len() - suffix.len()), suffix)
    } else {
        s
    }
}

/// Strips every leading occurrence of `prefix`.
pub fn trim_start_matches_str<'a>(s: &'a str, prefix: &str) -> (r: &'a str)
    ensures
        r@ == trim_start_spec(s@, prefix@),
{
    let cs = text::chars_of(s);
    let ps = text::chars_of(prefix);
    let total: usize = cs.len();
    if ps.len() == 0 {
        return s;
    }
    let mut from: usize = 0;
    assert(s@.skip(0) == s@);
    while text::matches_at(&cs, &ps, from)
        invariant
            from <= cs@.len() == total,
            cs@ == s@,
            ps@ == prefix@,
            ps@.len() > 0,
            trim_start_spec(s@, prefix@) == trim_start_spec(s@.skip(from as int), prefix@),
        ensures
            !text::occurs_at(cs@, ps@, from as int),
        decreases cs@.len() - from,
    {
        assert(s@.skip(from as int).subrange(0, prefix@.len() as int) == s@.subrange(
            from as int,
            from + prefix@.len(),
        ));
        assert(s@.skip(from as int).skip(prefix@.len() as int) == s@.skip(from + prefix@.len()));
        from += ps.len();
    }
    assert(!prefix@.is_prefix_of(s@.skip(from as int))) by {
        if prefix@.is_prefix_of(s@.skip(from as int)) {
            assert(s@.subrange(from as int, from + prefix@.len()) == prefix@);
        }
    }
    assert(s@.subrange(from as int, s@.len() as int) == s@.skip(from as int));
    s.substring_char(from, total)
}

/// Strips every trailing occurrence of `suffix`.
pub fn trim_end_matches_str<'a>(s: &'a str, suffix: &str) -> (r: &'a str)
    ensures
        r@ == trim_end_spec(s@, suffix@),
{
    let cs = text::chars_of(s);
    let ps = text::chars_of(suffix);
    if ps.len() == 0 {
        return s;
    }
    let mut end: usize = cs.len();
    assert(s@.take(s@.len() as int) == s@);
    while end >= ps.len() && text::matches_at(&cs, &ps, end - ps.len())
        invariant
            end <= cs@.len(),
            cs@ == s@,
            ps@ == suffix@,
            ps@.len() > 0,
            trim_end_spec(s@, suffix@) == trim_end_spec(s@.take(end as int), suffix@),
        ensures
            end < ps@.len() || !text::occurs_at(cs@, ps@, end - ps@.len()),
        decreases end,
    {
        let ghost head = s@.take(end as int);
        assert(head.subrange(head.len() - suffix@.len(), head.len() as int) == s@.subrange(
            end - suffix@.len(),
            end as int,
        ));
        assert(head.take(head.len() - suffix@.len()) == s@.take(end - suffix@.len()));
        end -= ps.len();
    }
    assert(!suffix@.is_suffix_of(s@.take(end as int))) by {
        let head = s@.take(end as int);
        if suffix@.is_suffix_of(head) {
            assert(head.subrange(head.len() - suffix@.len(), head.len() as int) == s@.subrange(
                end - suffix@.len(),
                end as int,
            ));
        }
    }
    assert(s@.subrange(0, end as int) == s@.take(end as int));
    s.substring_char(0, end)
}

/// The value substituted for `{version}`, where `core` is the first `x.y.z` found in the tag.
pub open spec fn token_of(core: Option<Seq<char>>, version: Seq<char>) -> Seq<char> {
    match core {
        Some(found) => found,
        None => trim_start_spec(version, "v"@),
    }
}

/// The value substituted for `{version}`.
pub open spec fn version_token_spec(version: Seq<char>) -> Seq<char> {
    token_of(regex_find_result(SEMVER_CORE@, version), version)
}

/// The value substituted for `{version}`, where `core` is the first `x.y.z` found in the tag: that,
/// or the tag without leading `v`s.
pub fn token_from_core(core: Option<String>, version: &str) -> (r: String)
    ensures
        r@ == token_of(text::text_of(core), version@),
{
    match core {
        Some(found) => found,
        None => trim_start_matches_str(version, "v").to_owned(),
    }
}

/// The value substituted for `{version}`: the first `x.y.z` found in the tag, or the tag with
/// leading `v`s stripped.
pub fn version_token(version: &str) -> (r: String)
    ensures
        r@ == version_token_spec(version@),
        is_ascii_chars(version@) ==> r@ == token_of(semver_from(version@, 0), version@),
{
    token_from_core(regex_find(SEMVER_CORE, version), version)
}

/// Replaces the first `{version}` placeholder in `path`.
pub fn replace_version(path: &str, version: &str) -> (r: String)
    ensures
        r@ == text::replace_first_spec(path@, "{version}"@, version_token_spec(version@)),
        fills(path@, "{version}"@, version_token_spec(version@), r@),
        is_ascii_chars(version@) ==> r@ == text::replace_first_spec(
            path@,
            "{version}"@,
            token_of(semver_from(version@, 0), version@),
        ),
{
    let token = version_token(version);
    proof {
        a_placeholder_is_filled(path@, "{version}"@, token@);
    }
    text::replace_first(path, "{version}", token.as_str())
}

/// Replaces the first `{vendorFolder}` placeholder in `path`.
pub fn replace_vendor_folder(path: &str, vendor_folder: &str) -> (r: String)
    ensures
        r@ == text::replace_first_spec(path@, "{vendorFolder}"@, vendor_folder@),
{
    text::replace_first(path, "{vendorFolder}", vendor_folder)
}

/// `path` without the `{release}/` it begins with, if it does.
pub open spec fn without_release(path: Seq<char>) -> Seq<char> {
    if release_path(path) {
        path.skip("{release}/"@.len() as int)
    } else {
        path
    }
}

/// Strips the leading `{release}/` marker, if present.
pub fn strip_release_prefix(path: &str) -> (r: String)
    ensures
        r@ == without_release(path@),
{
    if !is_release_path(path) {
        return path.to_owned();
    }
    proof {
        reveal_strlit("{release}/");
    }
    let cs = text::chars_of(path);
    let rest = text::string_of(&cs, 10, cs.len());
    assert(rest@ =~= path@.skip(10));
    rest
}

/// `path` refers to a release asset rather than a repository file.
pub open spec fn release_path(path: Seq<char>) -> bool {
    "{release}/"@.is_prefix_of(path)
}

/// Whether `path` refers to a GitHub release asset rather than a repository file.
pub fn is_release_path(path: &str) -> (r: bool)
    ensures
        r == release_path(path@),
{
    text::starts_with(path, "{release}/")
}

/// The last piece between separators that is not empty, nothing where there is none. The drive that a
/// path of Windows may begin with is no part of it.
pub open spec fn basename_spec(windows: bool, path: Seq<char>) -> Seq<char> {
    let pieces = text::segments(behind_drive(windows, path), '/');
    match text::last_piece(
        pieces,
        |piece: Seq<char>| piece.len() == 0,
        pieces.len() as int,
    ) {
        Some(piece) => piece,
        None => Seq::empty(),
    }
}

/// The final component of a path, separators behind it left out.
pub fn basename(windows: bool, path: &str) -> (r: String)
    ensures
        r@ == basename_spec(windows, path@),
{
    let body = without_drive(windows, path);
    let pieces = text::split_on(body.as_str(), '/');
    let ghost all = text::segments(body@, '/');
    let ghost skip = |piece: Seq<char>| piece.len() == 0;
    let mut i: usize = pieces.len();
    while i > 0
        invariant
            i <= pieces@.len() == all.len(),
            text::texts(pieces@) == all,
            all == text::segments(behind_drive(windows, path@), '/'),
            skip == |piece: Seq<char>| piece.len() == 0,
            text::last_piece(all, skip, all.len() as int) == text::last_piece(all, skip, i as int),
        decreases i,
    {
        let piece = pieces[i - 1].as_str();
        assert(piece@ == all[i - 1]);
        if !piece.is_empty() {
            return piece.to_owned();
        }
        i -= 1;
    }
    String::new()
}

/// Only the first placeholder is replaced: whatever follows it stays as it is.
pub proof fn only_the_first_placeholder_is_replaced(
    before: Seq<char>,
    placeholder: Seq<char>,
    after: Seq<char>,
    with: Seq<char>,
)
    requires
        text::find_from(before + placeholder + after, placeholder, 0) == Some(before.len() as int),
    ensures
        text::replace_first_spec(before + placeholder + after, placeholder, with) == before + with
            + after,
{
    let s = before + placeholder + after;
    assert(s.take(before.len() as int) == before);
    assert(s.skip((before.len() + placeholder.len()) as int) == after);
}

/// Trims repeat until exhausted: what is left does not begin with the prefix.
pub proof fn trimmed_start_has_no_prefix(s: Seq<char>, prefix: Seq<char>)
    requires
        prefix.len() > 0,
    ensures
        !prefix.is_prefix_of(trim_start_spec(s, prefix)),
        trim_start_spec(s, prefix).is_suffix_of(s),
    decreases s.len(),
{
    if prefix.is_prefix_of(s) {
        trimmed_start_has_no_prefix(s.skip(prefix.len() as int), prefix);
        let rest = s.skip(prefix.len() as int);
        let left = trim_start_spec(s, prefix);
        assert(left == s.subrange(s.len() - left.len(), s.len() as int)) by {
            assert(left == rest.subrange(rest.len() - left.len(), rest.len() as int));
        }
    } else {
        assert(s == s.subrange(0, s.len() as int));
    }
}

/// Trims repeat until exhausted: what is left does not end with the suffix.
pub proof fn trimmed_end_has_no_suffix(s: Seq<char>, suffix: Seq<char>)
    requires
        suffix.len() > 0,
    ensures
        !suffix.is_suffix_of(trim_end_spec(s, suffix)),
        trim_end_spec(s, suffix).is_prefix_of(s),
    decreases s.len(),
{
    if suffix.is_suffix_of(s) {
        trimmed_end_has_no_suffix(s.take(s.len() - suffix.len()), suffix);
        let rest = s.take(s.len() - suffix.len());
        let left = trim_end_spec(s, suffix);
        assert(left == s.subrange(0, left.len() as int)) by {
            assert(left == rest.subrange(0, left.len() as int));
        }
    } else {
        assert(s == s.subrange(0, s.len() as int));
    }
}

/// Positions that no repository stands at are passed over.
proof fn lemma_repo_from(s: Seq<char>, from: int, to: int)
    requires
        0 <= from <= to <= s.len(),
        forall|at: int| from <= at < to ==> !#[trigger] repo_at(s, at),
    ensures
        repo_from(s, from) == repo_from(s, to),
    decreases to - from,
{
    if from < to {
        assert(!repo_at(s, from));
        lemma_repo_from(s, from + 1, to);
    }
}

/// The owner and the name in a URL that is `start` and then the two.
proof fn lemma_owner_and_name(url: Seq<char>, start: Seq<char>)
    requires
        owner_repo_after(url, start),
        start.len() >= "github.com/"@.len(),
        start.skip(start.len() - "github.com/"@.len()) == "github.com/"@,
        forall|i: int| 0 <= i < start.len() - "github.com/"@.len() ==> start[i] != 'g',
    ensures
        repo_from(url, 0) matches Some((owner, name)) && plain_name(owner) && plain_name(name)
            && url == start + owner + seq!['/'] + name,
{
    reveal_strlit("github.com/");
    let host = "github.com/"@;
    let at = start.len() - host.len();
    let from = start.len() as int;
    let rest = url.skip(from);
    let slash = choose|slash: int|
        0 <= slash < rest.len() && #[trigger] rest[slash] == '/' && plain_name(rest.take(slash))
            && plain_name(rest.skip(slash + 1));
    let owner = rest.take(slash);
    let name = rest.skip(slash + 1);
    assert(url =~= start + rest);
    assert forall|i: int| 0 <= i < at implies !#[trigger] repo_at(url, i) by {
        assert(url[i] == start[i]);
        if text::occurs_at(url, host, i) {
            assert(url.subrange(i, i + host.len())[0] == url[i]);
        }
    }
    lemma_repo_from(url, 0, at);
    assert(url.subrange(at, from) =~= start.skip(at));
    assert forall|i: int| from <= i < from + slash implies url[i] != '/' by {
        assert(owner[i - from] == url[i]);
        assert(owner.contains(owner[i - from]));
    }
    let free = |c: char| c != '/';
    text::lemma_skip_to(url, free, from, from + slash);
    assert forall|i: int| from + slash + 1 <= i < url.len() implies url[i] != '/' by {
        assert(name[i - from - slash - 1] == url[i]);
        assert(name.contains(name[i - from - slash - 1]));
    }
    text::lemma_skip_to(url, free, from + slash + 1, url.len() as int);
    assert(url.subrange(from, from + slash) =~= owner);
    assert(url.subrange(from + slash + 1, url.len() as int) =~= name);
    assert(url =~= start + owner + seq!['/'] + name);
}

/// A bare repository URL gives the owner and the name it was written with: both are plain names,
/// and the URL ends in `github.com/`, the owner, a slash and the name.
pub proof fn a_repository_url_gives_its_owner_and_name(url: Seq<char>)
    requires
        github_url(url),
    ensures
        repo_from(url, 0) matches Some((owner, name)) && plain_name(owner) && plain_name(name) && (
        "github.com/"@ + owner + seq!['/'] + name).is_suffix_of(url),
{
    reveal_strlit("github.com/");
    reveal_strlit("https://github.com/");
    reveal_strlit("http://github.com/");
    reveal_strlit("https://www.github.com/");
    reveal_strlit("http://www.github.com/");
    let start = if owner_repo_after(url, "https://github.com/"@) {
        "https://github.com/"@
    } else if owner_repo_after(url, "http://github.com/"@) {
        "http://github.com/"@
    } else if owner_repo_after(url, "https://www.github.com/"@) {
        "https://www.github.com/"@
    } else {
        "http://www.github.com/"@
    };
    let host = "github.com/"@;
    assert(start.skip(start.len() - host.len()) =~= host);
    lemma_owner_and_name(url, start);
    let (owner, name) = repo_from(url, 0)->0;
    let end = host + owner + seq!['/'] + name;
    assert(url.skip(url.len() - end.len()) =~= end);
}

/// A URL in which `github.com/` does not occur names no repository.
pub proof fn a_url_elsewhere_names_no_repository(url: Seq<char>)
    requires
        forall|at: int| !#[trigger] text::occurs_at(url, "github.com/"@, at),
    ensures
        repo_from(url, 0) is None,
{
    assert forall|at: int| 0 <= at < url.len() implies !#[trigger] repo_at(url, at) by {
        assert(!text::occurs_at(url, "github.com/"@, at));
    }
    lemma_repo_from(url, 0, url.len() as int);
}

/// `r` is `template` with the placeholder that stands first in it exchanged for `with`, and all the
/// rest as it is; `template` itself where the placeholder stands nowhere in it.
pub open spec fn fills(
    template: Seq<char>,
    placeholder: Seq<char>,
    with: Seq<char>,
    r: Seq<char>,
) -> bool {
    &&& forall|before: Seq<char>, after: Seq<char>|
        template == #[trigger] (before + placeholder + after) && (forall|i: int|
            0 <= i < before.len() ==> !#[trigger] text::occurs_at(template, placeholder, i))
            ==> r == before + with + after
    &&& (forall|i: int| !#[trigger] text::occurs_at(template, placeholder, i)) ==> r == template
}

/// Replacing a placeholder exchanges the first of it and leaves the rest.
pub proof fn a_placeholder_is_filled(
    template: Seq<char>,
    placeholder: Seq<char>,
    with: Seq<char>,
)
    ensures
        fills(
            template,
            placeholder,
            with,
            text::replace_first_spec(template, placeholder, with),
        ),
{
    text::lemma_find_from(template, placeholder, 0);
    assert forall|before: Seq<char>, after: Seq<char>|
        template == #[trigger] (before + placeholder + after) && (forall|i: int|
            0 <= i < before.len() ==> !#[trigger] text::occurs_at(template, placeholder, i)) implies
        text::replace_first_spec(template, placeholder, with) == before + with + after by {
        let at = before.len() as int;
        assert(template.subrange(at, at + placeholder.len()) =~= placeholder);
        assert(text::occurs_at(template, placeholder, at));
        assert(text::find_from(template, placeholder, 0) == Some(at));
        assert(template.take(at) =~= before);
        assert(template.skip(at + placeholder.len()) =~= after);
    }
}

/// What is filled in is settled: two texts that fill the same template in the same way are one.
pub proof fn what_fills_is_settled(
    template: Seq<char>,
    placeholder: Seq<char>,
    with: Seq<char>,
    r: Seq<char>,
)
    requires
        fills(template, placeholder, with, r),
    ensures
        r == text::replace_first_spec(template, placeholder, with),
{
    text::lemma_find_from(template, placeholder, 0);
    match text::find_from(template, placeholder, 0) {
        Some(at) => {
            let before = template.take(at);
            let after = template.skip(at + placeholder.len());
            assert(template =~= before + placeholder + after);
            assert(r == before + with + after);
        },
        None => {
            assert forall|i: int| !#[trigger] text::occurs_at(template, placeholder, i) by {}
        },
    }
}

/// Digits, at least one of them.
pub open spec fn digits(s: Seq<char>) -> bool {
    s.len() > 0 && forall|i: int| 0 <= i < s.len() ==> '0' <= #[trigger] s[i] && s[i] <= '9'
}

/// The version in a tag is its first three numbers with dots between them, whatever stands around
/// them.
pub proof fn a_tag_gives_its_numbers(
    head: Seq<char>,
    major: Seq<char>,
    minor: Seq<char>,
    patch: Seq<char>,
    tail: Seq<char>,
)
    requires
        forall|i: int| 0 <= i < head.len() ==> !('0' <= #[trigger] head[i] && head[i] <= '9'),
        digits(major),
        digits(minor),
        digits(patch),
        tail.len() > 0 ==> !('0' <= tail[0] && tail[0] <= '9'),
    ensures
        ({
            let core = major + seq!['.'] + minor + seq!['.'] + patch;
            let tag = head + core + tail;
            token_of(semver_from(tag, 0), tag) == core
        }),
{
    let core = major + seq!['.'] + minor + seq!['.'] + patch;
    let tag = head + core + tail;
    let digit = |c: char| text::is_digit(c);
    let at = head.len() as int;
    let first = at + major.len();
    let second = first + 1 + minor.len();
    let third = second + 1 + patch.len();
    assert forall|i: int| at <= i < first implies digit(#[trigger] tag[i]) by {
        assert(tag[i] == major[i - at]);
    }
    assert forall|i: int| first < i < second implies digit(#[trigger] tag[i]) by {
        assert(tag[i] == minor[i - first - 1]);
    }
    assert forall|i: int| second < i < third implies digit(#[trigger] tag[i]) by {
        assert(tag[i] == patch[i - second - 1]);
    }
    assert(tag[first] == '.' && tag[second] == '.');
    if third < tag.len() {
        assert(tag[third] == tail[0]);
    }
    text::lemma_skip_to(tag, digit, at, first);
    text::lemma_skip_to(tag, digit, first + 1, second);
    text::lemma_skip_to(tag, digit, second + 1, third);
    assert(semver_end(tag, at) == Some(third));
    assert(tag.subrange(at, third) =~= core);
    lemma_semver_behind(tag, 0, at);
}

/// Characters that are no digits begin no version.
proof fn lemma_semver_behind(s: Seq<char>, from: int, to: int)
    requires
        0 <= from <= to < s.len(),
        forall|i: int| from <= i < to ==> !text::is_digit(#[trigger] s[i]),
    ensures
        semver_from(s, from) == semver_from(s, to),
    decreases to - from,
{
    if from < to {
        assert(!text::is_digit(s[from]));
        assert(digits_end(s, from) == from);
        lemma_semver_behind(s, from + 1, to);
    }
}

/// A tag without a dot is the version itself, but for the `v`s in front of it.
pub proof fn a_tag_without_numbers_loses_its_vs(vs: Seq<char>, rest: Seq<char>)
    requires
        forall|i: int| 0 <= i < vs.len() ==> #[trigger] vs[i] == 'v',
        rest.len() > 0 ==> rest[0] != 'v',
        !rest.contains('.'),
    ensures
        token_of(semver_from(vs + rest, 0), vs + rest) == rest,
{
    let tag = vs + rest;
    assert forall|i: int| 0 <= i < tag.len() implies #[trigger] tag[i] != '.' by {
        if i >= vs.len() {
            assert(rest.contains(rest[i - vs.len()]));
        }
    }
    lemma_no_dots(tag, 0);
    lemma_vs(vs, rest);
}

/// Without dots there are no three numbers.
proof fn lemma_no_dots(s: Seq<char>, from: int)
    requires
        0 <= from,
        forall|i: int| 0 <= i < s.len() ==> #[trigger] s[i] != '.',
    ensures
        semver_from(s, from) is None,
    decreases s.len() - from,
{
    if from < s.len() {
        lemma_no_dots(s, from + 1);
    }
}

/// Every leading `v` is dropped.
proof fn lemma_vs(vs: Seq<char>, rest: Seq<char>)
    requires
        forall|i: int| 0 <= i < vs.len() ==> #[trigger] vs[i] == 'v',
        rest.len() > 0 ==> rest[0] != 'v',
    ensures
        trim_start_spec(vs + rest, "v"@) == rest,
    decreases vs.len(),
{
    reveal_strlit("v");
    let tag = vs + rest;
    if vs.len() > 0 {
        assert(tag.subrange(0, 1) =~= "v"@);
        assert(tag.skip(1) =~= vs.skip(1) + rest);
        lemma_vs(vs.skip(1), rest);
    } else {
        assert(tag =~= rest);
        if "v"@.is_prefix_of(rest) {
            assert(rest.subrange(0, 1)[0] == 'v');
        }
    }
}

/// What begins with `{release}/` is a release asset, named by what follows; nothing else is one.
pub proof fn a_release_asset_is_what_follows_the_marker(path: Seq<char>, name: Seq<char>)
    ensures
        release_path("{release}/"@ + name),
        without_release("{release}/"@ + name) == name,
        release_path(path) ==> path == "{release}/"@ + without_release(path),
        !release_path(path) ==> without_release(path) == path,
{
    reveal_strlit("{release}/");
    let marked = "{release}/"@ + name;
    assert(marked.subrange(0, 10) =~= "{release}/"@);
    assert(marked.skip(10) =~= name);
    if release_path(path) {
        assert(path =~= "{release}/"@ + path.skip(10));
    }
}

/// The base name of a path is what stands behind its last separator; separators at its end do not
/// count.
pub proof fn the_base_name_is_the_last_piece(front: Seq<char>, name: Seq<char>, slashes: Seq<char>)
    requires
        name.len() > 0,
        !name.contains('/'),
        front.len() > 0 ==> front.last() == '/',
        forall|i: int| 0 <= i < slashes.len() ==> #[trigger] slashes[i] == '/',
    ensures
        basename_spec(false, front + name + slashes) == name,
{
    let path = front + name + slashes;
    let empty = |piece: Seq<char>| piece.len() == 0;
    lemma_last_of(name, slashes);
    let tail = text::segments(name + slashes, '/');
    if front.len() > 0 {
        let stem = front.drop_last();
        assert(path =~= stem.push('/') + (name + slashes));
        text::lemma_segments_concat(stem, name + slashes, '/');
        lemma_last_behind(text::segments(stem, '/'), tail, tail.len() as int);
    } else {
        assert(path =~= name + slashes);
    }
}

/// The last piece that is not empty is found behind whatever stands in front.
proof fn lemma_last_behind(front: Seq<Seq<char>>, tail: Seq<Seq<char>>, n: int)
    requires
        0 <= n <= tail.len(),
        text::last_piece(tail, |piece: Seq<char>| piece.len() == 0, n) is Some,
    ensures
        text::last_piece(front + tail, |piece: Seq<char>| piece.len() == 0, front.len() + n)
            == text::last_piece(tail, |piece: Seq<char>| piece.len() == 0, n),
    decreases n,
{
    if n > 0 {
        assert((front + tail)[front.len() + n - 1] == tail[n - 1]);
        if tail[n - 1].len() == 0 {
            lemma_last_behind(front, tail, n - 1);
        }
    }
}

/// Separators behind a name add empty pieces only.
proof fn lemma_last_of(name: Seq<char>, slashes: Seq<char>)
    requires
        name.len() > 0,
        !name.contains('/'),
        forall|i: int| 0 <= i < slashes.len() ==> #[trigger] slashes[i] == '/',
    ensures
        ({
            let pieces = text::segments(name + slashes, '/');
            text::last_piece(pieces, |piece: Seq<char>| piece.len() == 0, pieces.len() as int)
                == Some(name)
        }),
    decreases slashes.len(),
{
    let all = name + slashes;
    if slashes.len() == 0 {
        assert(all =~= name);
        text::lemma_first_index(name, '/', 0);
        if text::first_index(name, '/', 0) is Some {
            assert(name.contains(name[text::first_index(name, '/', 0)->0]));
        }
        assert(text::segments(name, '/') =~= seq![name]);
        reveal_with_fuel(text::last_piece, 2);
    } else {
        let fewer = slashes.drop_last();
        let empty = Seq::<char>::empty();
        lemma_last_of(name, fewer);
        assert(all =~= (name + fewer).push('/') + empty);
        text::lemma_segments_concat(name + fewer, empty, '/');
        text::lemma_first_index(empty, '/', 0);
        assert(text::segments(empty, '/') =~= seq![empty]);
        let front = text::segments(name + fewer, '/');
        lemma_last_in_front(front, seq![empty], front.len() as int);
        assert((front + seq![empty])[front.len() as int] == empty);
    }
}

/// The last piece that is not empty among the first ones does not depend on what follows.
proof fn lemma_last_in_front(front: Seq<Seq<char>>, tail: Seq<Seq<char>>, n: int)
    requires
        0 <= n <= front.len(),
    ensures
        text::last_piece(front + tail, |piece: Seq<char>| piece.len() == 0, n) == text::last_piece(
            front,
            |piece: Seq<char>| piece.len() == 0,
            n,
        ),
    decreases n,
{
    if n > 0 {
        assert((front + tail)[n - 1] == front[n - 1]);
        lemma_last_in_front(front, tail, n - 1);
    }
}

/// Two names with a slash between them are a shorthand, and nothing else is: neither of the two is
/// empty, and neither holds another slash.
pub proof fn a_shorthand_is_two_names(owner: Seq<char>, name: Seq<char>, s: Seq<char>)
    ensures
        owner.len() > 0 && name.len() > 0 && !owner.contains('/') && !name.contains('/')
            ==> owner_repo(owner.push('/') + name),
        owner.contains('/') || owner.len() == 0 || name.len() == 0 ==> !owner_repo(
            owner.push('/') + name,
        ),
        !s.contains('/') ==> !owner_repo(s),
{
    let whole = owner.push('/') + name;
    let n = owner.len() as int;
    assert(whole[n] == '/');
    assert(whole.take(n) =~= owner);
    assert(whole.skip(n + 1) =~= name);
    if owner_repo(whole) {
        let at = choose|at: int|
            0 <= at < whole.len() && #[trigger] whole[at] == '/' && plain_name(whole.take(at))
                && plain_name(whole.skip(at + 1));
        if at > n {
            assert(whole.take(at)[n] == '/');
        } else if at < n {
            assert(whole.skip(at + 1)[n - at - 1] == '/');
        }
        assert(at == n);
    }
    if owner_repo(s) {
        let at = choose|at: int|
            0 <= at < s.len() && #[trigger] s[at] == '/' && plain_name(s.take(at)) && plain_name(
                s.skip(at + 1),
            );
        assert(s.contains(s[at]));
    }
}

/// A repository's URL is GitHub's address and a shorthand behind it, with or without `www.` and
/// whether or not the connection is secure; nothing may follow.
pub proof fn a_url_is_an_address_and_a_shorthand(shorthand: Seq<char>, url: Seq<char>)
    ensures
        owner_repo(shorthand) ==> github_url("https://github.com/"@ + shorthand) && github_url(
            "http://github.com/"@ + shorthand,
        ) && github_url("https://www.github.com/"@ + shorthand) && github_url(
            "http://www.github.com/"@ + shorthand,
        ),
        github_url(url) ==> exists|rest: Seq<char>|
            #[trigger] owner_repo(rest) && (url == "https://github.com/"@ + rest || url
                == "http://github.com/"@ + rest || url == "https://www.github.com/"@ + rest || url
                == "http://www.github.com/"@ + rest),
{
    lemma_address("https://github.com/"@, shorthand, url);
    lemma_address("http://github.com/"@, shorthand, url);
    lemma_address("https://www.github.com/"@, shorthand, url);
    lemma_address("http://www.github.com/"@, shorthand, url);
}

/// An address and what stands behind it.
proof fn lemma_address(start: Seq<char>, shorthand: Seq<char>, url: Seq<char>)
    ensures
        owner_repo(shorthand) ==> owner_repo_after(start + shorthand, start),
        owner_repo_after(url, start) ==> owner_repo(url.skip(start.len() as int)) && url == start
            + url.skip(start.len() as int),
{
    let whole = start + shorthand;
    assert(whole.subrange(0, start.len() as int) =~= start);
    assert(whole.skip(start.len() as int) =~= shorthand);
    if owner_repo_after(url, start) {
        assert(url.subrange(0, start.len() as int) == start);
        assert(url =~= start + url.skip(start.len() as int));
    }
}

} // verus!
