//! What is asked of GitHub, and what its answers mean.

pub mod auth;
pub mod credentials;

use vstd::prelude::*;
use vstd::string::*;
use crate::codec;
use crate::error::{is_rate_limited, one_line, one_line_spec, VendorError};
use crate::model::{fancy_refusal, regex_refusal, Repository};
use crate::text;
use crate::value::{Json, JsonView};

verus! {

/// Where GitHub's API is.
pub const API_ROOT: &'static str = "https://api.github.com";

/// The number of requests left below which a run is worth mentioning.
pub const LOW_QUOTA: u64 = 40;

/// How many bytes of an error body are read before it is given up on.
///
/// Generous next to any refusal GitHub actually sends, which is why exceeding it is taken as
/// evidence that whatever answered was not GitHub.
pub const MAX_ERROR_BODY: usize = 65536;

/// A byte that stands for itself in a URL component: a letter, a digit, or one of `-`, `.`, `_`
/// and `~`.
pub open spec fn unreserved(b: u8) -> bool {
    65 <= b <= 90 || 97 <= b <= 122 || 48 <= b <= 57 || b == 45 || b == 46 || b == 95 || b == 126
}

/// The upper-case hexadecimal digit of a value below sixteen.
pub open spec fn hex_digit(d: int) -> char {
    if d < 10 {
        (48 + d) as char
    } else {
        (55 + d) as char
    }
}

/// How one byte is written in a URL component.
pub open spec fn escaped(b: u8) -> Seq<char> {
    if unreserved(b) {
        seq![b as char]
    } else {
        seq!['%', hex_digit(b as int / 16), hex_digit(b as int % 16)]
    }
}

/// How the first `n` of some bytes are written in a URL component.
pub open spec fn escaped_all(bytes: Seq<u8>, n: int) -> Seq<char>
    decreases n,
{
    if n <= 0 {
        Seq::empty()
    } else {
        escaped_all(bytes, n - 1) + escaped(bytes[n - 1])
    }
}

/// A text as a URL component: its UTF-8 bytes, each escaped where it has to be.
pub open spec fn encode_spec(s: Seq<char>) -> Seq<char> {
    escaped_all(vstd::utf8::encode_utf8(s), vstd::utf8::encode_utf8(s).len() as int)
}

/// Each piece as a URL component.
pub open spec fn encode_each(pieces: Seq<Seq<char>>) -> Seq<Seq<char>> {
    Seq::new(pieces.len(), |i: int| encode_spec(pieces[i]))
}

/// A path whose pieces are URL components.
pub open spec fn encode_path_spec(path: Seq<char>) -> Seq<char> {
    text::joined(encode_each(text::segments(path, '/')), '/')
}

/// The upper-case hexadecimal digit of a value below sixteen.
fn hex(d: u8) -> (r: char)
    requires
        d < 16,
    ensures
        r == hex_digit(d as int),
{
    if d < 10 {
        (48 + d) as char
    } else {
        (55 + d) as char
    }
}

/// Percent-encodes a single URL component.
pub fn encode_query(value: &str) -> (r: String)
    ensures
        r@ == encode_spec(value@),
{
    let bytes = value.as_bytes();
    let mut out = String::new();
    let mut i: usize = 0;
    while i < bytes.len()
        invariant
            i <= bytes@.len(),
            bytes@ == vstd::utf8::encode_utf8(value@),
            out@ == escaped_all(bytes@, i as int),
        decreases bytes@.len() - i,
    {
        let b: u8 = bytes[i];
        let ghost before = out@;
        if (65 <= b && b <= 90) || (97 <= b && b <= 122) || (48 <= b && b <= 57) || b == 45 || b
            == 46 || b == 95 || b == 126 {
            out.push(b as char);
        } else {
            out.push('%');
            out.push(hex(b / 16));
            out.push(hex(b % 16));
        }
        assert(out@ =~= before + escaped(b));
        i += 1;
    }
    out
}

/// Percent-encodes a path, keeping `/` separators intact.
pub fn encode_path(path: &str) -> (r: String)
    ensures
        r@ == encode_path_spec(path@),
{
    let pieces = text::split_on(path, '/');
    let ghost views = text::segments(path@, '/');
    proof {
        text::lemma_segments_free(path@, '/');
    }
    let mut encoded: Vec<String> = Vec::new();
    let mut i: usize = 0;
    while i < pieces.len()
        invariant
            i <= pieces@.len(),
            views == text::texts(pieces@),
            encoded@.len() == i,
            forall|j: int| 0 <= j < i ==> (#[trigger] encoded@[j])@ == encode_spec(views[j]),
        decreases pieces@.len() - i,
    {
        let piece = encode_query(pieces[i].as_str());
        assert(views[i as int] == pieces@[i as int]@);
        encoded.push(piece);
        i += 1;
    }
    assert(text::texts(encoded@) =~= encode_each(views));
    text::join_with(&encoded, '/')
}

/// A character of an encoded component: one that stands for itself, or a percent sign.
pub open spec fn safe_char(c: char) -> bool {
    text::is_letter(c) || text::is_digit(c) || c == '-' || c == '.' || c == '_' || c == '~' || c
        == '%'
}

/// Nothing unsafe is left in an encoded component.
proof fn lemma_escaped_is_safe(bytes: Seq<u8>, n: int)
    requires
        n <= bytes.len(),
    ensures
        forall|i: int|
            0 <= i < escaped_all(bytes, n).len() ==> safe_char(#[trigger] escaped_all(bytes, n)[i]),
    decreases n,
{
    if n > 0 {
        lemma_escaped_is_safe(bytes, n - 1);
        let front = escaped_all(bytes, n - 1);
        let b = bytes[n - 1];
        let tail = escaped(b);
        assert(forall|i: int| 0 <= i < tail.len() ==> safe_char(#[trigger] tail[i]));
        let all = escaped_all(bytes, n);
        assert forall|i: int| 0 <= i < all.len() implies safe_char(#[trigger] all[i]) by {
            if i < front.len() {
                assert(all[i] == front[i]);
            } else {
                assert(all[i] == tail[i - front.len()]);
            }
        }
    }
}

/// Percent-encoding leaves nothing unsafe: letters, digits, `-`, `.`, `_`, `~` and percent signs
/// are all there is.
pub proof fn an_encoded_component_is_safe(s: Seq<char>)
    ensures
        forall|i: int| 0 <= i < encode_spec(s).len() ==> safe_char(#[trigger] encode_spec(s)[i]),
{
    let bytes = vstd::utf8::encode_utf8(s);
    lemma_escaped_is_safe(bytes, bytes.len() as int);
}

/// Percent-encoding a path keeps its separators: it splits into its pieces, each encoded.
pub proof fn path_encoding_keeps_the_separators(path: Seq<char>)
    ensures
        text::segments(encode_path_spec(path), '/') == encode_each(text::segments(path, '/')),
{
    let pieces = text::segments(path, '/');
    let encoded = encode_each(pieces);
    text::lemma_segments_free(path, '/');
    assert forall|i: int| 0 <= i < encoded.len() implies !(#[trigger] encoded[i]).contains('/') by {
        an_encoded_component_is_safe(pieces[i]);
        if encoded[i].contains('/') {
            let k = encoded[i].index_of('/');
            assert(safe_char(encode_spec(pieces[i])[k]));
        }
    }
    text::lemma_segments_joined(encoded, '/');
}

/// A reading of the core request limit.
#[derive(Debug, Clone, Copy, PartialEq, Eq)]
pub struct Quota {
    /// How many requests there are to an hour.
    pub limit: u64,
    /// How many of them are left.
    pub remaining: u64,
    /// When the window rolls over, as a Unix timestamp.
    pub reset: u64,
}

/// `a` less `b`, or nothing.
pub open spec fn less(a: int, b: int) -> int {
    if a >= b {
        a - b
    } else {
        0
    }
}

/// How long until a limit window rolls over, in words.
pub open spec fn resets_in_spec(reset: int, now: int) -> Seq<char> {
    if less(reset, now) < 60 {
        "resets in under a minute"@
    } else {
        "resets in "@ + text::decimal_spec(less(reset, now) / 60) + " min"@
    }
}

/// How long until a limit window rolls over, in words.
pub fn resets_in(reset: u64, now: u64) -> (r: String)
    ensures
        r@ == resets_in_spec(reset as int, now as int),
{
    let seconds: u64 = if reset >= now {
        reset - now
    } else {
        0
    };
    if seconds < 60 {
        return "resets in under a minute".to_owned();
    }
    let mut r = "resets in ".to_owned();
    r.append(text::decimal(seconds / 60).as_str());
    r.append(" min");
    r
}

/// What is said of a quota reading, if anything.
pub open spec fn quota_warning_spec(quota: Quota, spent: int, now: int) -> Option<Seq<char>> {
    let left = less(quota.remaining as int, spent);
    if quota.reset <= now || left >= LOW_QUOTA {
        None
    } else {
        Some(
            text::decimal_spec(left) + " of "@ + text::decimal_spec(quota.limit as int)
                + " GitHub API requests left this hour ("@ + resets_in_spec(
                quota.reset as int,
                now,
            )
                + "). Run `vendor login` or use a GITHUB_TOKEN env variable to raise the limit to 5000"@,
        )
    }
}

/// What to tell the user about a quota reading, if anything.
///
/// `spent` is what the run has charged since the reading was taken, which is what makes the
/// figure current rather than a snapshot from the start of the run. A window that has already
/// rolled over makes the reading meaningless.
pub fn quota_warning(quota: &Quota, spent: u64, now: u64) -> (r: Option<String>)
    ensures
        text::text_of(r) == quota_warning_spec(*quota, spent as int, now as int),
{
    if quota.reset <= now {
        return None;
    }
    let left: u64 = if quota.remaining >= spent {
        quota.remaining - spent
    } else {
        0
    };
    if left >= LOW_QUOTA {
        return None;
    }
    let mut r = text::decimal(left);
    r.append(" of ");
    r.append(text::decimal(quota.limit).as_str());
    r.append(" GitHub API requests left this hour (");
    r.append(resets_in(quota.reset, now).as_str());
    r.append(
        "). Run `vendor login` or use a GITHUB_TOKEN env variable to raise the limit to 5000",
    );
    Some(r)
}

/// What a run that made `requests` requests says of the reading taken alongside the first: the
/// others were spent since.
pub fn quota_report(quota: Option<Quota>, requests: u64, now: u64) -> (r: Option<String>)
    ensures
        text::text_of(r) == match quota {
            Some(quota) => quota_warning_spec(quota, less(requests as int, 1), now as int),
            None => None,
        },
{
    match quota {
        Some(quota) => {
            let spent: u64 = if requests >= 1 {
                requests - 1
            } else {
                0
            };
            quota_warning(&quota, spent, now)
        },
        None => None,
    }
}

/// A reading says something exactly when its window is open and fewer requests are left than the
/// threshold.
pub proof fn a_warning_means_a_low_budget(quota: Quota, spent: int, now: int)
    ensures
        quota_warning_spec(quota, spent, now) is Some <==> quota.reset > now && less(
            quota.remaining as int,
            spent,
        ) < LOW_QUOTA,
{
}

/// The more a run has spent, the sooner it is warned.
pub proof fn spending_never_silences_a_warning(quota: Quota, spent: int, more: int, now: int)
    requires
        spent <= more,
        quota_warning_spec(quota, spent, now) is Some,
    ensures
        quota_warning_spec(quota, more, now) is Some,
{
}

/// A failure by which GitHub says that a thing is not there.
pub open spec fn is_absence(error: VendorError) -> bool {
    error matches VendorError::RequestFailed { status, .. } && status == 404
}

/// What a failure is reported as: absence as what it was written for, the rest as it is.
pub open spec fn rewritten(error: VendorError, absent: VendorError) -> VendorError {
    if is_absence(error) {
        absent
    } else {
        error
    }
}

/// Rewrites a failure as the friendlier one it was written for, but only where GitHub actually
/// answered that the thing is not there.
///
/// A refused token or an exhausted quota reported as "release not found" would send the reader off
/// to check a tag that is perfectly fine, so every failure but a `404` is reported as itself.
pub fn unless_the_request_failed(error: VendorError, absent: VendorError) -> (r: VendorError)
    ensures
        r == rewritten(error, absent),
{
    match error {
        VendorError::RequestFailed { status: 404, .. } => absent,
        other => other,
    }
}

/// Whether a failed request for a repository says that it is not there. `None` where the request
/// could not be answered: a refused token, an exhausted quota, a `503`.
pub fn repository_exists(failure: Option<&VendorError>) -> (r: Option<bool>)
    ensures
        r == match failure {
            None => Some(true),
            Some(error) => if is_absence(*error) {
                Some(false)
            } else {
                None
            },
        },
{
    match failure {
        None => Some(true),
        Some(VendorError::RequestFailed { status: 404, .. }) => Some(false),
        Some(_) => None,
    }
}

/// What the headers of a refusal say of the request limit, if that is what it is about.
pub open spec fn rate_limit_spec(
    status: int,
    remaining: Option<Seq<char>>,
    limit: Option<Seq<char>>,
    reset: Option<Seq<char>>,
    now: int,
) -> Option<Seq<char>> {
    if (status == 403 || status == 429) && remaining is Some && limit is Some && reset is Some
        && text::unsigned_of(remaining->0) == Some(0int) && text::unsigned_of(limit->0) is Some
        && text::unsigned_of(reset->0) is Some {
        Some(
            " - 0 of "@ + text::decimal_spec(text::unsigned_of(limit->0)->0) + " left, "@
                + resets_in_spec(text::unsigned_of(reset->0)->0, now),
        )
    } else {
        None
    }
}

/// The number a header holds.
fn header_number(value: Option<&str>) -> (r: Option<u64>)
    ensures
        match r {
            Some(n) => value matches Some(s) && text::unsigned_of(s@) == Some(n as int),
            None => value matches Some(s) ==> text::unsigned_of(s@) is None,
        },
{
    match value {
        Some(s) => text::parse_unsigned(s),
        None => None,
    }
}

/// The specifics of an exhausted request limit, if that is what a refusal is.
///
/// The headers are what decide it: an exhausted limit answers that nothing remains, and a `403`
/// without that is some other refusal entirely, a bad token most likely.
pub fn rate_limit_detail(
    status: u16,
    remaining: Option<&str>,
    limit: Option<&str>,
    reset: Option<&str>,
    now: u64,
) -> (r: Option<String>)
    ensures
        text::text_of(r) == rate_limit_spec(
            status as int,
            text::str_of(remaining),
            text::str_of(limit),
            text::str_of(reset),
            now as int,
        ),
{
    if !(status == 403 || status == 429) {
        return None;
    }
    match (header_number(remaining), header_number(limit), header_number(reset)) {
        (Some(remaining), Some(limit), Some(reset)) => {
            if remaining > 0 {
                return None;
            }
            let mut r = " - 0 of ".to_owned();
            r.append(text::decimal(limit).as_str());
            r.append(" left, ");
            r.append(resets_in(reset, now).as_str());
            Some(r)
        },
        _ => None,
    }
}

/// What a refusal's body says, as one short line; empty where it says nothing usable.
pub open spec fn message_in(body: Result<JsonView, Seq<char>>) -> Seq<char> {
    match body {
        Ok(body) => match body.get("message"@) {
            Some(JsonView::Text(message)) => one_line_spec(message),
            _ => Seq::empty(),
        },
        Err(_) => Seq::empty(),
    }
}

/// What a refusal says, from its body as it was read.
pub fn message_of(body: Result<Json, String>) -> (r: String)
    ensures
        r@ == message_in(codec::read_view(body)),
{
    match body {
        Ok(body) => match body.get("message") {
            Some(message) => match message.as_text() {
                Some(message) => one_line(message),
                None => String::new(),
            },
            None => String::new(),
        },
        Err(_) => String::new(),
    }
}

/// What GitHub said about a refusal, as one short line, or nothing if it said nothing usable.
///
/// The message names the problem the status code only numbers. Anything else yields an empty
/// string rather than a wall of markup: a proxy's error page, a truncated body.
pub fn error_message(body: &str) -> (r: String)
    ensures
        r@ == message_in(codec::json_reading(body@)),
{
    message_of(codec::parse_json(body))
}

/// The error a refused request is reported as.
///
/// The headers come first: an exhausted limit says so there. A secondary limit leaves the
/// remaining count alone, so only the wording gives it away.
pub fn refused(status: u16, detail: Option<String>, message: String) -> (r: VendorError)
    ensures
        match detail {
            Some(detail) => r == VendorError::RateLimited(detail),
            None => if (status == 403 || status == 429) && text::find_from(
                crate::error::lowered(message@),
                "rate limit"@,
                0,
            ) is Some {
                r matches VendorError::RateLimited(what) && what@.len() == 0
            } else if status == 401 {
                r == VendorError::BadCredentials
            } else {
                r == (VendorError::RequestFailed { status, message })
            },
        },
{
    if let Some(detail) = detail {
        return VendorError::RateLimited(detail);
    }
    if is_rate_limited(status, message.as_str()) {
        return VendorError::RateLimited(String::new());
    }
    if status == 401 {
        return VendorError::BadCredentials;
    }
    VendorError::RequestFailed { status, message }
}

/// A refused token, an exhausted quota and an unwell server are reported as themselves, never as
/// something not being there.
pub proof fn only_absence_is_rewritten(error: VendorError, absent: VendorError)
    requires
        error is BadCredentials || error is RateLimited || error is Http || (
        error matches VendorError::RequestFailed { status, .. } && status != 404),
    ensures
        rewritten(error, absent) == error,
{
}

/// `/repos/` and the repository.
pub open spec fn repo_route(owner: Seq<char>, name: Seq<char>) -> Seq<char> {
    "/repos/"@ + owner + "/"@ + name
}

/// `/repos/` and the repository.
fn route(repo: &Repository) -> (r: String)
    ensures
        r@ == repo_route(repo.owner@, repo.name@),
{
    let mut r = "/repos/".to_owned();
    r.append(repo.owner.as_str());
    r.append("/");
    r.append(repo.name.as_str());
    r
}

/// The route that lists the most recent commit touching a path.
pub fn commits_route(repo: &Repository, path: &str) -> (r: String)
    ensures
        r@ == repo_route(repo.owner@, repo.name@) + "/commits?path="@ + encode_spec(path@)
            + "&per_page=1"@,
{
    let mut r = route(repo);
    r.append("/commits?path=");
    r.append(encode_query(path).as_str());
    r.append("&per_page=1");
    r
}

/// The commit of a file: the first that is listed.
pub fn first_commit(commits: Vec<String>, repo: &Repository, path: &str) -> (r: Result<
    String,
    VendorError,
>)
    ensures
        match r {
            Ok(sha) => commits@.len() > 0 && sha@ == commits@[0]@,
            Err(error) => commits@.len() == 0 && (error matches VendorError::NoCommitsFound {
                owner,
                repo: name,
                path: touched,
            } && owner@ == repo.owner@ && name@ == repo.name@ && touched@ == path@),
        },
{
    if commits.len() > 0 {
        Ok(commits[0].clone())
    } else {
        Err(
            VendorError::NoCommitsFound {
                owner: repo.owner.clone(),
                repo: repo.name.clone(),
                path: path.to_owned(),
            },
        )
    }
}

/// The address of a file of the repository, at a ref where one is given.
pub fn contents_url(repo: &Repository, path: &str, git_ref: Option<&str>) -> (r: String)
    ensures
        r@ == API_ROOT@ + repo_route(repo.owner@, repo.name@) + "/contents/"@ + encode_path_spec(
            path@,
        ) + if git_ref is Some && git_ref->0@.len() > 0 {
            "?ref="@ + encode_spec(git_ref->0@)
        } else {
            Seq::empty()
        },
{
    let mut r = API_ROOT.to_owned();
    r.append(route(repo).as_str());
    r.append("/contents/");
    r.append(encode_path(path).as_str());
    let ghost plain = r@;
    if let Some(git_ref) = git_ref {
        if !git_ref.is_empty() {
            r.append("?ref=");
            r.append(encode_query(git_ref).as_str());
            assert(r@ =~= plain + ("?ref="@ + encode_spec(git_ref@)));
            return r;
        }
    }
    assert(plain + Seq::<char>::empty() =~= plain);
    r
}

/// A file of a release.
#[derive(Debug, Clone, PartialEq, Eq)]
pub struct Asset {
    /// GitHub's own number for it.
    pub id: u64,
    /// What it is called.
    pub name: String,
    /// How many bytes it has.
    pub size: i64,
}

/// A release.
#[derive(Debug, Clone, PartialEq, Eq)]
pub struct Release {
    /// Where it is.
    pub url: String,
    /// The tag it was made from.
    pub tag_name: String,
    /// Its title.
    pub name: Option<String>,
    /// Its files.
    pub assets: Vec<Asset>,
}

/// The position at or after `from` of the asset with this name.
pub open spec fn asset_index(assets: Seq<Asset>, name: Seq<char>, from: int) -> Option<int>
    decreases assets.len() - from,
{
    if from < 0 || from >= assets.len() {
        None
    } else if assets[from].name@ == name {
        Some(from)
    } else {
        asset_index(assets, name, from + 1)
    }
}

/// Where an asset is asked for, the release it belongs to, and its size.
#[derive(Debug, Clone, PartialEq, Eq)]
pub struct AssetPlace {
    /// Where it is asked for.
    pub url: String,
    /// The release it belongs to.
    pub release_url: String,
    /// How many bytes it has, as the release records it.
    pub size: u64,
}

/// Finds a named asset of a release: the first that bears the name.
pub fn asset_place(repo: &Repository, release: &Release, asset_name: &str) -> (r: Result<
    AssetPlace,
    VendorError,
>)
    ensures
        match asset_index(release.assets@, asset_name@, 0) {
            Some(i) => r matches Ok(place) && place.release_url@ == release.url@ && place.url@
                == API_ROOT@ + repo_route(repo.owner@, repo.name@) + "/releases/assets/"@
                + text::decimal_spec(release.assets@[i].id as int) && place.size
                == if release.assets@[i].size >= 0 {
                release.assets@[i].size as int
            } else {
                0
            },
            None => if release.assets@.len() == 0 {
                r matches Err(VendorError::ReleaseAssetsMissing(url)) && url@ == release.url@
            } else {
                r matches Err(VendorError::ReleaseAssetNotFound { asset, url }) && asset@
                    == asset_name@ && url@ == release.url@
            },
        },
        r is Ok <==> exists|i: int|
            0 <= i < release.assets@.len() && (#[trigger] release.assets@[i]).name@ == asset_name@,
{
    proof {
        an_asset_is_found_by_its_name(release.assets@, asset_name@, 0);
    }
    if release.assets.len() == 0 {
        return Err(VendorError::ReleaseAssetsMissing(release.url.clone()));
    }
    let mut i: usize = 0;
    while i < release.assets.len()
        invariant
            i <= release.assets@.len(),
            release.assets@.len() > 0,
            asset_index(release.assets@, asset_name@, 0) == asset_index(
                release.assets@,
                asset_name@,
                i as int,
            ),
        decreases release.assets@.len() - i,
    {
        let asset = &release.assets[i];
        if text::equal(asset.name.as_str(), asset_name) {
            let mut url = API_ROOT.to_owned();
            url.append(route(repo).as_str());
            url.append("/releases/assets/");
            url.append(text::decimal(asset.id).as_str());
            return Ok(
                AssetPlace {
                    url,
                    release_url: release.url.clone(),
                    size: if asset.size >= 0 {
                        asset.size as u64
                    } else {
                        0
                    },
                },
            );
        }
        i += 1;
    }
    Err(
        VendorError::ReleaseAssetNotFound {
            asset: asset_name.to_owned(),
            url: release.url.clone(),
        },
    )
}

/// The error for a tag that no release was made from, where the lookup failed.
pub fn release_lookup_failed(error: VendorError, repo: &Repository, version: &str) -> (r:
    VendorError)
    ensures
        if is_absence(error) {
            r matches VendorError::ReleaseNotFound { version: v, owner, repo: name } && v@
                == version@ && owner@ == repo.owner@ && name@ == repo.name@
        } else {
            r == error
        },
{
    unless_the_request_failed(
        error,
        VendorError::ReleaseNotFound {
            version: version.to_owned(),
            owner: repo.owner.clone(),
            repo: repo.name.clone(),
        },
    )
}

/// What `fancy_regex` says of a text, `None` where the pattern is no regular expression or the
/// match gives up.
pub uninterp spec fn fancy_match(pattern: Seq<char>, subject: Seq<char>) -> Option<bool>;

/// `fancy_regex::Regex::is_match` on the compiled pattern. Its grammar and its matching are not
/// stated.
#[verifier::external_body]
fn matches_pattern(pattern: &str, subject: &str) -> (r: Option<bool>)
    ensures
        r == fancy_match(pattern@, subject@),
{
    fancy_regex::Regex::new(pattern).ok()?.is_match(subject).ok()
}

/// A release whose tag or title the pattern matches.
pub open spec fn release_matches(release: Release, pattern: Seq<char>) -> bool {
    fancy_match(pattern, release.tag_name@) == Some(true) || fancy_match(
        pattern,
        match release.name {
            Some(name) => name@,
            None => Seq::empty(),
        },
    ) == Some(true)
}

/// The position at or after `from` of the first release the pattern matches.
pub open spec fn release_index(releases: Seq<Release>, pattern: Seq<char>, from: int) -> Option<int>
    decreases releases.len() - from,
{
    if from < 0 || from >= releases.len() {
        None
    } else if release_matches(releases[from], pattern) {
        Some(from)
    } else {
        release_index(releases, pattern, from + 1)
    }
}

/// The position of the first `true`.
pub open spec fn first_true(flags: Seq<bool>, from: int) -> Option<int>
    decreases flags.len() - from,
{
    if from < 0 || from >= flags.len() {
        None
    } else if flags[from] {
        Some(from)
    } else {
        first_true(flags, from + 1)
    }
}

/// The first release that matched, given which did.
pub fn pick_release(matched: &Vec<bool>, repo: &Repository, regex: &str) -> (r: Result<
    usize,
    VendorError,
>)
    ensures
        match first_true(matched@, 0) {
            Some(i) => r == Ok::<usize, VendorError>(i as usize) && 0 <= i < matched@.len(),
            None => r matches Err(VendorError::NoMatchingRelease { regex: p, owner, repo: name })
                && p@ == regex@ && owner@ == repo.owner@ && name@ == repo.name@,
        },
{
    let mut i: usize = 0;
    while i < matched.len()
        invariant
            i <= matched@.len(),
            first_true(matched@, 0) == first_true(matched@, i as int),
        decreases matched@.len() - i,
    {
        if matched[i] {
            return Ok(i);
        }
        i += 1;
    }
    Err(
        VendorError::NoMatchingRelease {
            regex: regex.to_owned(),
            owner: repo.owner.clone(),
            repo: repo.name.clone(),
        },
    )
}

/// The first release, newest first, whose tag or title matches `regex`: its position.
pub fn release_by_regex(releases: &Vec<Release>, repo: &Repository, regex: &str) -> (r: Result<
    usize,
    VendorError,
>)
    ensures
        match fancy_refusal(regex@) {
            Some(said) => r matches Err(VendorError::Http(message)) && message@ == said,
            None => match release_index(releases@, regex@, 0) {
                Some(i) => r == Ok::<usize, VendorError>(i as usize) && 0 <= i < releases@.len(),
                None => r matches Err(
                    VendorError::NoMatchingRelease { regex: p, owner, repo: name },
                ) && p@ == regex@ && owner@ == repo.owner@ && name@ == repo.name@,
            },
        },
        r matches Ok(i) ==> i < releases@.len() && {
            ||| fancy_match(regex@, releases@[i as int].tag_name@) == Some(true)
            ||| releases@[i as int].name is Some && fancy_match(
                regex@,
                (releases@[i as int].name->0)@,
            ) == Some(true)
            ||| releases@[i as int].name is None && fancy_match(regex@, Seq::empty()) == Some(true)
        },
        forall|j: int|
            0 <= j < releases@.len() && fancy_refusal(regex@) is None && fancy_match(
                regex@,
                (#[trigger] releases@[j]).tag_name@,
            ) == Some(true) ==> (r matches Ok(i) && i <= j),
        forall|j: int|
            0 <= j < releases@.len() && fancy_refusal(regex@) is None && (
            #[trigger] releases@[j]).name is Some && fancy_match(
                regex@,
                (releases@[j].name->0)@,
            ) == Some(true) ==> (r matches Ok(i) && i <= j),
        forall|j: int|
            0 <= j < releases@.len() && fancy_refusal(regex@) is None && (
            #[trigger] releases@[j]).name is None && fancy_match(regex@, Seq::empty()) == Some(true)
                ==> (r matches Ok(i) && i <= j),
{
    if let Some(message) = regex_refusal(regex) {
        return Err(VendorError::Http(message));
    }
    let mut matched: Vec<bool> = Vec::new();
    let mut i: usize = 0;
    while i < releases.len()
        invariant
            i <= releases@.len(),
            matched@.len() == i,
            forall|j: int|
                0 <= j < i ==> #[trigger] matched@[j] == release_matches(releases@[j], regex@),
        decreases releases@.len() - i,
    {
        let release = &releases[i];
        let by_tag = matches_pattern(regex, release.tag_name.as_str());
        let by_title = match &release.name {
            Some(name) => matches_pattern(regex, name.as_str()),
            None => {
                let empty = "";
                proof {
                    reveal_strlit("");
                }
                assert(empty@ =~= Seq::<char>::empty());
                matches_pattern(regex, empty)
            },
        };
        matched.push(
            match (by_tag, by_title) {
                (Some(true), _) => true,
                (_, Some(true)) => true,
                _ => false,
            },
        );
        i += 1;
    }
    proof {
        lemma_flags(releases@, regex@, matched@, 0);
        a_release_is_picked_by_tag_or_title(releases@, regex@, 0);
    }
    pick_release(&matched, repo, regex)
}

/// Flags that say which releases match have their first `true` where the first match is.
proof fn lemma_flags(releases: Seq<Release>, pattern: Seq<char>, flags: Seq<bool>, from: int)
    requires
        0 <= from <= releases.len(),
        flags.len() == releases.len(),
        forall|j: int|
            0 <= j < flags.len() ==> #[trigger] flags[j] == release_matches(releases[j], pattern),
    ensures
        first_true(flags, from) == release_index(releases, pattern, from),
    decreases releases.len() - from,
{
    if from < releases.len() && !flags[from] {
        lemma_flags(releases, pattern, flags, from + 1);
    }
}

/// A release that was looked up before: which repository it is of, and its tag once it is known.
#[derive(Debug, Clone, PartialEq, Eq)]
pub struct Lookup {
    /// The repository.
    pub repo: String,
    /// The tag of the release that was found, once one was.
    pub tag: Option<String>,
}

/// The position at or after `from` of a lookup that found this tag of this repository.
pub open spec fn lookup_index(
    lookups: Seq<Lookup>,
    repo: Seq<char>,
    tag: Seq<char>,
    from: int,
) -> Option<int>
    decreases lookups.len() - from,
{
    if from < 0 || from >= lookups.len() {
        None
    } else if lookups[from].repo@ == repo && text::text_of(lookups[from].tag) == Some(tag) {
        Some(from)
    } else {
        lookup_index(lookups, repo, tag, from + 1)
    }
}

/// An earlier lookup, of whatever kind, that already found this tag of this repository: a lookup
/// of the latest release serves a later one by tag where the tags agree.
pub fn resolved_by_tag(lookups: &Vec<Lookup>, repo: &str, tag: &str) -> (r: Option<usize>)
    ensures
        match r {
            Some(i) => lookup_index(lookups@, repo@, tag@, 0) == Some(i as int) && i
                < lookups@.len(),
            None => lookup_index(lookups@, repo@, tag@, 0) is None,
        },
{
    let mut i: usize = 0;
    while i < lookups.len()
        invariant
            i <= lookups@.len(),
            lookup_index(lookups@, repo@, tag@, 0) == lookup_index(lookups@, repo@, tag@, i as int),
        decreases lookups@.len() - i,
    {
        let lookup = &lookups[i];
        if text::equal(lookup.repo.as_str(), repo) {
            if let Some(found) = &lookup.tag {
                if text::equal(found.as_str(), tag) {
                    return Some(i);
                }
            }
        }
        i += 1;
    }
    None
}

/// An asset whose storage will serve byte ranges: where to ask, and how much there is.
#[derive(Debug, Clone, PartialEq, Eq)]
pub struct AssetRange {
    /// Where to ask.
    pub url: String,
    /// How many bytes there are.
    pub size: u64,
}

/// Where an asset's bytes can be range-fetched from, given the answer to a probe: whether it
/// succeeded, its `Accept-Ranges`, its length and its address.
///
/// `None` means ranges are not on offer, and the asset should be downloaded instead.
pub fn offered_range(
    succeeded: bool,
    accept_ranges: Option<&str>,
    length: Option<u64>,
    url: String,
    minimum: u64,
) -> (r: Option<AssetRange>)
    ensures
        ({
            let size = match length {
                Some(length) => length,
                None => 0,
            };
            if succeeded && accept_ranges is Some && crate::error::lowered(accept_ranges->0@)
                == "bytes"@ && size >= minimum {
                r == Some(AssetRange { url, size })
            } else {
                r is None
            }
        }),
{
    if !succeeded {
        return None;
    }
    let serves_ranges = match accept_ranges {
        Some(value) => text::equal(crate::error::to_lower(value).as_str(), "bytes"),
        None => false,
    };
    let size: u64 = match length {
        Some(length) => length,
        None => 0,
    };
    if !serves_ranges || size < minimum {
        return None;
    }
    Some(AssetRange { url, size })
}

/// A repository that a search found.
#[derive(Debug, Clone, PartialEq, Eq)]
pub struct SearchHit {
    /// What it is called.
    pub name: String,
    /// What it is called, with its owner.
    pub full_name: Option<String>,
    /// Where it is.
    pub html_url: Option<String>,
}

/// A text in lower case, as the standard library has it.
pub uninterp spec fn lowercase_text(s: Seq<char>) -> Seq<char>;

/// `str::to_lowercase` gives the text in lower case by Unicode's tables, which are not stated.
#[verifier::external_body]
fn lowercase(s: &str) -> (r: String)
    ensures
        r@ == lowercase_text(s@),
{
    s.to_lowercase()
}

/// Where the repository of a search is, given whether the best hit bears the name looked for.
pub open spec fn hit_spec(same_name: bool, hit: SearchHit) -> Result<Seq<char>, Seq<char>> {
    if !same_name {
        Err(hit.name@)
    } else {
        Ok(
            match (hit.html_url, hit.full_name) {
                (Some(url), _) => url@,
                (None, Some(full)) => "https://github.com/"@ + full@,
                (None, None) => "https://github.com/"@ + hit.name@,
            },
        )
    }
}

/// A search says where the repository is, or which name was perhaps meant.
pub open spec fn finds(r: Result<String, VendorError>, name: Seq<char>, expected: Result<
    Seq<char>,
    Seq<char>,
>) -> bool {
    match (r, expected) {
        (Ok(url), Ok(wanted)) => url@ == wanted,
        (
            Err(VendorError::NoSearchResultsDidYouMean { name: asked, suggestion }),
            Err(meant),
        ) => asked@ == name && suggestion@ == meant,
        _ => false,
    }
}

/// The address of a hit, or the name that was perhaps meant where the names differ.
pub fn hit_url(name: &str, same_name: bool, hit: SearchHit) -> (r: Result<String, VendorError>)
    ensures
        finds(r, name@, hit_spec(same_name, hit)),
{
    if !same_name {
        return Err(
            VendorError::NoSearchResultsDidYouMean { name: name.to_owned(), suggestion: hit.name },
        );
    }
    match hit.html_url {
        Some(url) => Ok(url),
        None => {
            let mut r = "https://github.com/".to_owned();
            match hit.full_name {
                Some(full) => {
                    r.append(full.as_str());
                },
                None => {
                    r.append(hit.name.as_str());
                },
            }
            Ok(r)
        },
    }
}

/// Resolves a repository name to its URL, given the best hit of a search for it. The hit has to
/// bear the name, whatever its case.
pub fn find_repo_url(name: &str, hit: Option<SearchHit>) -> (r: Result<String, VendorError>)
    ensures
        match hit {
            None => r matches Err(VendorError::NoSearchResults(asked)) && asked@ == name@,
            Some(hit) => finds(
                r,
                name@,
                hit_spec(lowercase_text(hit.name@) == lowercase_text(name@), hit),
            ),
        },
{
    match hit {
        None => Err(VendorError::NoSearchResults(name.to_owned())),
        Some(hit) => {
            let same = text::equal(lowercase(hit.name.as_str()).as_str(), lowercase(name).as_str());
            hit_url(name, same, hit)
        },
    }
}

/// A release is picked where the pattern matches its tag or its title, and it is the first such:
/// every release before it has neither a tag nor a title that matches, and where none is picked no
/// release has one.
pub proof fn a_release_is_picked_by_tag_or_title(
    releases: Seq<Release>,
    pattern: Seq<char>,
    from: int,
)
    requires
        0 <= from <= releases.len(),
    ensures
        ({
            let found = release_index(releases, pattern, from);
            let end = if found is Some {
                found->0
            } else {
                releases.len() as int
            };
            &&& from <= end <= releases.len()
            &&& found is Some ==> end < releases.len() && {
                ||| fancy_match(pattern, releases[end].tag_name@) == Some(true)
                ||| releases[end].name is Some && fancy_match(pattern, (releases[end].name->0)@)
                    == Some(true)
                ||| releases[end].name is None && fancy_match(pattern, Seq::empty()) == Some(true)
            }
            &&& forall|j: int|
                from <= j < end ==> {
                    &&& fancy_match(pattern, (#[trigger] releases[j]).tag_name@) != Some(true)
                    &&& releases[j].name is Some ==> fancy_match(pattern, (releases[j].name->0)@)
                        != Some(true)
                    &&& releases[j].name is None ==> fancy_match(pattern, Seq::empty()) != Some(
                        true,
                    )
                }
        }),
    decreases releases.len() - from,
{
    if from < releases.len() && !release_matches(releases[from], pattern) {
        a_release_is_picked_by_tag_or_title(releases, pattern, from + 1);
    }
}

/// An asset is found by its whole name, and the first that bears it is found.
pub proof fn an_asset_is_found_by_its_name(assets: Seq<Asset>, name: Seq<char>, from: int)
    requires
        0 <= from <= assets.len(),
    ensures
        match asset_index(assets, name, from) {
            Some(i) => from <= i < assets.len() && assets[i].name@ == name && forall|j: int|
                from <= j < i ==> (#[trigger] assets[j]).name@ != name,
            None => forall|j: int|
                from <= j < assets.len() ==> (#[trigger] assets[j]).name@ != name,
        },
    decreases assets.len() - from,
{
    if from < assets.len() && assets[from].name@ != name {
        an_asset_is_found_by_its_name(assets, name, from + 1);
    }
}

/// A lookup serves another where both the repository and the tag it found are the same, and the first
/// such serves.
pub proof fn a_lookup_serves_its_own_tag(
    lookups: Seq<Lookup>,
    repo: Seq<char>,
    tag: Seq<char>,
    from: int,
)
    requires
        0 <= from <= lookups.len(),
    ensures
        match lookup_index(lookups, repo, tag, from) {
            Some(i) => from <= i < lookups.len() && lookups[i].repo@ == repo && lookups[i].tag is Some
                && (lookups[i].tag->0)@ == tag && forall|j: int|
                from <= j < i ==> (#[trigger] lookups[j]).repo@ != repo || lookups[j].tag is None
                    || (lookups[j].tag->0)@ != tag,
            None => forall|j: int|
                from <= j < lookups.len() ==> (#[trigger] lookups[j]).repo@ != repo
                    || lookups[j].tag is None || (lookups[j].tag->0)@ != tag,
        },
    decreases lookups.len() - from,
{
    if from < lookups.len() && !(lookups[from].repo@ == repo && text::text_of(lookups[from].tag)
        == Some(tag)) {
        a_lookup_serves_its_own_tag(lookups, repo, tag, from + 1);
    }
}

/// How long a window lasts is said in whole minutes, rounded down; less than one is said to be less
/// than one, and so is a window that is over.
pub proof fn a_window_is_told_in_minutes(now: int, minutes: int, seconds: int)
    requires
        0 <= seconds < 60,
    ensures
        minutes > 0 ==> resets_in_spec(now + 60 * minutes + seconds, now) == "resets in "@
            + text::decimal_spec(minutes) + " min"@,
        minutes <= 0 ==> resets_in_spec(now + 60 * minutes + seconds, now)
            == "resets in under a minute"@,
{
    assert((60 * minutes + seconds) / 60 == minutes);
}

/// A warning comes where less than the low mark is left of a window that is not over, and says what
/// is left once what was spent is taken off: never less than nothing.
pub proof fn a_warning_says_what_is_left(quota: Quota, spent: int, now: int)
    requires
        0 <= spent,
    ensures
        ({
            let said = quota_warning_spec(quota, spent, now);
            &&& said is Some <==> quota.reset > now && quota.remaining < spent + LOW_QUOTA
            &&& said is Some && spent <= quota.remaining ==> (text::decimal_spec(
                quota.remaining - spent,
            ) + " of "@ + text::decimal_spec(quota.limit as int)).is_prefix_of(said->0)
            &&& said is Some && spent >= quota.remaining ==> (text::decimal_spec(0) + " of "@
                + text::decimal_spec(quota.limit as int)).is_prefix_of(said->0)
        }),
{
    let left = less(quota.remaining as int, spent);
    let start = text::decimal_spec(left) + " of "@ + text::decimal_spec(quota.limit as int);
    if let Some(said) = quota_warning_spec(quota, spent, now) {
        assert(said.subrange(0, start.len() as int) =~= start);
    }
}

/// A refusal is about the request limit only where its status and its headers say so: all three are
/// there, and nothing remains. What is said names the limit.
pub proof fn a_limit_is_reached_only_where_nothing_remains(
    status: int,
    remaining: Option<Seq<char>>,
    limit: Option<Seq<char>>,
    reset: Option<Seq<char>>,
    now: int,
)
    ensures
        ({
            let said = rate_limit_spec(status, remaining, limit, reset, now);
            &&& status != 403 && status != 429 ==> said is None
            &&& remaining is None || limit is None || reset is None ==> said is None
            &&& remaining is Some && text::unsigned_of(remaining->0) != Some(0int) ==> said is None
            &&& said is None && (status == 403 || status == 429) && remaining is Some
                && text::unsigned_of(remaining->0) == Some(0int) && limit is Some && reset is Some
                ==> text::unsigned_of(limit->0) is None || text::unsigned_of(reset->0) is None
            &&& said is Some ==> (" - 0 of "@ + text::decimal_spec(
                text::unsigned_of(limit->0)->0,
            )).is_prefix_of(said->0)
        }),
{
    if let Some(said) = rate_limit_spec(status, remaining, limit, reset, now) {
        let start = " - 0 of "@ + text::decimal_spec(text::unsigned_of(limit->0)->0);
        assert(said.subrange(0, start.len() as int) =~= start);
    }
}

/// What is not there is reported as such, and nothing else is: only an answer of that status means
/// absence.
pub proof fn absence_is_one_status(status: u16, message: String, absent: VendorError)
    ensures
        status == 404 ==> rewritten(VendorError::RequestFailed { status, message }, absent)
            == absent,
        status != 404 ==> rewritten(VendorError::RequestFailed { status, message }, absent) == (
        VendorError::RequestFailed { status, message }),
        rewritten(VendorError::BadCredentials, absent) == VendorError::BadCredentials,
{
}

/// What a refusal says is the text under `message` as one line, and nothing where there is none.
pub proof fn a_refusal_says_its_message(body: Result<JsonView, Seq<char>>, message: Seq<char>)
    ensures
        body is Ok && body->Ok_0.get("message"@) == Some(JsonView::Text(message)) ==> message_in(body)
            == one_line_spec(message),
        body is Err || !(body->Ok_0.get("message"@) matches Some(JsonView::Text(_)))
            ==> message_in(body).len() == 0,
{
}

/// A hit is at its own address, else at its full name, else at its name; where it bears another name
/// than the one looked for, that name is what was perhaps meant.
pub proof fn a_hit_is_at_its_own_address(same_name: bool, hit: SearchHit)
    ensures
        !same_name ==> hit_spec(same_name, hit) == Err::<Seq<char>, Seq<char>>(hit.name@),
        same_name && hit.html_url is Some ==> hit_spec(same_name, hit) == Ok::<
            Seq<char>,
            Seq<char>,
        >((hit.html_url->0)@),
        same_name && hit.html_url is None && hit.full_name is Some ==> hit_spec(same_name, hit)
            == Ok::<Seq<char>, Seq<char>>("https://github.com/"@ + (hit.full_name->0)@),
        same_name && hit.html_url is None && hit.full_name is None ==> hit_spec(same_name, hit)
            == Ok::<Seq<char>, Seq<char>>("https://github.com/"@ + hit.name@),
{
}

/// The value of a hexadecimal digit.
pub open spec fn hex_value(c: char) -> int {
    if '0' <= c && c <= '9' {
        c as int - '0' as int
    } else {
        c as int - 'A' as int + 10
    }
}

/// An escaped byte can be told from what is written: a letter, a digit, `-`, `.`, `_` and `~` stand
/// for themselves, and any other byte is a percent sign and its two digits.
pub proof fn an_escaped_byte_is_its_value(b: u8)
    ensures
        ({
            let c = b as char;
            ('a' <= c && c <= 'z') || ('A' <= c && c <= 'Z') || ('0' <= c && c <= '9') || c == '-'
                || c == '.' || c == '_' || c == '~'
        }) ==> escaped(b) == seq![b as char],
        escaped(b).len() == 3 || escaped(b) == seq![b as char],
        b as char == '%' || b as char == '/' || b as char == ' ' || b as char == '?' || b as char
            == '#' || b as char == '&' || b as char == '+' || b >= 128 ==> escaped(b).len() == 3,
        escaped(b).len() == 3 ==> escaped(b)[0] == '%' && hex_value(escaped(b)[1]) * 16 + hex_value(
            escaped(b)[2],
        ) == b,
{
}

/// Bytes are escaped one by one: those of two texts in a row are the one's and then the other's.
pub proof fn bytes_are_escaped_one_by_one(a: Seq<u8>, b: Seq<u8>, n: int)
    requires
        0 <= n <= b.len(),
    ensures
        escaped_all(a + b, a.len() + n) == escaped_all(a, a.len() as int) + escaped_all(b, n),
        n > 0 ==> escaped_all(b, n) == escaped_all(b, n - 1) + escaped(b[n - 1]),
        escaped_all(b, 0).len() == 0,
    decreases n,
{
    let front = escaped_all(a, a.len() as int);
    if n == 0 {
        lemma_escaped_front(a, b, a.len() as int);
        assert(front + escaped_all(b, 0) =~= front);
    } else {
        bytes_are_escaped_one_by_one(a, b, n - 1);
        assert((a + b)[a.len() + n - 1] == b[n - 1]);
        assert((front + escaped_all(b, n - 1)) + escaped(b[n - 1]) =~= front + escaped_all(b, n));
    }
}

/// Escaping the first bytes does not look at those behind them.
proof fn lemma_escaped_front(a: Seq<u8>, b: Seq<u8>, n: int)
    requires
        0 <= n <= a.len(),
    ensures
        escaped_all(a + b, n) == escaped_all(a, n),
    decreases n,
{
    if n > 0 {
        lemma_escaped_front(a, b, n - 1);
        assert((a + b)[n - 1] == a[n - 1]);
    }
}

/// What a search answers names what was asked for: the address of the hit, or the name that was perhaps
/// meant.
pub proof fn a_search_answers_what_was_asked(
    r: Result<String, VendorError>,
    name: Seq<char>,
    same_name: bool,
    hit: SearchHit,
)
    requires
        finds(r, name, hit_spec(same_name, hit)),
    ensures
        same_name <==> r is Ok,
        same_name && hit.html_url is Some ==> (r->Ok_0)@ == (hit.html_url->0)@,
        !same_name ==> (r matches Err(
            VendorError::NoSearchResultsDidYouMean { name: asked, suggestion },
        ) && asked@ == name && suggestion@ == hit.name@),
{
}

} // verus!
