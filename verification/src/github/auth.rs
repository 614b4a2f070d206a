//! GitHub authentication: which token is used, and what `login` and `logout` say.
//!
//! Resolution order is `GITHUB_TOKEN`, then the credential store, then anonymous.

use vstd::prelude::*;
use crate::error::VendorError;
use crate::text;

verus! {

/// The service the token is stored under.
pub const KEYRING_SERVICE: &'static str = "vendorfiles-cli";

/// The entry the token is stored under.
///
/// Another tool keeps an encrypted token under [`LEGACY_KEYRING_USER`]. A distinct entry lets both
/// stay logged in.
pub const KEYRING_USER: &'static str = "github_token_plain";

/// The other tool's entry, which is read but never written.
pub const LEGACY_KEYRING_USER: &'static str = "github_token";

/// The OAuth app the device flow authenticates against.
pub const OAUTH_CLIENT_ID: &'static str = "39d3104ecbbfd876dfa5";

/// A GitHub token. It has no `Debug` of its own, so that it is never printed by accident.
#[derive(Clone, PartialEq, Eq)]
pub struct Token(String);

impl View for Token {
    type V = Seq<char>;

    closed spec fn view(&self) -> Seq<char> {
        self.0@
    }
}

impl Token {
    /// Wraps a token string.
    pub fn new(value: &str) -> (r: Self)
        ensures
            r@ == value@,
    {
        Token(value.to_owned())
    }

    /// The raw token, for use in an `Authorization` header.
    pub fn expose(&self) -> (r: &str)
        ensures
            r@ == self@,
    {
        self.0.as_str()
    }

    /// What stands for the token where a value is shown for debugging: never the token.
    pub fn debug_text(&self) -> (r: String)
        ensures
            r@ == "Token(***)"@,
    {
        "Token(***)".to_owned()
    }
}

/// The view of an optional token.
pub open spec fn token_view(token: Option<Token>) -> Option<Seq<char>> {
    match token {
        Some(token) => Some(token@),
        None => None,
    }
}

/// A character GitHub tokens use.
pub open spec fn token_char(c: char) -> bool {
    text::is_letter(c) || text::is_digit(c) || c == '_' || c == '-'
}

/// A text that can be a GitHub token.
pub open spec fn plausible(s: Seq<char>) -> bool {
    s.len() >= 20 && forall|i: int| 0 <= i < s.len() ==> token_char(#[trigger] s[i])
}

/// Whether a stored secret can be a GitHub token.
///
/// Ciphertext in Base64 almost always holds characters no GitHub token uses, so treating such a
/// value as absent downgrades a stale entry to anonymous access instead of a confusing refusal.
pub fn is_plausible_token(value: &str) -> (r: bool)
    ensures
        r == plausible(value@),
{
    let cs = text::chars_of(value);
    if cs.len() < 20 {
        return false;
    }
    let mut i: usize = 0;
    while i < cs.len()
        invariant
            i <= cs@.len(),
            cs@ == value@,
            forall|k: int| 0 <= k < i ==> token_char(#[trigger] value@[k]),
        decreases cs@.len() - i,
    {
        let c = cs[i];
        if !((c >= 'a' && c <= 'z') || (c >= 'A' && c <= 'Z') || (c >= '0' && c <= '9') || c == '_'
            || c == '-') {
            assert(!token_char(value@[i as int]));
            return false;
        }
        i += 1;
    }
    true
}

/// The token that is taken from what the store holds under its two entries.
pub open spec fn stored_token(
    current: Option<Seq<char>>,
    legacy: Option<Seq<char>>,
) -> Option<Seq<char>> {
    if current is Some && plausible(current->0) {
        current
    } else if legacy is Some && plausible(legacy->0) {
        legacy
    } else {
        None
    }
}

/// The token that is used, given `GITHUB_TOKEN` and what the store holds.
pub open spec fn resolved_token(
    variable: Option<Seq<char>>,
    current: Option<Seq<char>>,
    legacy: Option<Seq<char>>,
) -> Option<Seq<char>> {
    if variable is Some && variable->0.len() > 0 {
        variable
    } else {
        stored_token(current, legacy)
    }
}

/// The token of the credential store, if one is stored and usable.
///
/// Falls back to the other tool's entry, unless the value there is that tool's ciphertext, which
/// cannot be a token and is treated as "not logged in".
pub fn keyring_token(current: Option<&str>, legacy: Option<&str>) -> (r: Option<Token>)
    ensures
        token_view(r) == stored_token(text::str_of(current), text::str_of(legacy)),
{
    if let Some(value) = current {
        if is_plausible_token(value) {
            return Some(Token::new(value));
        }
    }
    if let Some(value) = legacy {
        if is_plausible_token(value) {
            return Some(Token::new(value));
        }
    }
    None
}

/// The token to use: `GITHUB_TOKEN`, then the credential store, then none.
pub fn resolve_token(variable: Option<&str>, current: Option<&str>, legacy: Option<&str>) -> (r:
    Option<Token>)
    ensures
        token_view(r) == resolved_token(
            text::str_of(variable),
            text::str_of(current),
            text::str_of(legacy),
        ),
{
    if let Some(value) = variable {
        if !value.is_empty() {
            return Some(Token::new(value));
        }
    }
    keyring_token(current, legacy)
}

/// What saving a token warns of once the store has answered: that it was not saved, or that it
/// will not be kept. A store that refuses is not fatal: the token still authenticates this run.
pub fn save_token(stored: bool, caveat: Option<&'static str>) -> (r: Option<&'static str>)
    ensures
        match r {
            Some(warning) => if !stored {
                warning@ == "Failed to save token to keyring"@
            } else {
                caveat matches Some(known) && warning@ == known@
            },
            None => stored && caveat is None,
        },
{
    if !stored {
        Some("Failed to save token to keyring")
    } else {
        caveat
    }
}

/// What GitHub's answer to a token says of it.
pub fn login_verdict(status: u16) -> (r: Result<(), VendorError>)
    ensures
        if status == 401 {
            r == Err::<(), _>(VendorError::InvalidToken)
        } else if status == 403 {
            r == Err::<(), _>(VendorError::TokenRateLimited)
        } else if 200 <= status <= 299 {
            r is Ok
        } else {
            r == Err::<(), _>(VendorError::AuthUnknownFailure)
        },
{
    if status == 401 {
        Err(VendorError::InvalidToken)
    } else if status == 403 {
        Err(VendorError::TokenRateLimited)
    } else if 200 <= status && status <= 299 {
        Ok(())
    } else {
        Err(VendorError::AuthUnknownFailure)
    }
}

/// What the credential store had for `logout` to remove.
#[derive(Debug, Clone, Copy, PartialEq, Eq)]
pub enum Logout {
    /// A token, which is gone now.
    Removed,
    /// Nothing.
    NotStored,
}

/// How a line is meant.
#[derive(Debug, Clone, Copy, PartialEq, Eq)]
pub enum Tone {
    /// Something was done.
    Success,
    /// Something is so.
    Info,
    /// Something may surprise.
    Warning,
}

/// What `logout` says first: whether there was a token to remove.
pub open spec fn logout_line(outcome: Logout) -> (Tone, Seq<char>) {
    match outcome {
        Logout::Removed => (Tone::Success, "Logged out successfully"@),
        Logout::NotStored => (Tone::Info, "Not logged in"@),
    }
}

/// The lines `logout` says: whether there was a token to remove, and what still authenticates.
pub open spec fn logout_lines(outcome: Logout, variable_set: bool, leftover: bool) -> Seq<
    (Tone, Seq<char>),
> {
    let first = seq![logout_line(outcome)];
    let second = if variable_set {
        first.push((Tone::Warning, "GITHUB_TOKEN is set, so requests are still authenticated"@))
    } else {
        first
    };
    if leftover {
        second.push(
            (
                Tone::Warning,
                "a token from the vendorfiles npm CLI is still in the keyring, and will be used"@,
            ),
        )
    } else {
        second
    }
}

/// Lines with their tones, as text.
pub open spec fn line_views(lines: Seq<(Tone, &'static str)>) -> Seq<(Tone, Seq<char>)> {
    Seq::new(lines.len(), |i: int| (lines[i].0, lines[i].1@))
}

/// What `logout` says: whether there was a token to remove, and what still authenticates.
///
/// The other tool's entry is not this one's to delete, so a token still readable from it is
/// reported rather than removed.
pub fn logout_report(outcome: Logout, variable_set: bool, leftover: bool) -> (r: Vec<
    (Tone, &'static str),
>)
    ensures
        line_views(r@) == logout_lines(outcome, variable_set, leftover),
{
    let mut r: Vec<(Tone, &'static str)> = Vec::new();
    match outcome {
        Logout::Removed => {
            r.push((Tone::Success, "Logged out successfully"));
        },
        Logout::NotStored => {
            r.push((Tone::Info, "Not logged in"));
        },
    }
    if variable_set {
        r.push((Tone::Warning, "GITHUB_TOKEN is set, so requests are still authenticated"));
    }
    if leftover {
        r.push(
            (
                Tone::Warning,
                "a token from the vendorfiles npm CLI is still in the keyring, and will be used",
            ),
        );
    }
    assert(line_views(r@) =~= logout_lines(outcome, variable_set, leftover));
    r
}

/// What cannot be a token is never sent: a token that comes from the store is plausible.
pub proof fn ciphertext_is_never_used(current: Option<Seq<char>>, legacy: Option<Seq<char>>)
    ensures
        stored_token(current, legacy) matches Some(token) ==> plausible(token),
{
}

/// `GITHUB_TOKEN` is used before anything that is stored.
pub proof fn the_variable_comes_first(
    variable: Seq<char>,
    current: Option<Seq<char>>,
    legacy: Option<Seq<char>>,
)
    requires
        variable.len() > 0,
    ensures
        resolved_token(Some(variable), current, legacy) == Some(variable),
{
}

/// A token of the store is used where it can be one; the other tool's entry only where this one's
/// holds none. What is too short, or holds a character no token has, is never used.
pub proof fn the_own_entry_comes_before_the_other(
    current: Option<Seq<char>>,
    legacy: Option<Seq<char>>,
)
    ensures
        current is Some && plausible(current->0) ==> resolved_token(None, current, legacy) == current,
        (current is None || !plausible(current->0)) && legacy is Some && plausible(legacy->0)
            ==> resolved_token(None, current, legacy) == legacy,
        (current is None || !plausible(current->0)) && (legacy is None || !plausible(legacy->0))
            ==> resolved_token(None, current, legacy) is None,
        resolved_token(Some(Seq::empty()), current, legacy) == resolved_token(None, current, legacy),
{
}

/// What can be a token: at least twenty letters, digits, underscores and dashes. A character that
/// ciphertext is full of rules a text out.
pub proof fn a_token_is_made_of_plain_characters(s: Seq<char>)
    ensures
        s.len() < 20 ==> !plausible(s),
        s.contains('+') || s.contains('/') || s.contains('=') || s.contains(' ') || s.contains('.')
            ==> !plausible(s),
        s.len() >= 20 && (forall|i: int|
            0 <= i < s.len() ==> ('a' <= #[trigger] s[i] && s[i] <= 'z') || ('A' <= s[i] && s[i]
                <= 'Z') || ('0' <= s[i] && s[i] <= '9') || s[i] == '_' || s[i] == '-')
            ==> plausible(s),
{
    if plausible(s) {
        assert forall|i: int| 0 <= i < s.len() implies s[i] != '+' && s[i] != '/' && s[i] != '='
            && s[i] != ' ' && s[i] != '.' by {
            assert(token_char(s[i]));
        }
    }
}

/// What is said at a logout: first whether a token was removed, then a warning for each thing that
/// still authenticates, and nothing else.
pub proof fn a_logout_warns_of_what_is_left(outcome: Logout, variable_set: bool, leftover: bool)
    ensures
        ({
            let lines = logout_lines(outcome, variable_set, leftover);
            &&& lines.len() == 1 + (if variable_set {
                1int
            } else {
                0int
            }) + (if leftover {
                1int
            } else {
                0int
            })
            &&& outcome is Removed ==> lines[0] == (Tone::Success, "Logged out successfully"@)
            &&& outcome is NotStored ==> lines[0] == (Tone::Info, "Not logged in"@)
            &&& variable_set ==> lines[1] == (
                Tone::Warning,
                "GITHUB_TOKEN is set, so requests are still authenticated"@,
            )
            &&& leftover ==> lines.last() == (
                Tone::Warning,
                "a token from the vendorfiles npm CLI is still in the keyring, and will be used"@,
            )
        }),
{
}

} // verus!
