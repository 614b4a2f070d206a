//! Where the registry is kept between runs, and when to go back for it.
//!
//! Most installs happen within a day of each other, so the common case should cost nothing: a
//! cached copy younger than [`TTL`] is used without touching the network at all. Past that, the
//! fetch is conditional: an unchanged registry costs one answer that says so rather than a
//! download.

use vstd::prelude::*;
use crate::fsx::{below, below_spec};
use crate::text;

verus! {

/// How many seconds a cached registry is used without asking whether it changed: a day.
pub const TTL: u64 = 86400;

/// The registry `install` reads when nothing overrides it.
pub const DEFAULT_URL: &'static str =
    "https://raw.githubusercontent.com/Araxeus/vendorfiles-rs/main/registry.yml";

/// The variable that points `vendor` at a different registry: a URL, or a local path.
pub const OVERRIDE: &'static str = "VENDOR_REGISTRY";

/// What to do about the copy on disk.
#[derive(Debug, Clone, PartialEq, Eq)]
pub enum Action {
    /// Young enough; no request at all.
    UseCache,
    /// Ask whether it changed, quoting this `ETag` if there is one.
    Revalidate(Option<String>),
    /// Nothing usable on disk.
    Download,
}

/// Decides what to do, given the age of the cached copy in whole seconds and whether a refresh was
/// asked for.
pub fn decide(age: Option<u64>, etag: Option<String>, refresh: bool) -> (r: Action)
    ensures
        match age {
            None => r == Action::Download,
            Some(age) => if !refresh && age < TTL {
                r == Action::UseCache
            } else {
                r matches Action::Revalidate(tag) && tag == etag
            },
        },
{
    match age {
        None => Action::Download,
        Some(age) => if refresh {
            Action::Revalidate(etag)
        } else if age < TTL {
            Action::UseCache
        } else {
            Action::Revalidate(etag)
        },
    }
}

/// Where the registry is read from first.
#[derive(Debug, Clone, PartialEq, Eq)]
pub enum Source {
    /// A URL that overrides the default; it is not cached.
    Url(String),
    /// A file that overrides the default.
    File(String),
    /// The default, for this run only: there is nowhere to cache it.
    Uncached,
    /// The copy on disk, without a request; the default where the copy cannot be read.
    Cached,
    /// The default, quoting this `ETag` if there is one.
    Network(Option<String>),
}

/// A text that is a URL rather than a path.
pub open spec fn is_url(s: Seq<char>) -> bool {
    "http://"@.is_prefix_of(s) || "https://"@.is_prefix_of(s)
}

/// Decides where the registry is read from: the override, which may be a URL or a path; else the
/// cache or the network, as the copy's age says.
pub fn source(
    overridden: Option<String>,
    can_cache: bool,
    age: Option<u64>,
    etag: Option<String>,
    refresh: bool,
) -> (r: Source)
    ensures
        match overridden {
            Some(place) => if is_url(place@) {
                r == Source::Url(place)
            } else {
                r == Source::File(place)
            },
            None => if !can_cache {
                r == Source::Uncached
            } else {
                match age {
                    None => r == Source::Network(None),
                    Some(age) => if !refresh && age < TTL {
                        r == Source::Cached
                    } else {
                        r == Source::Network(etag)
                    },
                }
            },
        },
{
    match overridden {
        Some(place) => if text::starts_with(place.as_str(), "http://") || text::starts_with(
            place.as_str(),
            "https://",
        ) {
            Source::Url(place)
        } else {
            Source::File(place)
        },
        None => if !can_cache {
            Source::Uncached
        } else {
            match decide(age, etag, refresh) {
                Action::UseCache => Source::Cached,
                Action::Revalidate(etag) => Source::Network(etag),
                Action::Download => Source::Network(None),
            }
        },
    }
}

/// What a request for the registry came to.
#[derive(Debug, Clone, PartialEq, Eq)]
pub enum Fetched {
    /// The cached copy is still current.
    Unchanged,
    /// There is a new one.
    Body,
    /// The server refused, or could not be reached.
    Failed,
}

/// What is done with the answer.
#[derive(Debug, Clone, PartialEq, Eq)]
pub enum Next {
    /// Use the copy on disk and mark it as fresh; fail where it cannot be read.
    KeepCache,
    /// Use the body and put it on disk.
    Store,
    /// Use the copy on disk however old it is; fail with the request's error where there is none.
    FallBack,
}

/// What the status of an answer means.
pub fn fetched(status: u16) -> (r: Fetched)
    ensures
        r == if status == 304 {
            Fetched::Unchanged
        } else if 200 <= status <= 299 {
            Fetched::Body
        } else {
            Fetched::Failed
        },
{
    if status == 304 {
        Fetched::Unchanged
    } else if 200 <= status && status <= 299 {
        Fetched::Body
    } else {
        Fetched::Failed
    }
}

/// What is done with the answer to a request for the default registry.
pub fn after_fetch(fetched: Fetched) -> (r: Next)
    ensures
        r == match fetched {
            Fetched::Unchanged => Next::KeepCache,
            Fetched::Body => Next::Store,
            Fetched::Failed => Next::FallBack,
        },
{
    match fetched {
        Fetched::Unchanged => Next::KeepCache,
        Fetched::Body => Next::Store,
        Fetched::Failed => Next::FallBack,
    }
}

/// Where caches are kept on a system, given the variables that say so.
pub open spec fn cache_base(
    os: Seq<char>,
    local_app_data: Option<Seq<char>>,
    xdg_cache_home: Option<Seq<char>>,
    home: Option<Seq<char>>,
) -> Option<Seq<char>> {
    if os == "windows"@ {
        local_app_data
    } else if os == "macos"@ {
        match home {
            Some(home) => Some(below_spec(false, home, "Library/Caches"@)),
            None => None,
        }
    } else if xdg_cache_home is Some {
        xdg_cache_home
    } else {
        match home {
            Some(home) => Some(below_spec(false, home, ".cache"@)),
            None => None,
        }
    }
}

/// Where the cached registry and its `ETag` live, given the variables `LOCALAPPDATA`,
/// `XDG_CACHE_HOME` and `HOME`; nowhere, where the one this system goes by is not set.
pub fn directory(
    os: &str,
    local_app_data: Option<&str>,
    xdg_cache_home: Option<&str>,
    home: Option<&str>,
) -> (r: Option<String>)
    ensures
        text::text_of(r) == match cache_base(
            os@,
            text::str_of(local_app_data),
            text::str_of(xdg_cache_home),
            text::str_of(home),
        ) {
            Some(base) => Some(below_spec(os@ == "windows"@, base, "vendorfiles"@)),
            None => None,
        },
{
    let windows = text::equal(os, "windows");
    let base = if windows {
        match local_app_data {
            Some(base) => base.to_owned(),
            None => {
                return None;
            },
        }
    } else if text::equal(os, "macos") {
        match home {
            Some(home) => below(false, home, "Library/Caches"),
            None => {
                return None;
            },
        }
    } else {
        match (xdg_cache_home, home) {
            (Some(base), _) => base.to_owned(),
            (None, Some(home)) => below(false, home, ".cache"),
            (None, None) => {
                return None;
            },
        }
    };
    Some(below(windows, base.as_str(), "vendorfiles"))
}

/// Caches are where the system keeps them: the variable's folder on Windows, the library of the home
/// folder on macOS, and elsewhere the folder the variable names before the one in the home folder.
pub proof fn caches_are_where_the_system_keeps_them(
    os: Seq<char>,
    local_app_data: Option<Seq<char>>,
    xdg_cache_home: Option<Seq<char>>,
    home: Option<Seq<char>>,
)
    ensures
        os == "windows"@ ==> cache_base(os, local_app_data, xdg_cache_home, home) == local_app_data,
        os == "macos"@ && home is Some ==> cache_base(os, local_app_data, xdg_cache_home, home)
            == Some(below_spec(false, home->0, "Library/Caches"@)),
        os == "macos"@ && home is None ==> cache_base(os, local_app_data, xdg_cache_home, home)
            is None,
        os != "windows"@ && os != "macos"@ && xdg_cache_home is Some ==> cache_base(
            os,
            local_app_data,
            xdg_cache_home,
            home,
        ) == xdg_cache_home,
        os != "windows"@ && os != "macos"@ && xdg_cache_home is None && home is Some ==> cache_base(
            os,
            local_app_data,
            xdg_cache_home,
            home,
        ) == Some(below_spec(false, home->0, ".cache"@)),
{
    reveal_strlit("windows");
    reveal_strlit("macos");
    assert("windows"@[0] == 'w' && "macos"@[0] == 'm');
}

/// A text is a URL where it starts with one of the two schemes, and only there.
pub proof fn a_url_starts_with_its_scheme(rest: Seq<char>, s: Seq<char>)
    ensures
        is_url("http://"@ + rest),
        is_url("https://"@ + rest),
        is_url(s) ==> s.len() >= 7 && s.take(4) == "http"@,
{
    reveal_strlit("http://");
    reveal_strlit("https://");
    reveal_strlit("http");
    assert(("http://"@ + rest).subrange(0, 7) =~= "http://"@);
    assert(("https://"@ + rest).subrange(0, 8) =~= "https://"@);
    if is_url(s) {
        if "http://"@.is_prefix_of(s) {
            assert forall|i: int| 0 <= i < 4 implies s[i] == "http"@[i] by {
                assert(s.subrange(0, 7)[i] == "http://"@[i]);
            }
        } else {
            assert forall|i: int| 0 <= i < 4 implies s[i] == "http"@[i] by {
                assert(s.subrange(0, 8)[i] == "https://"@[i]);
            }
        }
        assert(s.take(4) =~= "http"@);
    }
}

} // verus!
