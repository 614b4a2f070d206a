//! What is asked of GitHub, and what its answers mean.

use vendorfiles::codec::parse_json;
use vendorfiles::error::VendorError;
use vendorfiles::github::auth::{
    is_plausible_token, keyring_token, login_verdict, logout_report, resolve_token, save_token,
    Logout, Token, Tone,
};
use vendorfiles::github::credentials::{transience_warning, Persistence};
use vendorfiles::github::{
    asset_place, commits_route, contents_url, encode_path, encode_query, error_message,
    find_repo_url, first_commit, hit_url, message_of, offered_range, pick_release, quota_report,
    quota_warning, rate_limit_detail, refused, release_by_regex, release_lookup_failed,
    repository_exists, resets_in, resolved_by_tag, unless_the_request_failed, Asset, Lookup, Quota,
    Release, SearchHit, LOW_QUOTA,
};
use vendorfiles::model::Repository;

/// A reading with `remaining` left and a window an hour out from `now`.
fn reading(remaining: u64) -> Quota {
    Quota {
        limit: 60,
        remaining,
        reset: 10_000 + 3600,
    }
}

fn repo() -> Repository {
    Repository {
        owner: "o".to_owned(),
        name: "r".to_owned(),
    }
}

#[test]
fn only_a_404_is_rewritten_as_the_thing_not_being_there() {
    let absent = || VendorError::ReleaseNotFound {
        version: "v1.0.0".to_owned(),
        owner: "o".to_owned(),
        repo: "r".to_owned(),
    };

    // GitHub answered "no such release", so that is what the user is told.
    let missing = unless_the_request_failed(
        VendorError::RequestFailed {
            status: 404,
            message: "Not Found".to_owned(),
        },
        absent(),
    );
    assert!(
        matches!(missing, VendorError::ReleaseNotFound { .. }),
        "{}",
        missing.to_text()
    );

    // Everything else is a failed request and has to survive intact. A refused token
    // reported as a missing release is what sent the reader to check a tag that was fine.
    for failure in [
        VendorError::BadCredentials,
        VendorError::RateLimited(" - 0 of 60 left".to_owned()),
        VendorError::RequestFailed {
            status: 503,
            message: String::new(),
        },
        VendorError::Http("connection reset".to_owned()),
    ] {
        let rendered = failure.to_text();
        let kept = unless_the_request_failed(failure, absent());
        assert!(
            !matches!(kept, VendorError::ReleaseNotFound { .. }),
            "{rendered} was rewritten as a missing release"
        );
        assert_eq!(kept.to_text(), rendered);
    }
}

#[test]
fn a_healthy_budget_says_nothing() {
    assert!(quota_warning(&reading(60), 0, 10_000).is_none());
    // The threshold is a floor, not a trigger: exactly at it is still healthy.
    assert!(quota_warning(&reading(LOW_QUOTA), 0, 10_000).is_none());
}

#[test]
fn a_low_budget_reports_what_is_left_and_how_to_raise_it() {
    // Pinned whole, the way the rest of the tool's wording is: this is what the user reads,
    // and it should only ever change on purpose.
    assert_eq!(
        quota_warning(&reading(LOW_QUOTA - 1), 0, 10_000).expect("a warning"),
        "39 of 60 GitHub API requests left this hour (resets in 60 min). \
         Run `vendor login` or use a GITHUB_TOKEN env variable to raise the limit to 5000"
    );
}

#[test]
fn what_the_run_has_spent_since_the_reading_comes_off_the_figure() {
    // 45 left at the start is healthy, but not after the run has spent 10 of them.
    assert!(quota_warning(&reading(45), 0, 10_000).is_none());
    let warning = quota_warning(&reading(45), 10, 10_000).expect("a warning");
    assert!(warning.starts_with("35 of 60"), "{warning}");
    // Spending more than the reading knew about cannot underflow into a huge number.
    let warning = quota_warning(&reading(45), 999, 10_000).expect("a warning");
    assert!(warning.starts_with("0 of 60"), "{warning}");
}

#[test]
fn a_reading_from_a_window_that_has_since_rolled_over_is_not_reported() {
    // The budget is back to full, so the old figure would only mislead.
    let stale = Quota {
        limit: 60,
        remaining: 1,
        reset: 9_000,
    };
    assert!(quota_warning(&stale, 0, 10_000).is_none());
}

#[test]
fn reset_times_read_as_english() {
    assert_eq!(resets_in(10_030, 10_000), "resets in under a minute");
    assert_eq!(resets_in(10_060, 10_000), "resets in 1 min");
    assert_eq!(resets_in(10_800, 10_000), "resets in 13 min");
    // A window already past is not a negative duration.
    assert_eq!(resets_in(9_000, 10_000), "resets in under a minute");
}

#[test]
fn mod_path_encoding_keeps_separators() {
    assert_eq!(encode_path("dist/coloris.min.js"), "dist/coloris.min.js");
    assert_eq!(encode_path("a b/c#d"), "a%20b/c%23d");
}

#[test]
fn mod_query_encoding_escapes_everything_unsafe() {
    assert_eq!(encode_query("v1.0.0"), "v1.0.0");
    assert_eq!(encode_query("feature/x"), "feature%2Fx");
}

#[test]
fn path_encoding_keeps_separators() {
    assert_eq!(encode_path("dist/coloris.min.js"), "dist/coloris.min.js");
    assert_eq!(encode_path("a b/c#d"), "a%20b/c%23d");
}

#[test]
fn query_encoding_escapes_everything_unsafe() {
    assert_eq!(encode_query("v1.0.0"), "v1.0.0");
    assert_eq!(encode_query("feature/x"), "feature%2Fx");
}

#[test]
fn encoding_goes_by_the_bytes_of_a_character() {
    assert_eq!(encode_query("é"), "%C3%A9");
    assert_eq!(encode_query("a-b_c.d~e"), "a-b_c.d~e");
    assert_eq!(encode_query("100%"), "100%25");
}

#[test]
fn plausible_tokens_exclude_base64_ciphertext() {
    assert!(is_plausible_token("ghp_0123456789abcdefghijklmnop"));
    assert!(is_plausible_token("github_pat_11ABCDEFG0abcdefghij"));
    assert!(!is_plausible_token("Zm9vYmFy+YmFyL2Zvbw=="));
    assert!(!is_plausible_token(""));
    assert!(!is_plausible_token("short"));
}

#[test]
fn tokens_do_not_leak_through_debug() {
    assert_eq!(Token::new("ghp_secret").debug_text(), "Token(***)");
}

#[test]
fn the_variable_beats_the_keyring() {
    let token = resolve_token(Some("ghp_variable"), Some("ghp_0123456789abcdefghijklmnop"), None);
    assert_eq!(token.unwrap().expose(), "ghp_variable");
    let token = resolve_token(None, None, Some("ghp_0123456789abcdefghijklmnop"));
    assert_eq!(token.unwrap().expose(), "ghp_0123456789abcdefghijklmnop");
    assert!(resolve_token(None, None, None).is_none());
}

#[test]
fn an_older_entry_that_is_ciphertext_is_ignored() {
    assert!(keyring_token(None, Some("Zm9vYmFy+YmFyL2Zvbw==")).is_none());
    let token = keyring_token(Some("ghp_0123456789abcdefghijklmnop"), Some("x"));
    assert_eq!(token.unwrap().expose(), "ghp_0123456789abcdefghijklmnop");
}

#[test]
fn saving_warns_of_a_store_that_refuses_or_forgets() {
    assert!(save_token(false, None).is_some());
    assert_eq!(save_token(true, None), None);
    let caveat = transience_warning(Persistence::UntilReboot);
    assert!(caveat.is_some_and(|w| w.contains("reboot")));
    assert_eq!(save_token(true, caveat), caveat);
}

#[test]
fn the_keyutils_store_is_reported_as_lost_on_reboot() {
    assert!(
        transience_warning(Persistence::UntilReboot).is_some_and(|w| w.contains("reboot")),
        "keyutils should warn about reboots"
    );
}

#[test]
fn credentials_desktop_keychains_are_durable() {
    assert_eq!(transience_warning(Persistence::UntilDelete), None);
}

#[test]
fn the_warning_says_exactly_what_the_store_reports() {
    for persistence in [
        Persistence::EntryOnly,
        Persistence::ProcessOnly,
        Persistence::UntilLogout,
        Persistence::UntilReboot,
        Persistence::UntilDelete,
        Persistence::Unknown,
    ] {
        let durable = matches!(persistence, Persistence::UntilDelete);
        assert_eq!(
            durable,
            transience_warning(persistence).is_none(),
            "a durable store must warn about nothing, and a transient one must warn"
        );
    }
}

#[test]
fn a_login_is_judged_by_its_status() {
    assert!(login_verdict(200).is_ok());
    assert_eq!(login_verdict(401), Err(VendorError::InvalidToken));
    assert_eq!(login_verdict(403), Err(VendorError::TokenRateLimited));
    assert_eq!(login_verdict(500), Err(VendorError::AuthUnknownFailure));
}

#[test]
fn a_logout_says_what_is_left_behind() {
    let removed = logout_report(Logout::Removed, false, false);
    assert_eq!(removed.len(), 1);
    assert_eq!(removed[0].0, Tone::Success);
    let nothing = logout_report(Logout::NotStored, true, true);
    assert_eq!(nothing[0].0, Tone::Info);
    assert!(nothing.len() > 1);
    assert!(nothing.iter().any(|(_, line)| line.contains("GITHUB_TOKEN")));
}

#[test]
fn an_absent_repository_is_told_from_a_failed_request() {
    assert_eq!(repository_exists(None), Some(true));
    assert_eq!(
        repository_exists(Some(&VendorError::RequestFailed {
            status: 404,
            message: String::new()
        })),
        Some(false)
    );
    assert_eq!(repository_exists(Some(&VendorError::BadCredentials)), None);
}

#[test]
fn an_exhausted_budget_is_read_from_the_headers() {
    assert_eq!(
        rate_limit_detail(403, Some("0"), Some("60"), Some("13600"), 10_000).as_deref(),
        Some(" - 0 of 60 left, resets in 60 min")
    );
    assert_eq!(rate_limit_detail(403, Some("5"), Some("60"), None, 10_000), None);
    assert_eq!(rate_limit_detail(404, Some("0"), Some("60"), None, 10_000), None);
}

#[test]
fn a_refusal_is_worded_by_what_came_back() {
    assert_eq!(message_of(parse_json(r#"{"message": "Not Found"}"#)), "Not Found");
    assert_eq!(message_of(parse_json("[1]")), "");
    assert_eq!(error_message("<html>"), "");
    assert_eq!(error_message(r#"{"message": "Moved"}"#), "Moved");
    assert_eq!(
        refused(403, Some(" - 0 of 60 left".to_owned()), "x".to_owned()),
        VendorError::RateLimited(" - 0 of 60 left".to_owned())
    );
    assert_eq!(refused(401, None, "Bad credentials".to_owned()), VendorError::BadCredentials);
}

#[test]
fn the_routes_are_encoded() {
    assert_eq!(
        contents_url(&repo(), "a b/c", Some("feature/x")),
        "https://api.github.com/repos/o/r/contents/a%20b/c?ref=feature%2Fx"
    );
    assert_eq!(
        contents_url(&repo(), "LICENSE", None),
        "https://api.github.com/repos/o/r/contents/LICENSE"
    );
    assert!(commits_route(&repo(), "dist/x.js").contains("path=dist%2Fx.js"));
}

#[test]
fn the_newest_commit_is_the_version() {
    assert_eq!(
        first_commit(vec!["abc".to_owned(), "def".to_owned()], &repo(), "x").unwrap(),
        "abc"
    );
    assert_eq!(
        first_commit(vec![], &repo(), "x").unwrap_err(),
        VendorError::NoCommitsFound {
            owner: "o".to_owned(),
            repo: "r".to_owned(),
            path: "x".to_owned()
        }
    );
}

fn release(tag: &str, name: Option<&str>, assets: Vec<Asset>) -> Release {
    Release {
        url: "https://api.github.com/repos/o/r/releases/1".to_owned(),
        tag_name: tag.to_owned(),
        name: name.map(str::to_owned),
        assets,
    }
}

fn asset(id: u64, name: &str, size: i64) -> Asset {
    Asset {
        id,
        name: name.to_owned(),
        size,
    }
}

#[test]
fn an_asset_is_found_by_its_name() {
    let listed = release("v1", None, vec![asset(7, "a.zip", 10), asset(8, "b.zip", 20)]);
    let place = asset_place(&repo(), &listed, "b.zip").unwrap();
    assert!(place.url.ends_with("/8"), "{}", place.url);
    assert_eq!(place.size, 20);
    assert_eq!(
        asset_place(&repo(), &listed, "c.zip").unwrap_err(),
        VendorError::ReleaseAssetNotFound {
            asset: "c.zip".to_owned(),
            url: listed.url.clone()
        }
    );
    assert_eq!(
        asset_place(&repo(), &release("v1", None, vec![]), "c.zip").unwrap_err(),
        VendorError::ReleaseAssetsMissing("https://api.github.com/repos/o/r/releases/1".to_owned())
    );
}

#[test]
fn a_missing_release_is_told_from_a_failed_lookup() {
    let missing = release_lookup_failed(
        VendorError::RequestFailed {
            status: 404,
            message: String::new(),
        },
        &repo(),
        "v1",
    );
    assert_eq!(
        missing,
        VendorError::ReleaseNotFound {
            version: "v1".to_owned(),
            owner: "o".to_owned(),
            repo: "r".to_owned()
        }
    );
    assert_eq!(
        release_lookup_failed(VendorError::BadCredentials, &repo(), "v1"),
        VendorError::BadCredentials
    );
}

#[test]
fn the_first_release_that_matches_is_taken() {
    let listed = vec![
        release("nightly", Some("Nightly"), vec![]),
        release("v2.0.0", Some("Two"), vec![]),
        release("v1.0.0", None, vec![]),
    ];
    assert_eq!(release_by_regex(&listed, &repo(), r"^v\d").unwrap(), 1);
    // The pattern may look around, which plain regular expressions cannot.
    assert_eq!(release_by_regex(&listed, &repo(), r"^v(?!2)").unwrap(), 2);
    assert_eq!(
        release_by_regex(&listed, &repo(), "^x").unwrap_err(),
        VendorError::NoMatchingRelease {
            regex: "^x".to_owned(),
            owner: "o".to_owned(),
            repo: "r".to_owned()
        }
    );
    assert_eq!(pick_release(&vec![false, true, true], &repo(), "x").unwrap(), 1);
    assert!(pick_release(&vec![], &repo(), "x").is_err());
}

#[test]
fn a_release_that_was_looked_up_is_not_looked_up_again() {
    let lookups = vec![
        Lookup {
            repo: "o/r".to_owned(),
            tag: Some("v1".to_owned()),
        },
        Lookup {
            repo: "o/q".to_owned(),
            tag: None,
        },
    ];
    assert_eq!(resolved_by_tag(&lookups, "o/r", "v1"), Some(0));
    assert_eq!(resolved_by_tag(&lookups, "o/r", "v2"), None);
    assert_eq!(resolved_by_tag(&lookups, "o/q", "v1"), None);
}

#[test]
fn a_range_is_read_only_where_it_is_offered() {
    let offer = |ok: bool, ranges: Option<&str>, length: Option<u64>| {
        offered_range(ok, ranges, length, "u".to_owned(), 100)
    };
    let range = offer(true, Some("bytes"), Some(1000)).unwrap();
    assert_eq!((range.url.as_str(), range.size), ("u", 1000));
    assert!(offer(false, Some("bytes"), Some(1000)).is_none());
    assert!(offer(true, None, Some(1000)).is_none());
    assert!(offer(true, Some("none"), Some(1000)).is_none());
    assert!(offer(true, Some("bytes"), None).is_none());
    assert!(offer(true, Some("bytes"), Some(99)).is_none());
}

fn hit(name: &str) -> SearchHit {
    SearchHit {
        name: name.to_owned(),
        full_name: Some(format!("someone/{name}")),
        html_url: Some(format!("https://github.com/someone/{name}")),
    }
}

#[test]
fn a_search_finds_a_repository_of_that_very_name() {
    assert_eq!(
        find_repo_url("FZF", Some(hit("fzf"))).unwrap(),
        "https://github.com/someone/fzf"
    );
    assert_eq!(
        find_repo_url("fz", Some(hit("fzf"))).unwrap_err(),
        VendorError::NoSearchResultsDidYouMean {
            name: "fz".to_owned(),
            suggestion: "fzf".to_owned()
        }
    );
    assert_eq!(
        find_repo_url("fz", None).unwrap_err(),
        VendorError::NoSearchResults("fz".to_owned())
    );
    assert!(hit_url("fz", false, hit("fzf")).is_err());
    assert!(hit_url("fz", true, hit("fzf")).is_ok());
}

#[test]
fn the_request_that_read_the_budget_is_not_spent_twice() {
    assert_eq!(quota_report(Some(reading(LOW_QUOTA)), 1, 10_000), None);
    let report = quota_report(Some(reading(LOW_QUOTA)), 2, 10_000).unwrap();
    assert!(report.starts_with("39 of 60"), "{report}");
    assert_eq!(quota_report(None, 1, 10_000), None);
}
