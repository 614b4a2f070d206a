//! What errors say, and how much of it fits a row.

use vendorfiles::error::{
    is_rate_limited, one_line, refusal, to_lower, trim, trim_end, IoFailure, VendorError,
};

fn io(message: &str) -> IoFailure {
    IoFailure {
        message: message.to_owned(),
        code: None,
        on_windows: false,
    }
}

#[test]
fn a_refusal_is_only_a_rate_limit_when_github_says_so() {
    assert!(is_rate_limited(
        403,
        "API rate limit exceeded for 1.2.3.4. (But here's the good news: ...)"
    ));
    // The secondary limits answer 429.
    assert!(is_rate_limited(
        429,
        "You have exceeded a secondary rate limit"
    ));
    // A bad or expired token is a 403 too, and must not be blamed on quota - the advice
    // would be to log in, which is the one thing that would not help.
    assert!(!is_rate_limited(403, "Bad credentials"));
    assert!(!is_rate_limited(
        403,
        "Resource not accessible by integration"
    ));
    // A limit message on some other status is not a refusal for quota.
    assert!(!is_rate_limited(404, "API rate limit exceeded"));
}

#[test]
fn brief_is_the_first_line_of_a_message_that_has_several() {
    // The 401 message puts its instruction on a second line; a row has space for one.
    let full = VendorError::BadCredentials.to_text();
    assert!(full.contains('\n'), "{full}");
    assert_eq!(
        VendorError::BadCredentials.brief(),
        "GitHub rejected the credentials (401 Bad credentials)."
    );
    // A wrapped source ends its first line with the colon that joins it to the context
    // below, and a row has nothing below it to point at.
    let wrapped = VendorError::FileDownloadFailed {
        file: "missing.md".to_owned(),
        repository: "https://github.com/o/r".to_owned(),
        version: "v1.0.0".to_owned(),
        source: Box::new(VendorError::RequestFailed {
            status: 404,
            message: "Not Found".to_owned(),
        }),
    };
    assert!(
        wrapped.to_text().contains("Not Found:\n"),
        "{}",
        wrapped.to_text()
    );
    assert_eq!(wrapped.brief(), "Request failed with status 404: Not Found");

    // A single-line message is its own brief.
    assert_eq!(
        VendorError::RequestFailed {
            status: 500,
            message: String::new(),
        }
        .brief(),
        "Request failed with status 500"
    );
}

#[test]
fn a_refusal_says_what_github_said_about_it_when_it_said_anything() {
    // The case this was written for: a 403 whose number could mean three different things,
    // and whose body says which.
    assert_eq!(
        VendorError::RequestFailed {
            status: 403,
            message: "Resource protected by organization SAML enforcement".to_owned(),
        }
        .to_text(),
        "Request failed with status 403: Resource protected by organization SAML enforcement"
    );
    // Nothing readable in the body leaves the old sentence untouched - no trailing colon.
    assert_eq!(
        VendorError::RequestFailed {
            status: 500,
            message: String::new(),
        }
        .to_text(),
        "Request failed with status 500"
    );
}

#[test]
fn a_file_that_will_not_budge_says_it_may_be_in_use() {
    let denied = VendorError::DeleteFailed {
        path: "tool.exe".to_owned(),
        source: IoFailure {
            message: "Access is denied. (os error 5)".to_owned(),
            code: Some(5),
            on_windows: true,
        },
    };
    let rendered = denied.to_text();
    assert!(
        rendered.starts_with("Could not delete tool.exe: "),
        "{rendered}"
    );
    assert!(
        rendered.ends_with("close whatever is running it and try again."),
        "{rendered}"
    );
    // The row still carries the failure, not the advice.
    assert_eq!(
        denied.brief(),
        "Could not delete tool.exe: Access is denied. (os error 5)"
    );

    // An unrelated failure gets no hint invented for it.
    let other = VendorError::DeleteFailed {
        path: "tool.exe".to_owned(),
        source: IoFailure {
            message: "invalid data".to_owned(),
            code: None,
            on_windows: true,
        },
    };
    assert!(!other.to_text().contains("may be in use"), "{}", other.to_text());
}

#[test]
fn the_hint_is_for_windows_alone() {
    let denied = VendorError::DeleteFailed {
        path: "tool".to_owned(),
        source: IoFailure {
            message: "Input/output error (os error 5)".to_owned(),
            code: Some(5),
            on_windows: false,
        },
    };
    assert_eq!(
        denied.to_text(),
        "Could not delete tool: Input/output error (os error 5)"
    );
}

#[test]
fn a_download_failure_names_a_version_only_when_there_is_one() {
    let failed = |version: &str| {
        VendorError::FileDownloadFailed {
            file: "README.md".to_owned(),
            repository: "https://github.com/o/r".to_owned(),
            version: version.to_owned(),
            source: Box::new(VendorError::RequestFailed {
                status: 404,
                message: "Not Found".to_owned(),
            }),
        }
        .to_text()
    };
    assert!(failed("v1.0.0").ends_with("from https://github.com/o/r with version v1.0.0"));
    // A repository with no usable release leaves the version empty, and the clause used to
    // be printed anyway - ending the sentence on "with version " and nothing else.
    assert!(
        failed("").ends_with("from https://github.com/o/r"),
        "{}",
        failed("")
    );
}

#[test]
fn a_message_from_github_is_bounded_before_it_reaches_a_row() {
    assert_eq!(
        one_line("  Resource not accessible  "),
        "Resource not accessible"
    );
    // An error page, or anything else multi-line, contributes its first line and no more.
    assert_eq!(one_line("Not Found\nthen a stack trace"), "Not Found");
    assert_eq!(one_line(""), "");

    let long = one_line(&"x".repeat(500));
    assert_eq!(long.chars().count(), 200);
    assert!(long.ends_with('\u{2026}'), "{long}");
}

#[test]
fn one_line_of_one_line_is_that_line() {
    for message in ["", "  a b \r\nc", &"x".repeat(500), &format!("{} y", "x ".repeat(99))] {
        let once = one_line(message);
        assert_eq!(one_line(&once), once);
    }
}

#[test]
fn the_rate_limit_message_carries_its_specifics_and_always_its_advice() {
    let bare = VendorError::RateLimited(String::new()).to_text();
    assert!(
        bare.starts_with("GitHub API rate limit reached\n"),
        "{bare}"
    );
    assert!(bare.contains("vendor login"));
    assert!(bare.contains("60 an hour"));

    let detailed =
        VendorError::RateLimited(" - 0 of 60 left, resets in 12 min".to_owned()).to_text();
    assert!(
        detailed.starts_with("GitHub API rate limit reached - 0 of 60 left, resets in 12 min\n"),
        "{detailed}"
    );
}

#[test]
fn a_status_decides_which_refusal_it_is() {
    assert_eq!(refusal(401, "Bad credentials"), VendorError::BadCredentials);
    assert_eq!(
        refusal(403, "API rate limit exceeded"),
        VendorError::RateLimited(String::new())
    );
    assert_eq!(
        refusal(404, "Not Found"),
        VendorError::RequestFailed {
            status: 404,
            message: "Not Found".to_owned()
        }
    );
}

#[test]
fn the_config_errors_name_what_they_are_about() {
    assert_eq!(
        VendorError::InvalidDependenciesKey("p".to_owned()).to_text(),
        "Invalid vendorDependencies key in p"
    );
    assert_eq!(
        VendorError::InvalidConfigKey("p".to_owned()).to_text(),
        "Invalid vendorConfig key in p"
    );
    assert_eq!(
        VendorError::DependencyLocked("fzf".to_owned()).to_text(),
        "Dependency fzf is locked and cannot be upgraded"
    );
    assert_eq!(
        VendorError::NoFilesForDependency("fzf".to_owned()).to_text(),
        "No files found for dependency fzf"
    );
    assert_eq!(
        VendorError::InvalidGitHubUrlQuoted("x".to_owned()).to_text(),
        "Invalid GitHub URL \"x\""
    );
    assert!(VendorError::ReadFile {
        path: "p/q".to_owned(),
        source: io("gone")
    }
    .to_text()
    .contains("p/q"));
    assert!(VendorError::WriteFile {
        path: "p/q".to_owned(),
        source: io("full")
    }
    .to_text()
    .contains("p/q"));
    assert_eq!(VendorError::Io { source: io("broken pipe") }.to_text(), "broken pipe");
    assert_eq!(VendorError::Http("reset".to_owned()).to_text(), "reset");
}

#[test]
fn space_is_trimmed_from_the_ends() {
    assert_eq!(trim("\t a b \n"), "a b");
    assert_eq!(trim_end(" a \n"), " a");
    assert_eq!(to_lower("Rate LIMIT"), "rate limit");
}
