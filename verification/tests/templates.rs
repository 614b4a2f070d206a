//! Placeholders, repository addresses and the text helpers under them.

use vendorfiles::template::{
    basename, is_github_url, is_owner_repo_shorthand, is_release_path,
    owner_and_name_from_repo_url, replace_vendor_folder, replace_version, strip_release_prefix,
    token_from_core, trim_end_matches_str, trim_start_matches_str, version_token,
};
use vendorfiles::text;

#[test]
fn github_url_matching_mirrors_the_reference_regex() {
    assert!(is_github_url("https://github.com/a/b"));
    assert!(is_github_url("http://www.github.com/a/b"));
    assert!(!is_github_url("https://github.com/a/b/c"));
    assert!(!is_github_url("https://gitlab.com/a/b"));
    assert!(!is_github_url("github.com/a/b"));
}

#[test]
fn the_base_name_goes_by_the_separators_of_the_platform() {
    assert_eq!(basename(true, r"dist\coloris.min.js"), "coloris.min.js");
    assert_eq!(basename(true, "C:tool.exe"), "tool.exe");
    assert_eq!(basename(true, r"C:\"), "");
    assert_eq!(basename(false, r"dist\x.js"), r"dist\x.js");
    assert_eq!(basename(false, "a/.."), "..");
}

#[test]
fn a_repository_url_ends_in_its_owner_and_name() {
    for start in ["https://", "http://", "https://www.", "http://www."] {
        let url = format!("{start}github.com/github.com/x.y-z");
        assert!(is_github_url(&url));
        let repo = owner_and_name_from_repo_url(&url).unwrap();
        assert_eq!(repo.owner, "github.com");
        assert_eq!(repo.name, "x.y-z");
    }
    assert!(owner_and_name_from_repo_url("https://gitlab.com/a/b").is_err());
}

#[test]
fn owner_and_name_are_extracted_from_any_github_url() {
    let repo = owner_and_name_from_repo_url("https://www.github.com/junegunn/fzf").unwrap();
    assert_eq!(repo.owner, "junegunn");
    assert_eq!(repo.name, "fzf");
    assert_eq!(
        owner_and_name_from_repo_url("nope").unwrap_err().to_text(),
        "Invalid GitHub URL: nope"
    );
}

#[test]
fn version_token_prefers_the_semver_core() {
    assert_eq!(version_token("v1.2.3"), "1.2.3");
    assert_eq!(version_token("1.2.3-alpha.1"), "1.2.3");
    assert_eq!(version_token("release-2.0.0-rc"), "2.0.0");
    assert_eq!(version_token("vvnightly"), "nightly");
    assert_eq!(version_token(""), "");
}

#[test]
fn the_token_of_a_version_is_its_core_where_it_has_one() {
    assert_eq!(token_from_core(Some("1.2.3".to_owned()), "v1.2.3-rc"), "1.2.3");
    assert_eq!(token_from_core(None, "vvnightly"), "nightly");
}

#[test]
fn only_the_first_placeholder_is_replaced() {
    assert_eq!(
        replace_version("a-{version}/b-{version}.zip", "v1.2.3"),
        "a-1.2.3/b-{version}.zip"
    );
    assert_eq!(
        strip_release_prefix("{release}/x-{release}/y"),
        "x-{release}/y"
    );
}

#[test]
fn the_folder_placeholder_is_replaced_once() {
    assert_eq!(
        replace_vendor_folder("{vendorFolder}/ct/{vendorFolder}", "./deps"),
        "./deps/ct/{vendorFolder}"
    );
    assert!(is_release_path("{release}/x.zip"));
    assert!(!is_release_path("x.zip"));
}

#[test]
fn trims_repeat_until_exhausted() {
    assert_eq!(trim_start_matches_str("vvv1.0", "v"), "1.0");
    assert_eq!(trim_end_matches_str("a...", "."), "a");
    assert_eq!(trim_start_matches_str("abc", ""), "abc");
}

#[test]
fn basename_matches_node() {
    assert_eq!(basename(false, "dist/coloris.min.js"), "coloris.min.js");
    assert_eq!(basename(false, "LICENSE"), "LICENSE");
    assert_eq!(basename(false, ""), "");
    assert_eq!(basename(false, "a/.."), "..");
    assert_eq!(basename(false, "a/b/"), "b");
}

#[test]
fn owner_repo_shorthand_is_recognised() {
    assert!(is_owner_repo_shorthand("Araxeus/vendorfiles"));
    assert!(!is_owner_repo_shorthand("vendorfiles"));
    assert!(!is_owner_repo_shorthand("a/b/c"));
}

#[test]
fn numbers_are_written_and_read_in_decimal() {
    assert_eq!(text::decimal(0), "0");
    assert_eq!(text::decimal(u64::MAX), "18446744073709551615");
    assert_eq!(text::parse_unsigned("42"), Some(42));
    assert_eq!(text::parse_unsigned("18446744073709551616"), None);
    assert_eq!(text::parse_unsigned(""), None);
    assert_eq!(text::parse_unsigned("4x"), None);
    assert_eq!(text::parse_number("300", 255), None);
}

#[test]
fn splitting_and_joining_undo_each_other() {
    let pieces = text::split_on("a/b//c", '/');
    assert_eq!(pieces, ["a", "b", "", "c"]);
    assert_eq!(text::join_with(&pieces, '/'), "a/b//c");
    assert_eq!(text::join_by(&pieces, ", "), "a, b, , c");
    assert_eq!(text::lines("a\r\nb\n"), ["a", "b"]);
}

#[test]
fn every_occurrence_is_replaced_left_to_right() {
    assert_eq!(text::replace_all("aaa", "aa", "b"), "ba");
    assert_eq!(text::replace_first("aaa", "aa", "b"), "ba");
    assert_eq!(text::to_slashes("a\\b\\c"), "a/b/c");
}

#[test]
fn only_a_leading_release_marker_is_stripped() {
    assert_eq!(strip_release_prefix("x/{release}/y"), "x/{release}/y");
    assert_eq!(strip_release_prefix("{release}/{release}/y"), "{release}/y");
}
