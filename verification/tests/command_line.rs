//! The command line: what is answered before parsing, how operands are counted, how a parse failure
//! is worded, and how an install source is read.

use vendorfiles::cli::{commander_message, first_operand, locate_command, ParseFailure};
use vendorfiles::grammar::{
    commands, find, is_option_like, option_display, root_options, strip_dashes, Arity,
};
use vendorfiles::help::{intercept, Intercept};
use vendorfiles::help_text;
use vendorfiles::source::{looks_like_bare_version, split};

fn args(list: &[&str]) -> Vec<String> {
    list.iter().map(|s| (*s).to_owned()).collect()
}

#[test]
fn no_arguments_is_a_usage_error() {
    assert_eq!(intercept(&args(&[])), Intercept::UsageError);
    assert_eq!(intercept(&args(&["-c"])), Intercept::UsageError);
}

#[test]
fn root_flags_are_answered_before_any_command() {
    assert_eq!(
        intercept(&args(&["--help"])),
        Intercept::Print(help_text::ROOT_HELP)
    );
    assert_eq!(intercept(&args(&["-v"])), Intercept::Version);
}

#[test]
fn subcommand_help_wins_over_missing_arguments() {
    let install = find("install").unwrap();
    assert_eq!(
        intercept(&args(&["install", "-h"])),
        Intercept::Print(install.help)
    );
    assert_eq!(
        intercept(&args(&["i", "--help"])),
        Intercept::Print(install.help)
    );
}

#[test]
fn help_subcommand_resolves_its_topic() {
    let sync = find("sync").unwrap();
    assert_eq!(
        intercept(&args(&["help"])),
        Intercept::Print(help_text::ROOT_HELP)
    );
    assert_eq!(
        intercept(&args(&["help", "sync"])),
        Intercept::Print(sync.help)
    );
    assert_eq!(intercept(&args(&["help", "nope"])), Intercept::UsageError);
}

#[test]
fn real_invocations_are_handed_to_the_parser() {
    assert_eq!(intercept(&args(&["sync", "-f"])), Intercept::Parse);
    assert_eq!(
        intercept(&args(&["-c", "dir", "outdated"])),
        Intercept::Parse
    );
    assert_eq!(intercept(&args(&["frobnicate"])), Intercept::Parse);
}

#[test]
fn a_help_flag_behind_the_command_is_answered_wherever_it_stands() {
    let uninstall = find("uninstall").unwrap();
    assert_eq!(
        intercept(&args(&["uninstall", "--", "--help"])),
        Intercept::Print(uninstall.help)
    );
}

#[test]
fn aliases_resolve_to_their_command() {
    assert_eq!(find("s").unwrap().name, "sync");
    assert_eq!(find("bump").unwrap().name, "update");
    assert_eq!(find("rm").unwrap().name, "uninstall");
    assert_eq!(find("auth").unwrap().name, "login");
    assert!(find("nope").is_none());
}

#[test]
fn operand_counting_skips_options_and_their_values() {
    let install = find("install").unwrap();
    assert_eq!(install.count_operands(&args(&["React", "v1"])), 2);
    // A variadic option swallows every following value, so `v1` never becomes an operand.
    assert_eq!(
        install.count_operands(&args(&["React", "-f", "a.txt", "b.txt", "v1"])),
        1
    );
    assert_eq!(
        install.count_operands(&args(&["React", "v1", "-f", "a.txt"])),
        2
    );
    assert_eq!(install.count_operands(&args(&["-n", "Name", "React"])), 1);
    assert_eq!(install.count_operands(&args(&["--name=Foo", "React"])), 1);

    let sync = find("sync").unwrap();
    // A root option is global, so its value is not an operand wherever it appears.
    assert_eq!(sync.count_operands(&args(&["-c", "some/path"])), 0);
    assert_eq!(sync.count_operands(&args(&["-c", "some/path", "extra"])), 1);
    assert_eq!(
        install.count_operands(&args(&["React", "v1", "--config", "p"])),
        2
    );
    assert_eq!(sync.count_operands(&args(&["-f"])), 0);
    assert_eq!(sync.count_operands(&args(&["-f", "extra"])), 1);
}

#[test]
fn double_dash_makes_everything_an_operand() {
    let sync = find("sync").unwrap();
    assert_eq!(sync.count_operands(&args(&["--", "-f", "x"])), 2);
}

#[test]
fn what_stands_in_front_of_a_double_dash_counts_as_it_would_alone() {
    let install = find("install").unwrap();
    let count = |list: &[&str]| install.count_operands(&args(list));
    assert_eq!(count(&["React", "-n", "--", "-f", "x"]), 3);
    assert_eq!(count(&["React", "-n"]) + 2, 3);
    assert_eq!(count(&["-f", "a", "b", "--", "c", "--", "-d"]), 3);
    assert_eq!(count(&["-f", "a", "b"]), 0);
}

#[test]
fn every_name_and_alias_finds_its_own_command() {
    for command in commands() {
        for name in command.aliases.iter().chain([&command.name]) {
            assert_eq!(find(name).unwrap().name, command.name);
        }
    }
}

#[test]
fn option_like_ignores_a_lone_dash() {
    assert!(is_option_like("-f"));
    assert!(is_option_like("--files"));
    assert!(!is_option_like("-"));
    assert!(!is_option_like("file"));
}

#[test]
fn option_display_uses_commander_wording() {
    assert_eq!(
        option_display(find("install").as_ref(), "files"),
        Some("-f, --files <files...>")
    );
    // `<…>`, not `[…]`: the value is required here.
    assert_eq!(
        option_display(None, "config"),
        Some("-c, --config <file/folder path>")
    );
}

#[test]
fn an_option_nobody_takes_has_no_wording() {
    assert_eq!(option_display(find("sync").as_ref(), "files"), None);
    assert_eq!(option_display(None, "nope"), None);
}

#[test]
fn no_name_or_alias_is_taken_twice() {
    let mut seen: Vec<&str> = Vec::new();
    for command in commands() {
        assert!(!seen.contains(&command.name), "{}", command.name);
        seen.push(command.name);
        for alias in command.aliases {
            assert!(!seen.contains(&alias), "{alias}");
            seen.push(alias);
        }
    }
}

#[test]
fn the_root_options_are_global() {
    let root = root_options();
    assert!(root.iter().any(|o| o.long == "--config" && o.short == Some('c')));
    assert!(root.iter().any(|o| o.long == "--plain" && o.arity == Arity::Flag));
    assert_eq!(strip_dashes("--config"), "config");
    assert_eq!(strip_dashes("-c"), "c");
    assert_eq!(strip_dashes("plain"), "plain");
}

#[test]
fn the_command_is_the_first_operand() {
    assert_eq!(first_operand(&args(&["-c", "dir", "sync"])), Some(2));
    assert_eq!(first_operand(&args(&["--config=dir", "sync"])), Some(1));
    assert_eq!(first_operand(&args(&["-v"])), None);
    let (index, command) = locate_command(&args(&["-c", "dir", "rm", "x"])).unwrap();
    assert_eq!((index, command.name), (2, "uninstall"));
    assert!(locate_command(&args(&["frobnicate"])).is_none());
}

/// The wording of a failure that is about an argument.
fn said(kind: ParseFailure, argument: &str, given: &[&str]) -> String {
    commander_message(kind, None, Some(argument), &args(given))
}

#[test]
fn cli_argument_errors_match_the_reference() {
    assert_eq!(
        commander_message(
            ParseFailure::InvalidSubcommand,
            Some("frobnicate"),
            None,
            &args(&["frobnicate"])
        ),
        "unknown command 'frobnicate'"
    );
    assert_eq!(
        said(ParseFailure::UnknownArgument, "--nope", &["sync", "--nope"]),
        "unknown option '--nope'"
    );
    assert_eq!(
        said(ParseFailure::UnknownArgument, "--bad", &["uninstall", "--bad"]),
        "unknown option '--bad'"
    );
    assert_eq!(
        said(ParseFailure::MissingRequiredArgument, "<url/name>...", &["install"]),
        "missing required argument 'url/name'"
    );
    assert_eq!(
        said(ParseFailure::MissingRequiredArgument, "<url/name>...", &["install", "-n"]),
        "missing required argument 'url/name'"
    );
    assert_eq!(
        said(ParseFailure::InvalidValue, "--files <files>...", &["install", "--files"]),
        "option '-f, --files <files...>' argument missing"
    );
    assert_eq!(
        said(ParseFailure::InvalidValue, "--config <config>", &["sync", "-c"]),
        "option '-c, --config <file/folder path>' argument missing"
    );
    assert_eq!(
        said(ParseFailure::InvalidValue, "--config <config>", &["uninstall", "-c"]),
        "option '-c, --config <file/folder path>' argument missing"
    );
    assert_eq!(
        said(ParseFailure::UnknownArgument, "extra", &["sync", "extra"]),
        "too many arguments for 'sync'. Expected 0 arguments but got 1."
    );
}

#[test]
fn a_config_subcommand_that_does_not_exist_is_worded_like_any_unknown_command() {
    assert_eq!(
        commander_message(
            ParseFailure::InvalidSubcommand,
            Some("frobnicate"),
            None,
            &args(&["config", "frobnicate"])
        ),
        "unknown command 'frobnicate'"
    );
    assert_eq!(
        said(
            ParseFailure::UnknownArgument,
            "two",
            &["config", "edit", "one", "two"]
        ),
        "too many arguments for 'config'. Expected 2 arguments but got 3."
    );
    assert_eq!(
        said(ParseFailure::UnknownArgument, "extra", &["list", "extra"]),
        "too many arguments for 'list'. Expected 0 arguments but got 1."
    );
}

#[test]
fn a_failure_about_nothing_is_an_invalid_invocation() {
    for kind in [
        ParseFailure::InvalidSubcommand,
        ParseFailure::TooManyValues,
        ParseFailure::MissingRequiredArgument,
        ParseFailure::TooFewValues,
        ParseFailure::NoEquals,
        ParseFailure::Other,
    ] {
        assert_eq!(
            commander_message(kind, None, None, &args(&["sync"])),
            "invalid arguments"
        );
    }
}

#[test]
fn a_source_with_no_at_sign_carries_no_version() {
    assert_eq!(split("rg"), ("rg", None));
    assert_eq!(split("owner/repo"), ("owner/repo", None));
    assert_eq!(
        split("https://github.com/o/r"),
        ("https://github.com/o/r", None)
    );
}

#[test]
fn the_half_after_the_at_sign_is_the_version() {
    assert_eq!(split("rg@1.2.3"), ("rg", Some("1.2.3")));
    assert_eq!(split("owner/repo@v1.0.0"), ("owner/repo", Some("v1.0.0")));
    assert_eq!(
        split("https://github.com/o/r@v1.0.0"),
        ("https://github.com/o/r", Some("v1.0.0"))
    );
}

#[test]
fn an_at_sign_before_the_last_slash_belongs_to_the_url() {
    // Userinfo in a URL, not a version: the `@` has to come after the last `/` to be a
    // separator, or a host would be read as one.
    assert_eq!(
        split("https://user@github.com/o/r"),
        ("https://user@github.com/o/r", None)
    );
}

#[test]
fn a_version_that_is_not_there_is_not_a_version() {
    assert_eq!(split("rg@"), ("rg", None));
    // Nothing before the `@` means nothing was separated.
    assert_eq!(split("@scope"), ("@scope", None));
    assert_eq!(split("@"), ("@", None));
}

#[test]
fn the_last_at_sign_wins() {
    assert_eq!(split("rg@1@2"), ("rg@1", Some("2")));
}

#[test]
fn a_dotted_number_is_a_bare_version() {
    assert!(looks_like_bare_version("v1.0.0"));
    assert!(looks_like_bare_version("1.0.0"));
    assert!(looks_like_bare_version("v0.17"));
    assert!(looks_like_bare_version("v1.0.0-beta.1"));
    assert!(looks_like_bare_version("1.0.0+build2"));
}

#[test]
fn a_full_commit_sha_is_a_bare_version() {
    assert!(looks_like_bare_version(
        "f6ec482ea395cead4fd849c05df6edd8da284a52"
    ));
}

#[test]
fn a_name_that_could_be_a_repository_is_not_a_bare_version() {
    assert!(!looks_like_bare_version("fd"));
    assert!(!looks_like_bare_version("owner/repo"));
    assert!(!looks_like_bare_version("https://github.com/o/r"));
    assert!(!looks_like_bare_version("v1"));
    assert!(!looks_like_bare_version("1"));
    assert!(!looks_like_bare_version(""));
    // A short hex string is a plausible name; only a whole sha is unmistakable.
    assert!(!looks_like_bare_version("deadbee"));
    assert!(!looks_like_bare_version("v1.0.0-"));
}
