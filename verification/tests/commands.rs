//! The commands: what each does with a config, short of touching the disk or the network.

use vendorfiles::config::Workspace;
use vendorfiles::codec::{parse_json, to_compact_text};
use vendorfiles::error::VendorError;
use vendorfiles::help::{intercept, Intercept};
use vendorfiles::help_text;
use vendorfiles::known::{find, itself, release_asset, REPOSITORY};
use vendorfiles::lockfile::{config_files_to_lock_files, read_lockfile, VendorLock};
use vendorfiles::model::{
    write_files, DefaultOptions, FileEntry, FileSpec, FileTarget, RawDependency,
};
use vendorfiles::ops::install::{
    asset_plan, batches, decide, download_failed, release_status, repo_destination, repo_status,
    report_outdated, AssetPlan, Commit, InstallOptions,
};
use vendorfiles::ops::sync::{
    phase, printed_summary, pull_request_body, rows_for, Bump, BumpCandidate, Step, SyncOptions,
    Traversal, MAX_CONCURRENT_DOWNLOADS,
};
use vendorfiles::ops::uninstall::{lockfile_end, LockfileEnd, Removal, Uninstall};
use vendorfiles::ops::version::{
    commit_version, decide_version, declared_files, release_version, version_source, VersionSource,
};
use vendorfiles::ops::{display_version, Session, LOCKFILE};
use vendorfiles::registry::Registry;
use vendorfiles::run::{
    after_editor, check_sources, dispatch, editors, merge_install_entry, needs, nothing_listed,
    pr_mode, preview, preview_folder, preview_heading, shell, source_urls, sync_options,
    wants_registry, Action, AfterEditor, Command, Editor, Inherited, Needs, Ran, Shell, Source,
    PREVIEW_END,
};
use vendorfiles::ui;

fn dep(json: &str) -> RawDependency {
    RawDependency::from_json(&parse_json(json).expect("valid entry"))
}

fn defaults(json: &str) -> DefaultOptions {
    dep(json)
}

fn files(list: &[&str]) -> Vec<FileEntry> {
    list.iter()
        .map(|f| FileEntry::Simple((*f).to_owned()))
        .collect()
}

/// A list of files as it stands in a config, to compare by.
fn shown(files: &Option<Vec<FileEntry>>) -> Option<String> {
    files
        .as_ref()
        .map(|files| to_compact_text(&write_files(files)).unwrap())
}

fn project(config: &str) -> Session {
    Session::new(Workspace::from_text(false, "/proj/vendor.json", config).expect("a valid config"))
}

fn refused(config: &str) -> String {
    Workspace::from_text(false, "/proj/vendor.json", config)
        .unwrap_err()
        .to_text()
}

#[test]
fn only_the_names_this_tool_answers_to_are_known() {
    for name in ["vendorfiles", "vendorfiles-rs", "vendor"] {
        assert!(find(name, "linux", None).is_some());
    }
    assert!(find("fzf", "linux", None).is_none());
    assert!(find("", "linux", None).is_none());
}

#[test]
fn the_entry_extracts_this_platform_s_executable_from_a_release_asset() {
    for os in ["windows", "macos", "linux"] {
        let (asset, member) = release_asset(os);
        let known = itself(os, None);
        assert_eq!(known.repository, REPOSITORY);

        let [FileEntry::Mapped(files)] = known.files.as_slice() else {
            panic!("expected one mapped entry, found {:?}", known.files);
        };
        assert_eq!(files.key_at(0), format!("{{release}}/{asset}"));

        // Extracted under its own name, so the destination is the running binary itself.
        let FileTarget::ExtractList(members) = files.value_at(0) else {
            panic!("expected an extraction list, found {:?}", files.value_at(0));
        };
        assert_eq!(members, &vec![member.to_owned()]);
    }
}

#[test]
fn the_asset_name_carries_the_tag_s_leading_v() {
    // `{version}` is the semver core, so `v` has to be spelled out to match a `v2.0.4` tag.
    for os in ["windows", "macos", "linux"] {
        let (asset, _) = release_asset(os);
        assert!(asset.contains("_v{version}_"), "{asset}");
        assert!(asset.starts_with("vendor_"), "{asset}");
    }
}

#[test]
fn the_folder_of_a_known_program_is_the_one_it_was_given() {
    let known = find("vendor", "linux", Some("/usr/local/bin".to_owned())).unwrap();
    assert_eq!(known.folder.as_deref(), Some("/usr/local/bin"));
}

#[test]
fn a_dependency_the_config_never_listed_still_inherits_the_default_block() {
    // The reported bug: the first `vendor add` ignored `default.vendorFolder`, so the file
    // landed in a folder named after the dependency, and the second run - which read the
    // entry back from the config with defaults applied - used a different folder.
    let entry = merge_install_entry(
        RawDependency::empty(),
        &defaults(r#"{"vendorFolder": "{vendorFolder}", "locked": false}"#),
        "https://github.com/mvdan/sh".to_owned(),
        Some(files(&["{release}/shfmt_v{version}_windows_amd64.exe"])),
    );
    assert_eq!(entry.vendor_folder.as_deref(), Some("{vendorFolder}"));
    assert_eq!(entry.locked, Some(false));
}

#[test]
fn the_second_run_resolves_to_the_same_entry_as_the_first() {
    let block = defaults(r#"{"vendorFolder": "{vendorFolder}"}"#);
    let repository = "https://github.com/mvdan/sh".to_owned();
    let requested = || Some(files(&["{release}/shfmt_v{version}_windows_amd64.exe"]));

    let first = merge_install_entry(
        RawDependency::empty(),
        &block,
        repository.clone(),
        requested(),
    );
    // What the first run wrote to the config, as loading it would hand it back: only the keys
    // specific to the dependency, with the defaults folded in again.
    let mut from_config = RawDependency {
        version: Some("v3.13.1".to_owned()),
        repository: Some(repository.clone()),
        files: requested(),
        ..RawDependency::empty()
    };
    from_config.apply_defaults(&block);
    let second = merge_install_entry(from_config, &block, repository, requested());

    assert_eq!(first.vendor_folder, second.vendor_folder);
    assert_eq!(shown(&first.files), shown(&second.files));
    assert_eq!(first.repository, second.repository);
}

#[test]
fn an_explicit_value_beats_the_default_block() {
    let entry = merge_install_entry(
        RawDependency {
            vendor_folder: Some("./somewhere-else".to_owned()),
            ..RawDependency::empty()
        },
        &defaults(r#"{"vendorFolder": "{vendorFolder}"}"#),
        "https://github.com/a/b".to_owned(),
        Some(files(&["LICENSE"])),
    );
    assert_eq!(entry.vendor_folder.as_deref(), Some("./somewhere-else"));
}

#[test]
fn a_configured_repository_url_is_not_rewritten_by_the_shorthand() {
    let entry = merge_install_entry(
        RawDependency {
            repository: Some("https://github.com/mvdan/sh".to_owned()),
            ..RawDependency::empty()
        },
        &DefaultOptions::empty(),
        "https://www.github.com/mvdan/sh".to_owned(),
        Some(files(&["LICENSE"])),
    );
    assert_eq!(
        entry.repository.as_deref(),
        Some("https://github.com/mvdan/sh")
    );
}

#[test]
fn files_fall_back_to_the_default_block_when_none_are_given() {
    let entry = merge_install_entry(
        RawDependency::empty(),
        &defaults(r#"{"files": ["LICENSE"]}"#),
        "https://github.com/a/b".to_owned(),
        None,
    );
    assert_eq!(shown(&entry.files), shown(&Some(files(&["LICENSE"]))));
}

/// A neighbour: an entry under some other name already vendoring the same repository.
fn neighbour(version: Option<&str>, list: Option<&[&str]>) -> RawDependency {
    RawDependency {
        version: version.map(str::to_owned),
        repository: Some("https://github.com/a/b".to_owned()),
        files: list.map(files),
        ..RawDependency::empty()
    }
}

/// What `install` would print, given that neighbour and `--files` state.
fn warning(existing: &RawDependency, files_given: bool) -> Option<String> {
    Inherited::from_neighbour(existing, files_given).warning(
        "first",
        "second",
        "https://github.com/a/b",
    )
}

#[test]
fn a_neighbour_with_files_and_a_version_hands_over_both() {
    let said = warning(&neighbour(Some("v1.0.0"), Some(&["LICENSE"])), false)
        .expect("both halves were borrowed");
    assert_eq!(
        said,
        "'first' already vendors https://github.com/a/b, so 'second' inherits its files and \
         version. Pass --files to give 'second' its own files; the version comes from 'first' \
         either way."
    );
    // The advice must not promise that `--files` separates the whole entry.
    assert!(!said.contains("separately"), "{said}");
}

#[test]
fn an_explicit_files_list_still_leaves_the_version_borrowed() {
    // The `--files` half is described by the command, but the entry still starts out at the
    // neighbour's version, so the config write can still be skipped.
    let said = warning(&neighbour(Some("v1.0.0"), Some(&["LICENSE"])), true)
        .expect("the version is borrowed regardless");
    assert_eq!(
        said,
        "'first' already vendors https://github.com/a/b, so 'second' inherits its version."
    );
    // Advice that would not help is not given.
    assert!(!said.contains("--files"), "{said}");
}

#[test]
fn a_neighbour_with_no_files_does_not_claim_to_have_supplied_them() {
    // Files come from a known name or the registry here, not from the neighbour.
    let said = warning(&neighbour(Some("v1.0.0"), None), false).expect("the version is still");
    assert!(said.ends_with("inherits its version."), "{said}");
}

#[test]
fn an_empty_files_list_counts_as_none() {
    let said = warning(&neighbour(Some("v1.0.0"), Some(&[])), false).expect("the version");
    assert!(said.ends_with("inherits its version."), "{said}");
}

#[test]
fn a_neighbour_with_no_version_hands_over_only_its_files() {
    let said =
        warning(&neighbour(None, Some(&["LICENSE"])), false).expect("the files are borrowed");
    assert_eq!(
        said,
        "'first' already vendors https://github.com/a/b, so 'second' inherits its files. \
         Pass --files to describe 'second' separately."
    );
}

#[test]
fn an_empty_version_counts_as_none() {
    assert_eq!(warning(&neighbour(Some(""), None), false), None);
}

#[test]
fn a_neighbour_that_hands_over_nothing_is_not_worth_mentioning() {
    // Bare `repository`, and `--files` on the command line: everything about the new entry
    // was decided elsewhere.
    assert_eq!(warning(&neighbour(None, Some(&["LICENSE"])), true), None);
    assert_eq!(warning(&neighbour(None, None), false), None);
}

/// A source the user gave as a repository's address.
fn by_url(url: &str) -> Source {
    Source {
        lookup: url.to_owned(),
        stored: url.to_owned(),
        known: None,
        listed: None,
    }
}

const NEIGHBOURED: &str = "https://github.com/vendorfiles-rs-tests/not-a-real-repository";

/// The neighbour the surprising case needs: a repository, a version and files.
fn described_neighbour() -> Session {
    project(&format!(
        r#"{{"vendorDependencies":{{"first":{{"repository":"{NEIGHBOURED}","version":"v1.0.0","files":["LICENSE"]}}}}}}"#
    ))
}

#[test]
fn adding_a_second_name_for_one_repository_says_it_is_inheriting() {
    // The trap: without `--files`, the new entry silently takes the neighbour's files *and* its
    // version, and when that version already matches nothing is written at all.
    let entry = described_neighbour()
        .install_entry(&by_url(NEIGHBOURED), None, &None)
        .unwrap();
    let warning = entry.warning.unwrap();
    assert!(warning.contains("'first' already vendors"), "{warning}");
    assert!(
        warning.contains("inherits its files and version"),
        "{warning}"
    );
    assert!(warning.contains("--files"), "{warning}");
}

#[test]
fn describing_it_with_files_still_borrows_the_version() {
    // `--files` describes the files, but the neighbour is still the base of the new entry, so its
    // version comes along - and that is the half that can skip the config write entirely.
    let entry = described_neighbour()
        .install_entry(&by_url(NEIGHBOURED), None, &Some(vec!["README.md".to_owned()]))
        .unwrap();
    let warning = entry.warning.unwrap();
    assert!(warning.contains("inherits its version."), "{warning}");
    assert!(
        !warning.contains("its files"),
        "the files were described, not borrowed: {warning}"
    );
    // And it really is borrowed: the entry a dry run prints says so.
    let printed = preview(&entry.name, &entry.entry, None).unwrap();
    assert!(printed.contains(r#""version": "v1.0.0""#), "{printed}");
}

#[test]
fn re_adding_the_same_name_says_nothing() {
    // Updating an entry under its own name is ordinary, not a surprise: `first` is not a
    // neighbour of itself.
    let entry = described_neighbour()
        .install_entry(&by_url(NEIGHBOURED), Some("first"), &None)
        .unwrap();
    assert_eq!(entry.warning, None);
    assert_eq!(entry.name, "first");
}

#[test]
fn a_neighbour_with_nothing_to_give_is_not_mentioned_before_the_error() {
    // No files anywhere, so the command fails asking for them.
    let session = project(&format!(
        r#"{{"vendorDependencies":{{"first":{{"repository":"{NEIGHBOURED}"}}}}}}"#
    ));
    assert_eq!(
        session
            .install_entry(&by_url(NEIGHBOURED), None, &None)
            .unwrap_err(),
        VendorError::MissingFilesOption
    );
}

const REGISTRY: &str = r#"
version: 1
programs:
  fd:
    aliases: [fdfind]
    repository: https://github.com/sharkdp/fd
    asset: "{release}/fd-v{version}-{target}{ext}"
    member: "fd-v{version}-{target}/fd{exe}"
    targets:
      windows-x86_64: x86_64-pc-windows-msvc
      linux-x86_64: x86_64-unknown-linux-gnu
"#;

/// The source that `name` is in the registry.
fn from_registry(name: &str) -> Source {
    let listed = Registry::parse(REGISTRY)
        .unwrap()
        .entry(name, "linux-x86_64")
        .unwrap();
    let (lookup, stored) = source_urls(name, &None, &listed).expect("a listed program");
    Source {
        lookup,
        stored,
        known: None,
        listed,
    }
}

#[test]
fn a_dry_run_reports_the_registry_entry_and_writes_nothing() {
    let session = project(r#"{"vendorDependencies":{}}"#);
    let entry = session
        .install_entry(&from_registry("fd"), None, &None)
        .unwrap();
    let printed = preview(&entry.name, &entry.entry, None).unwrap();
    // The platform's own asset, with `{version}` left for the install to resolve.
    assert!(
        printed.contains("\"repository\": \"https://github.com/sharkdp/fd\""),
        "{printed}"
    );
    assert!(printed.contains("{release}/fd-v{version}-"), "{printed}");
    assert_eq!(preview_heading("fd"), "fd would be added as:");
    assert_eq!(PREVIEW_END, "nothing was downloaded or written");
    assert_eq!(preview_folder("/proj/x"), "files would be written to /proj/x");
    assert_eq!(session.workspace.dependencies.len(), 0);
}

#[test]
fn a_dry_run_resolves_an_alias_to_its_canonical_name() {
    let entry = project(r#"{"vendorDependencies":{}}"#)
        .install_entry(&from_registry("fdfind"), None, &None)
        .unwrap();
    // Keyed `fd`, the canonical name, not the alias that was typed.
    let printed = preview(&entry.name, &entry.entry, None).unwrap();
    assert!(printed.contains("\"fd\": {"), "{printed}");
}

#[test]
fn a_version_after_an_at_sign_pins_the_entry() {
    let actions = dispatch(&install(&["fd@v10.0.0"], None, None)).unwrap();
    assert_eq!(
        actions,
        [Action::Preview {
            source: "fd".to_owned(),
            version: Some("v10.0.0".to_owned())
        }]
    );
    let entry = project(r#"{"vendorDependencies":{}}"#)
        .install_entry(&from_registry("fd"), None, &None)
        .unwrap();
    let printed = preview(&entry.name, &entry.entry, Some("v10.0.0")).unwrap();
    assert!(printed.contains(r#""version": "v10.0.0""#), "{printed}");
    // The name comes from the source half, not from the whole operand.
    assert!(printed.contains("\"fd\": {"), "{printed}");
}

#[test]
fn one_source_still_takes_those_options() {
    // Several sources cannot share a name; one can have it.
    let entry = project(r#"{"vendorDependencies":{}}"#)
        .install_entry(&from_registry("fd"), Some("Mine"), &None)
        .unwrap();
    let printed = preview(&entry.name, &entry.entry, None).unwrap();
    assert!(printed.contains("\"Mine\": {"), "{printed}");
}

fn install(sources: &[&str], name: Option<&str>, files: Option<&[&str]>) -> Command {
    let owned = |list: &[&str]| -> Vec<String> { list.iter().map(|s| (*s).to_owned()).collect() };
    Command::Install {
        sources: owned(sources),
        name: name.map(|name| Some(name.to_owned())),
        files: files.map(owned),
        refresh: false,
        dry_run: true,
    }
}

#[test]
fn options_that_describe_one_entry_are_rejected_for_several_sources() {
    for (command, expected) in [
        (
            install(&["rg", "fd"], Some("Both"), None),
            "-n or --name describes one dependency, so it cannot be used with more than one source",
        ),
        (
            install(&["rg", "fd"], None, Some(&["LICENSE"])),
            "-f or --files describes one dependency, so it cannot be used with more than one \
             source",
        ),
    ] {
        assert_eq!(dispatch(&command).unwrap_err().to_text(), expected);
    }
}

#[test]
fn the_reference_versions_second_operand_is_named_as_a_mistake() {
    // Every operand is a source, so without this it would quietly search GitHub for a repository
    // called `v1.0.0`.
    let error = dispatch(&install(&["Araxeus/vendorfiles", "v1.0.0"], None, None)).unwrap_err();
    assert_eq!(
        ui::error_line(&error.to_text()),
        "\u{1b}[31mERROR: 'v1.0.0' looks like a version, not a source. Did you mean \
         'Araxeus/vendorfiles@v1.0.0'?\u{1b}[0m"
    );
}

#[test]
fn a_lone_version_shaped_source_is_left_to_the_search() {
    // Nothing in front of it to attach it to, so there is no `source@version` to suggest - and
    // a repository really could be named this.
    assert!(check_sources(&vec!["v1.0.0".to_owned()], false, false).is_ok());
}

#[test]
fn cli_install_without_files_is_rejected_before_any_request() {
    let error = project(r#"{"vendorDependencies":{}}"#)
        .install_entry(&by_url("https://github.com/a/b"), None, &None)
        .unwrap_err();
    assert_eq!(
        ui::error_line(&error.to_text()),
        "\u{1b}[31mERROR: you must provide files to install with -f or --files <files...>\u{1b}[0m"
    );
}

#[test]
fn the_address_of_a_source_is_found_without_a_search_where_it_can_be() {
    assert_eq!(
        source_urls("https://github.com/a/b", &None, &None),
        Some((
            "https://github.com/a/b".to_owned(),
            "https://github.com/a/b".to_owned()
        ))
    );
    assert_eq!(
        source_urls("a/b", &None, &None),
        Some((
            "https://www.github.com/a/b".to_owned(),
            "https://github.com/a/b".to_owned()
        ))
    );
    assert_eq!(source_urls("fd", &None, &None), None);
    assert!(wants_registry("fd", false, false));
    assert!(!wants_registry("fd", true, false));
    assert!(!wants_registry("a/b", false, false));
    assert!(!wants_registry("vendor", false, true));
}

#[test]
fn cli_login_does_not_need_a_config_file() {
    assert_eq!(needs(&Command::Login { token: None }), Needs::Nothing);
    let args = vec!["login".to_owned(), "--help".to_owned()];
    assert_eq!(intercept(&args), Intercept::Print(help_text::LOGIN_HELP));
}

#[test]
fn each_command_loads_what_it_needs() {
    assert_eq!(needs(&Command::ShowConfig), Needs::Path);
    assert_eq!(needs(&Command::EditConfig { editor: None }), Needs::Path);
    assert_eq!(needs(&Command::List), Needs::Config);
    assert_eq!(needs(&Command::Outdated), Needs::Session);
    assert_eq!(
        needs(&Command::Completions {
            shell: "bash".to_owned()
        }),
        Needs::Nothing
    );
}

#[test]
fn an_unknown_shell_names_the_ones_that_work() {
    let message = shell("tcsh").unwrap_err();
    assert!(message.contains("tcsh"), "{message}");
    for shell in ["bash", "elvish", "fish", "powershell", "zsh"] {
        assert!(message.contains(shell), "{shell} not offered: {message}");
    }
}

#[test]
fn the_shell_name_is_case_insensitive() {
    assert_eq!(shell("Bash"), Ok(Shell::Bash));
    assert_eq!(shell("PowerShell"), Ok(Shell::PowerShell));
    assert_eq!(shell("elvish"), Ok(Shell::Elvish));
    assert_eq!(shell("fish"), Ok(Shell::Fish));
    assert_eq!(shell("zsh"), Ok(Shell::Zsh));
}

/// A config with two fully described entries and one that has nothing but files.
const LISTABLE: &str = r#"{
  "vendorDependencies": {
    "React": {
      "version": "v18.2.0",
      "repository": "https://github.com/facebook/react",
      "files": ["README.md"]
    },
    "youtube-music": {
      "version": "v3.3.1",
      "repository": "https://github.com/th-ch/youtube-music",
      "files": ["LICENSE"]
    },
    "bare": { "files": ["x"] }
  }
}"#;

#[test]
fn list_prints_a_column_per_field_in_config_order() {
    assert_eq!(
        project(LISTABLE).list(),
        [
            "\u{1b}[36mNAME           VERSION  REPOSITORY\u{1b}[0m",
            "React          v18.2.0  https://github.com/facebook/react",
            "youtube-music  v3.3.1   https://github.com/th-ch/youtube-music",
            "bare           -        -",
        ]
    );
}

#[test]
fn listing_an_empty_config_says_so_rather_than_printing_a_bare_header() {
    assert_eq!(nothing_listed("p"), "no dependencies in p");
}

#[test]
fn config_help_is_reachable_from_every_form() {
    let expected = help_text::CONFIG_HELP;
    assert!(
        expected.starts_with("Usage: vendor config|cfg [options] [command]"),
        "{expected}"
    );
    assert!(expected.contains("  edit [editor]  Open the config file in an editor"));
    assert!(expected.contains("  list|ls        List the dependencies in the config file"));
    for args in [
        vec!["config", "--help"],
        vec!["config", "edit", "-h"],
        vec!["config", "list", "--help"],
        vec!["cfg", "-h"],
        vec!["cfg", "ls", "--help"],
        vec!["help", "config"],
        vec!["help", "cfg"],
    ] {
        let owned: Vec<String> = args.iter().map(|s| (*s).to_owned()).collect();
        assert_eq!(intercept(&owned), Intercept::Print(expected), "for {args:?}");
    }
}

#[test]
fn list_help_is_reachable_from_every_form() {
    let expected = help_text::LIST_HELP;
    assert!(
        expected.starts_with("Usage: vendor list|ls [options]"),
        "{expected}"
    );
    for args in [vec!["ls", "-h"], vec!["help", "list"], vec!["help", "ls"]] {
        let owned: Vec<String> = args.iter().map(|s| (*s).to_owned()).collect();
        assert_eq!(intercept(&owned), Intercept::Print(expected), "for {args:?}");
    }
}

#[test]
fn cli_invalid_config_keys_are_reported_with_the_reference_wording() {
    for (config, expected) in [
        (
            r#"{"vendorDependencies": {"Foo": {"files": ["a"]}}}"#,
            "config key 'vendorDependencies.Foo.repository' is not a valid github url",
        ),
        (
            r#"{"vendorDependencies": {"Foo": {"repository": "https://github.com/a/b"}}}"#,
            "config key 'vendorDependencies.Foo.files' is not a valid array",
        ),
        (
            r#"{"vendorDependencies": {"Foo": {"repository": "https://github.com/a/b", "files": ["a"], "releaseRegex": "("}}}"#,
            "config key 'vendorDependencies.Foo.releaseRegex' must be a valid regex string",
        ),
    ] {
        let error = project(config).plan(SyncOptions::default()).unwrap_err();
        assert_eq!(error.to_text(), expected);
    }
    assert!(refused(r#"{"vendorConfig": "nope"}"#).contains("Invalid vendorConfig key in"));
    assert!(refused(r#"{"vendorDependencies": 7}"#).contains("Invalid vendorDependencies key in"));
}

/// A project with one entry, and the lockfile that agrees with it.
fn coloris() -> Session {
    project(
        r#"{
  "vendorDependencies": {
    "Coloris": {
      "version": "v0.18.0",
      "repository": "https://github.com/mdbassit/Coloris",
      "files": ["dist/coloris.min.js", {"LICENSE": "COLORIS_LICENSE"}]
    }
  }
}
"#,
    )
}

const COLORIS_LOCK: &str = r#"{
  "Coloris": {
    "repository": "https://github.com/mdbassit/Coloris",
    "version": "v0.18.0",
    "files": {
      "dist/coloris.min.js": "coloris.min.js",
      "LICENSE": "COLORIS_LICENSE"
    }
  }
}
"#;

#[test]
fn cli_sync_reports_up_to_date_without_touching_the_network() {
    let session = coloris();
    let mut plans = session.plan(SyncOptions::default()).unwrap();
    let plan = plans.remove(0);
    // The version is in the config, so nothing has to be asked.
    let version = decide_version(&plan.dependency, &plan.options).unwrap();
    let lockfile = read_lockfile("l", COLORIS_LOCK).unwrap();
    let prepared = session.prepare(plan.dependency, plan.options, version, Some(&lockfile), true);
    assert!(!prepared.has_work());
    assert_eq!(prepared.folder, "/proj/vendor/Coloris");
    assert_eq!(prepared.lockfile_path, "/proj/vendor/Coloris/vendor-lock.json");
    assert!(matches!(session.commit(&prepared), Commit::UpToDate));
}

#[test]
fn cli_a_missing_file_makes_sync_consider_the_dependency_stale() {
    let session = coloris();
    let lockfile = read_lockfile("l", COLORIS_LOCK).unwrap();
    assert!(!session.needs_update("Coloris", Some(&lockfile), "v0.18.0", true));
    assert!(session.needs_update("Coloris", Some(&lockfile), "v0.18.0", false));
    // So does anything else that does not agree.
    assert!(session.needs_update("Coloris", Some(&lockfile), "v0.19.0", true));
    assert!(session.needs_update("Coloris", None, "v0.18.0", true));
}

#[test]
fn what_is_stale_is_written_with_its_lock() {
    let session = coloris();
    let mut plans = session.plan(SyncOptions::default()).unwrap();
    let plan = plans.remove(0);
    let prepared = session.prepare(plan.dependency, plan.options, "v0.19.0".to_owned(), None, false);
    assert!(prepared.has_work());
    let Commit::Write {
        lock,
        record,
        updated_from,
        result,
    } = session.commit(&prepared)
    else {
        panic!("expected a write");
    };
    assert_eq!(lock.version, "v0.19.0");
    assert_eq!(lock.repository, "https://github.com/mdbassit/Coloris");
    assert!(record);
    assert_eq!(updated_from.as_deref(), Some("v0.18.0"));
    assert_eq!(result.as_deref(), Some("v0.19.0"));
}

#[test]
fn cli_sync_reports_dependencies_in_config_order() {
    let session = project(
        r#"{"vendorDependencies": {
            "zeta": {"repository": "https://github.com/example/zeta", "files": ["one"]},
            "alpha": {"repository": "https://github.com/example/alpha", "files": ["one"]}
        }}"#,
    );
    let plans = session.plan(SyncOptions::default()).unwrap();
    let names: Vec<&str> = plans.iter().map(|p| p.dependency.name.as_str()).collect();
    assert_eq!(names, ["zeta", "alpha"]);

    // The download stage overlaps across dependencies; the commit stage must not.
    let mut walk = Traversal::new(vec![true, true]);
    let mut steps = Vec::new();
    loop {
        let step = walk.step();
        steps.push(step);
        if step == Step::Finish {
            break;
        }
        walk.observe(true);
    }
    assert_eq!(
        steps,
        [
            Step::Await(0),
            Step::Commit(0),
            Step::Await(1),
            Step::Commit(1),
            Step::Finish
        ]
    );
}

#[test]
fn a_failure_stops_the_run() {
    let mut walk = Traversal::new(vec![true, true, true]);
    walk.observe(true);
    walk.observe(false);
    assert_eq!(walk.step(), Step::Stop(0));
    walk.observe(true);
    assert_eq!(walk.step(), Step::Stop(0));
}

#[test]
fn a_version_that_is_not_found_is_reported_at_its_turn() {
    // The first dependency's download fails before the second's lookup is even looked at.
    let mut walk = Traversal::new(vec![true, false]);
    assert_eq!(walk.step(), Step::Await(0));
    walk.observe(false);
    assert_eq!(walk.step(), Step::Stop(0));
    // Where the first goes well, it is committed before the second is reported.
    let mut walk = Traversal::new(vec![true, false]);
    walk.observe(true);
    assert_eq!(walk.step(), Step::Commit(0));
    walk.observe(true);
    assert_eq!(walk.step(), Step::Stop(1));
}

#[test]
fn a_file_that_refuses_to_go_keeps_the_lockfile_and_the_config() {
    let mut walk = Uninstall::new(2);
    assert_eq!(walk.next(), Removal::Delete(0));
    walk.observe(true);
    assert_eq!(walk.next(), Removal::Delete(1));
    walk.observe(false);
    assert_eq!(walk.next(), Removal::Stop);
    walk.observe(true);
    assert_eq!(walk.next(), Removal::Stop);

    let mut walk = Uninstall::new(1);
    let mut steps = Vec::new();
    while walk.next() != Removal::Finish {
        steps.push(walk.next());
        walk.observe(true);
    }
    assert_eq!(steps, [Removal::Delete(0), Removal::Unlock, Removal::Forget]);
}

#[test]
fn an_unknown_shell_is_refused_before_the_config_is_looked_for() {
    let command = |shell: &str| Command::Completions {
        shell: shell.to_owned(),
    };
    assert_eq!(
        dispatch(&command("tcsh")).unwrap_err().to_text(),
        "unknown shell 'tcsh'. Expected one of bash, elvish, fish, powershell, zsh"
    );
    assert_eq!(needs(&command("tcsh")), Needs::Nothing);
    assert_eq!(
        dispatch(&command("Zsh")).unwrap(),
        [Action::Complete(Shell::Zsh)]
    );
}

#[test]
fn each_command_has_its_action() {
    let one = |command: Command| dispatch(&command).unwrap();
    assert_eq!(
        one(Command::Login { token: None }),
        [Action::Login(None)]
    );
    assert_eq!(one(Command::List), [Action::List]);
    assert_eq!(one(Command::ShowConfig), [Action::ShowConfig]);
    assert_eq!(
        one(Command::EditConfig {
            editor: Some("vi".to_owned())
        }),
        [Action::EditConfig(Some("vi".to_owned()))]
    );
}

#[test]
fn cli_uninstall_removes_files_the_config_entry_and_the_lockfile() {
    let mut session = coloris();
    let (folder, lockfile_path) = session.uninstall_plan("Coloris").unwrap();
    assert_eq!(folder, "/proj/vendor/Coloris");
    assert_eq!(lockfile_path, "/proj/vendor/Coloris/vendor-lock.json");
    let lockfile = read_lockfile("l", COLORIS_LOCK).unwrap();
    assert_eq!(
        session.uninstall_files("Coloris", Some(&lockfile)),
        // What the lockfile records, then what the config declares.
        ["coloris.min.js", "COLORIS_LICENSE", "coloris.min.js", "COLORIS_LICENSE"]
    );
    assert_eq!(
        session.uninstall_files("Coloris", None),
        ["coloris.min.js", "COLORIS_LICENSE"]
    );
    assert!(matches!(
        lockfile_end(Some(lockfile), "Coloris"),
        Ok(LockfileEnd::Delete)
    ));
    session.forget("Coloris");
    assert_eq!(
        session.workspace.file.contents().unwrap(),
        "{\n  \"vendorDependencies\": {}\n}\n"
    );
    assert!(session.workspace.dependencies.get("Coloris").is_none());
}

#[test]
fn cli_uninstall_rewrites_a_shared_lockfile_without_a_trailing_newline() {
    let shared = "{\n  \"A\": {\n    \"repository\": \"https://github.com/a/b\",\n    \"version\": \"v1\",\n    \"files\": {\n      \"one\": \"one\"\n    }\n  },\n  \"B\": {\n    \"repository\": \"https://github.com/c/d\",\n    \"version\": \"v1\",\n    \"files\": {\n      \"two\": \"two\"\n    }\n  }\n}\n";
    let Ok(LockfileEnd::Rewrite(written)) =
        lockfile_end(Some(read_lockfile("l", shared).unwrap()), "A")
    else {
        panic!("expected a rewrite");
    };
    assert_eq!(
        written,
        "{\n  \"B\": {\n    \"repository\": \"https://github.com/c/d\",\n    \"version\": \"v1\",\n    \"files\": {\n      \"two\": \"two\"\n    }\n  }\n}"
    );
    assert!(matches!(
        lockfile_end(Some(read_lockfile("l", shared).unwrap()), "C"),
        Ok(LockfileEnd::Keep)
    ));
    assert!(matches!(lockfile_end(None, "A"), Ok(LockfileEnd::Keep)));
}

#[test]
fn cli_uninstalling_an_unknown_dependency_names_the_config_file() {
    let error = project(r#"{"vendorDependencies":{}}"#)
        .uninstall_plan("Nope")
        .unwrap_err()
        .to_text();
    assert!(error.contains("Dependency Nope not found in"), "{error}");
    assert!(error.contains("vendor.json"), "{error}");
}

#[test]
fn cli_uninstall_with_no_names_is_rejected() {
    let error = dispatch(&Command::Uninstall { names: vec![] }).unwrap_err();
    assert_eq!(
        ui::error_line(&error.to_text()),
        "\u{1b}[31mERROR: No package names provided\u{1b}[0m"
    );
}

#[test]
fn cli_update_of_an_unknown_or_locked_dependency_is_rejected() {
    let session = project(
        r#"{
  "vendorDependencies": {
    "Pinned": {
      "version": "v1",
      "repository": "https://github.com/a/b",
      "files": ["one"],
      "locked": true
    }
  }
}
"#,
    );
    assert_eq!(
        session.upgrade_target("Missing").unwrap_err().to_text(),
        "No dependency found with name Missing"
    );
    assert_eq!(
        session.upgrade_target("Pinned").unwrap_err().to_text(),
        "Dependency Pinned is locked and cannot be upgraded"
    );
}

#[test]
fn cli_config_formats_are_all_discovered() {
    for (name, body) in [
        ("vendor.toml", "[vendorDependencies]\n"),
        ("vendor.yml", "vendorDependencies: {}\n"),
        ("vendor.yaml", "vendorDependencies: {}\n"),
        ("vendor.json", "{\"vendorDependencies\": {}}\n"),
        (
            "package.json",
            "{\"name\": \"x\", \"vendorDependencies\": {}}\n",
        ),
    ] {
        let workspace = Workspace::from_text(false, &format!("/proj/{name}"), body).unwrap();
        assert_eq!(workspace.dependencies.len(), 0, "for {name}");
    }
}

#[test]
fn the_options_of_a_run_follow_the_command() {
    assert_eq!(
        sync_options(&Command::Sync { force: true }),
        Some(SyncOptions {
            should_update: false,
            force: true,
            show_outdated_only: false
        })
    );
    let outdated = sync_options(&Command::Outdated).unwrap();
    assert!(outdated.show_outdated_only && outdated.should_update);
    assert_eq!(phase(outdated), "checking for updates");
    assert_eq!(phase(SyncOptions::default()), "installing");
    let update = |names: Vec<String>, pr: bool| Command::Update { names, pr };
    assert!(sync_options(&update(vec![], false)).unwrap().should_update);
    assert!(pr_mode(&update(vec![], true)));
    assert!(!pr_mode(&Command::Outdated));
    assert_eq!(
        dispatch(&update(vec!["a".to_owned()], false)).unwrap(),
        [Action::Upgrade("a".to_owned())]
    );
    assert_eq!(rows_for(3), 3);
    assert_eq!(rows_for(300), MAX_CONCURRENT_DOWNLOADS);
}

#[test]
fn files_go_to_the_batch_that_can_fetch_them() {
    let dependency = dep(
        r#"{"repository": "https://github.com/a/b", "files": ["LICENSE", {"{release}/x-{version}.zip": {"x": "bin/x"}, "doc": "d"}]}"#,
    )
    .resolve("b")
    .unwrap();
    let (repo, release) = batches(false, &dependency);
    let inputs = |specs: &[FileSpec]| -> Vec<String> {
        specs.iter().map(|spec| spec.input.clone()).collect()
    };
    assert_eq!(inputs(&repo), ["LICENSE", "doc"]);
    assert_eq!(inputs(&release), ["{release}/x-{version}.zip"]);
    assert_eq!(repo_status(2), "downloading 2 file(s)");
    assert_eq!(release_status(1), "downloading 1 release asset(s)");

    assert_eq!(
        repo_destination(false, "/v/b", "v1", &repo[1]).unwrap(),
        "/v/b/d"
    );
    let named = FileSpec {
        input: "LICENSE".to_owned(),
        output: FileTarget::Rename("LICENSE-{version}".to_owned()),
    };
    assert_eq!(
        repo_destination(false, "/v/b", "v1.2.3", &named).unwrap(),
        "/v/b/LICENSE-1.2.3"
    );
    assert!(matches!(
        repo_destination(false, "/v/b", "v1", &release[0]),
        Err(VendorError::NonStringOutputWithoutRelease(shown)) if shown.contains("x-{version}.zip")
    ));
    let AssetPlan::Extract { asset, members } = asset_plan(false, "/v/b", "v1.2.3", &release[0]) else {
        panic!("expected an extraction");
    };
    assert_eq!(asset, "x-1.2.3.zip");
    assert_eq!(members, [("x".to_owned(), "/v/b/bin/x".to_owned())]);

    let failed = download_failed(&dependency, &repo[0], "v1", VendorError::BadCredentials);
    assert!(matches!(
        failed,
        VendorError::FileDownloadFailed { file, .. } if file == "LICENSE"
    ));
}

#[test]
fn a_bare_asset_is_saved_under_its_own_name() {
    let dependency = dep(
        r#"{"repository": "https://github.com/a/b", "files": [{"{release}/x.exe": "x-{version}.exe"}]}"#,
    )
    .resolve("b")
    .unwrap();
    let (_, release) = batches(false, &dependency);
    let AssetPlan::Save { asset, destination } = asset_plan(false, "/v/b", "v1.2.3", &release[0]) else {
        panic!("expected a save");
    };
    assert_eq!((asset.as_str(), destination.as_str()), ("x.exe", "/v/b/x-1.2.3.exe"));
}

#[test]
fn the_version_comes_from_a_commit_or_a_release() {
    let followed = dep(
        r#"{"repository": "https://github.com/a/b", "files": ["dist/x.js"], "hashVersionFile": true}"#,
    )
    .resolve("b")
    .unwrap();
    assert_eq!(
        version_source(&followed),
        Ok(VersionSource::Commit("dist/x.js".to_owned()))
    );
    let released = dep(r#"{"repository": "https://github.com/a/b", "files": ["x"]}"#)
        .resolve("b")
        .unwrap();
    assert_eq!(version_source(&released), Ok(VersionSource::Release));
    assert_eq!(decide_version(&released, &InstallOptions::default()), None);

    assert_eq!(commit_version("p", Ok("abc".to_owned())), Ok("abc".to_owned()));
    assert!(matches!(
        commit_version("p", Err(VendorError::BadCredentials)),
        Err(VendorError::CommitShaLookup { path, .. }) if path == "p"
    ));
    // A repository with no release can still be vendored by its files.
    assert_eq!(
        release_version("b", Err(VendorError::BadCredentials), false),
        Ok(String::new())
    );
    assert_eq!(
        release_version("b", Err(VendorError::BadCredentials), true),
        Err(VendorError::NoVersionFound("b".to_owned()))
    );
}

#[test]
fn a_new_entry_is_recorded_without_what_the_defaults_say() {
    let mut session = project(
        "{\n  \"default\": {\n    \"vendorFolder\": \"{vendorFolder}\"\n  },\n  \"vendorDependencies\": {}\n}\n",
    );
    let mut dependency = dep(r#"{"repository": "https://github.com/a/b", "files": ["x"]}"#)
        .resolve("b")
        .unwrap();
    dependency.vendor_folder = Some("{vendorFolder}".to_owned());
    session.record_version(&dependency, "v1").unwrap();
    assert_eq!(
        session.workspace.file.contents().unwrap(),
        "{\n  \"default\": {\n    \"vendorFolder\": \"{vendorFolder}\"\n  },\n  \"vendorDependencies\": {\n    \"b\": {\n      \"version\": \"v1\",\n      \"repository\": \"https://github.com/a/b\",\n      \"files\": [\n        \"x\"\n      ]\n    }\n  }\n}\n"
    );
    // A second time, only the version moves.
    session.record_version(&dependency, "v2").unwrap();
    assert!(session
        .workspace
        .file
        .contents()
        .unwrap()
        .contains("\"version\": \"v2\""));
}

#[test]
fn the_files_of_an_entry_are_known_before_it_is_installed() {
    let session = coloris();
    assert_eq!(
        session.expected_files("Coloris"),
        [
            "/proj/vendor/Coloris/coloris.min.js",
            "/proj/vendor/Coloris/COLORIS_LICENSE"
        ]
    );
    assert_eq!(session.files_from_config().len(), 2);
    assert_eq!(
        declared_files(false, &dep(r#"{"files": ["a/b", {"c.zip": ["d"]}]}"#)),
        ["b", "d"]
    );
}

#[test]
fn an_outdated_dependency_is_reported_with_both_versions() {
    let dependency =
        dep(r#"{"repository": "https://github.com/a/b", "files": ["x"], "version": "v1"}"#)
            .resolve("b")
            .unwrap();
    let line = report_outdated(&dependency, "v2");
    assert!(line.contains("b") && line.contains("v1") && line.contains("v2"), "{line}");
    assert_eq!(display_version(None), display_version(Some("undefined")));
    assert!(decide("v2".to_owned(), true, false).needs_update);
    assert!(!decide("v2".to_owned(), false, false).needs_update);
    assert_eq!(Session::lockfile_path(false, "/v/b"), format!("/v/b/{LOCKFILE}"));
}

#[test]
fn a_bump_is_a_version_that_moved() {
    let candidate = || BumpCandidate {
        name: "fd".to_owned(),
        url: "https://github.com/sharkdp/fd".to_owned(),
        old_version: Some("v1".to_owned()),
        looked_up: true,
    };
    let bump: Bump = candidate().into_bump(Some("v2".to_owned())).unwrap();
    assert_eq!(
        pull_request_body(&vec![bump]),
        "* Bump [fd](https://github.com/sharkdp/fd) from \u{274c} v1 to \u{2705} v2"
    );
    assert!(candidate().into_bump(Some("v1".to_owned())).is_none());
    assert!(candidate().into_bump(None).is_none());
    let mut unseen = candidate();
    unseen.looked_up = false;
    assert!(unseen.into_bump(Some("v2".to_owned())).is_none());
    assert_eq!(pull_request_body(&vec![]), "");
}

#[test]
fn an_editor_that_was_asked_for_by_name_never_falls_through() {
    let tried = editors(Some("no-editor-a1b2c3"), Some("fallback"));
    assert_eq!(tried, [Editor::Given("no-editor-a1b2c3".to_owned())]);
    for ran in [Ran::Unstarted, Ran::Refused] {
        assert_eq!(
            after_editor(&tried[0], ran),
            AfterEditor::Stop("could not run the editor given (no-editor-a1b2c3)".to_owned())
        );
    }
}

#[test]
fn edit_with_no_editor_named_uses_the_environment() {
    let tried = editors(None, Some("vim"));
    assert_eq!(tried, [Editor::Variable("vim".to_owned()), Editor::System]);
    assert_eq!(after_editor(&tried[0], Ran::Closed), AfterEditor::Done);
    assert!(matches!(
        after_editor(&tried[0], Ran::Refused),
        AfterEditor::Stop(said) if said.contains("$EDITOR")
    ));
    assert!(matches!(
        after_editor(&tried[0], Ran::Unstarted),
        AfterEditor::Next(said) if said.contains("$EDITOR")
    ));
    assert!(matches!(
        after_editor(&Editor::System, Ran::Unstarted),
        AfterEditor::Stop(_)
    ));
    assert_eq!(editors(None, None), [Editor::System]);
    assert_eq!(editors(Some(""), Some("")), [Editor::System]);
}

#[test]
fn a_lock_lists_where_each_file_went() {
    let lock = VendorLock {
        repository: "r".to_owned(),
        version: "v1".to_owned(),
        files: config_files_to_lock_files(false, &files(&["dist/x.js"]), "v1"),
    };
    assert_eq!(lock.files.key_at(0), "dist/x.js");
}

#[test]
fn an_install_looks_for_the_latest_version_unless_it_carries_one() {
    let latest = Action::Install {
        source: "a/b".to_owned(),
        version: None,
    };
    let options = latest.install_options().unwrap();
    assert!(options.should_update && !options.force && options.new_version.is_none());
    let pinned = Action::Install {
        source: "a/b".to_owned(),
        version: Some("v1".to_owned()),
    };
    let options = pinned.install_options().unwrap();
    assert!(!options.should_update);
    assert_eq!(options.new_version.as_deref(), Some("v1"));
    let upgrade = Action::Upgrade("b".to_owned());
    assert!(upgrade.install_options().unwrap().should_update);
    assert!(Action::Uninstall("b".to_owned()).install_options().is_none());
}

#[test]
fn only_a_pull_request_with_bumps_has_a_summary() {
    let bumps = vec![Bump {
        name: "a".to_owned(),
        url: "https://github.com/x/a".to_owned(),
        old_version: "v1".to_owned(),
        new_version: "v2".to_owned(),
    }];
    assert_eq!(
        printed_summary(true, &bumps).as_deref(),
        Some("* Bump [a](https://github.com/x/a) from \u{274c} v1 to \u{2705} v2")
    );
    assert!(printed_summary(false, &bumps).is_none());
    assert!(printed_summary(true, &Vec::new()).is_none());
}

#[test]
fn a_candidate_is_made_of_what_was_prepared() {
    let session = project(
        r#"{"vendorDependencies": {"a": {"version": "v1", "repository": "https://github.com/x/a",
            "files": ["f"]}}}"#,
    );
    let dependency = session.upgrade_target("a").unwrap();
    let options = Action::Upgrade("a".to_owned()).install_options().unwrap();
    let prepared = session.prepare(dependency, options, "v2".to_owned(), None, false);
    let bump = BumpCandidate::of(&prepared)
        .into_bump(Some("v2".to_owned()))
        .unwrap();
    assert_eq!(bump.name, "a");
    assert_eq!(bump.url, "https://github.com/x/a");
    assert_eq!(bump.old_version, "v1");
}
