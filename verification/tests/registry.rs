//! The program registry: its cache, its entries, and what they become on a host.

use vendorfiles::codec::parse_yaml;
use vendorfiles::error::VendorError;
use vendorfiles::fsx::{file_name, is_rooted};
use vendorfiles::model::{FileEntry, FileTarget};
use vendorfiles::registry::cache::{
    after_fetch, decide, directory, fetched, source, Action, Fetched, Next, Source, TTL,
};
use vendorfiles::registry::resolve::{
    archive_extension, executable_suffix, expand, expand_member, extraction, for_host, host,
    is_windows, member_path, output_name, Entry,
};
use vendorfiles::registry::schema::{Document, Member, Program, Target, SUPPORTED_VERSION};
use vendorfiles::registry::Registry;

#[test]
fn nothing_on_disk_means_download() {
    assert_eq!(decide(None, None, false), Action::Download);
    assert_eq!(decide(None, None, true), Action::Download);
}

#[test]
fn a_young_copy_costs_no_request() {
    assert_eq!(decide(Some(60), None, false), Action::UseCache);
}

#[test]
fn an_old_copy_is_revalidated_rather_than_refetched() {
    let etag = Some("\"abc123\"".to_owned());
    assert_eq!(
        decide(Some(TTL + 1), etag.clone(), false),
        Action::Revalidate(etag)
    );
}

#[test]
fn refresh_revalidates_however_young_the_copy_is() {
    assert_eq!(decide(Some(1), None, true), Action::Revalidate(None));
}

#[test]
fn an_override_beats_the_cache() {
    assert_eq!(
        source(Some("https://x/y.yml".to_owned()), true, Some(1), None, false),
        Source::Url("https://x/y.yml".to_owned())
    );
    assert_eq!(
        source(Some("local.yml".to_owned()), true, Some(1), None, false),
        Source::File("local.yml".to_owned())
    );
    assert_eq!(source(None, false, None, None, false), Source::Uncached);
    assert_eq!(source(None, true, Some(1), None, false), Source::Cached);
    assert_eq!(
        source(None, true, Some(TTL + 1), Some("e".to_owned()), false),
        Source::Network(Some("e".to_owned()))
    );
}

#[test]
fn an_answer_decides_what_becomes_of_the_cache() {
    assert_eq!(fetched(304), Fetched::Unchanged);
    assert_eq!(fetched(200), Fetched::Body);
    assert_eq!(fetched(500), Fetched::Failed);
    assert_eq!(after_fetch(Fetched::Unchanged), Next::KeepCache);
    assert_eq!(after_fetch(Fetched::Body), Next::Store);
    assert_eq!(after_fetch(Fetched::Failed), Next::FallBack);
}

#[test]
fn the_cache_lands_under_the_platform_s_own_directory() {
    for (os, expected) in [
        ("windows", r"C:\Local\vendorfiles"),
        ("macos", "/home/me/Library/Caches/vendorfiles"),
        ("linux", "/home/me/.cache/vendorfiles"),
    ] {
        let found = directory(os, Some(r"C:\Local"), None, Some("/home/me")).unwrap();
        assert_eq!(found, expected);
        let windows = os == "windows";
        assert!(is_rooted(windows, &found), "{found}");
        assert_eq!(file_name(windows, &found).as_deref(), Some("vendorfiles"));
    }
    assert_eq!(
        directory("linux", None, Some("/cache/"), Some("/home/me")).as_deref(),
        Some("/cache/vendorfiles")
    );
    // A stripped environment with none of the variables set.
    assert_eq!(directory("linux", None, None, None), None);
}

const REGISTRY: &str = r#"
version: 1
programs:
  fd:
    aliases: [fdfind, fd-find]
    repository: https://github.com/sharkdp/fd
    asset: "{release}/fd-v{version}-{target}{ext}"
    member: "fd-v{version}-{target}/fd{exe}"
    targets:
      windows-x86_64: x86_64-pc-windows-msvc
      macos-aarch64: aarch64-apple-darwin
      linux-x86_64: x86_64-unknown-linux-gnu
  rg:
    repository: https://github.com/BurntSushi/ripgrep
    asset: "{release}/ripgrep-{version}-{target}{ext}"
    member: "ripgrep-{version}-{target}/rg{exe}"
    targets:
      windows-x86_64: x86_64-pc-windows-msvc
      macos-aarch64: aarch64-apple-darwin
      linux-x86_64: x86_64-unknown-linux-gnu
"#;

#[test]
fn a_name_resolves_to_itself() {
    let registry = Registry::parse(REGISTRY).unwrap();
    let (canonical, _) = registry.find("fd").expect("fd is known");
    assert_eq!(canonical, "fd");
}

#[test]
fn an_alias_resolves_to_the_canonical_name() {
    // The whole point of the feature: `vendor add fdfind` keys the entry `fd`.
    let registry = Registry::parse(REGISTRY).unwrap();
    for alias in ["fdfind", "fd-find"] {
        let (canonical, _) = registry.find(alias).expect("alias is known");
        assert_eq!(canonical, "fd", "for {alias}");
    }
}

#[test]
fn an_unknown_name_is_a_miss_rather_than_an_error() {
    // `install` falls through to its GitHub search, so this must not be fatal.
    let registry = Registry::parse(REGISTRY).unwrap();
    assert!(registry.find("nothing-like-this").is_none());
    assert!(registry
        .entry("nothing-like-this", "linux-x86_64")
        .unwrap()
        .is_none());
}

#[test]
fn a_registry_from_a_newer_vendor_is_refused_with_a_readable_reason() {
    let error = Registry::parse("version: 99\nprograms: {}\n").unwrap_err();
    let message = error.to_text();
    assert!(message.contains("99"), "{message}");
    assert!(message.contains('1'), "{message}");
}

#[test]
fn text_that_is_not_a_registry_is_refused() {
    assert!(Registry::parse("this is not: [a, registry").is_err());
    assert!(
        Registry::parse("programs: {}\n").is_err(),
        "version required"
    );
}

#[test]
fn a_document_that_did_not_parse_is_unreadable() {
    assert_eq!(
        Registry::from_document(Err("bad".to_owned())).unwrap_err(),
        VendorError::RegistryUnreadable("bad".to_owned())
    );
    assert!(Registry::from_document(parse_yaml("version: 1")).is_ok());
}

#[test]
fn names_are_listed_in_file_order() {
    let registry = Registry::parse(REGISTRY).unwrap();
    assert_eq!(registry.names(), ["fd", "rg"]);
}

#[test]
fn a_canonical_name_is_not_shadowed_by_an_alias() {
    let registry = Registry::parse(
        "version: 1\nprograms:\n  a:\n    aliases: [b]\n    repository: https://github.com/o/a\n  b:\n    repository: https://github.com/o/b\n",
    )
    .unwrap();
    assert_eq!(registry.find("b").unwrap().0, "b");
}

fn program(yaml: &str) -> Document {
    Document::from_json(&parse_yaml(yaml).expect("valid yaml")).expect("valid registry")
}

fn listed<'a>(document: &'a Document, name: &str) -> &'a Program {
    document.programs.get(name).expect("a listed program")
}

const FD: &str = r#"
version: 1
programs:
  fd:
    repository: https://github.com/sharkdp/fd
    asset: "{release}/fd-v{version}-{target}{ext}"
    member: "fd-v{version}-{target}/fd{exe}"
    targets:
      windows-x86_64: x86_64-pc-windows-msvc
      macos-aarch64: aarch64-apple-darwin
      linux-x86_64: x86_64-unknown-linux-gnu
"#;

/// The single asset of an entry, and where it goes.
fn asset_of(entry: &Entry) -> (&str, &FileTarget) {
    let [FileEntry::Mapped(files)] = entry.files.as_slice() else {
        panic!("expected one mapped entry, found {:?}", entry.files);
    };
    assert_eq!(files.len(), 1, "one asset");
    (files.key_at(0), files.value_at(0))
}

/// The single asset and the name it is saved under.
fn renamed(entry: &Entry) -> (&str, &str) {
    let (asset, target) = asset_of(entry);
    let FileTarget::Rename(name) = target else {
        panic!("expected a rename, found {target:?}");
    };
    (asset, name)
}

/// Every input->output pair of a single-asset entry, in order.
fn extracted(entry: &Entry) -> Vec<(String, String)> {
    let (_, target) = asset_of(entry);
    let FileTarget::ExtractMap(members) = target else {
        panic!("expected an extraction map, found {target:?}");
    };
    (0..members.len())
        .map(|i| (members.key_at(i).to_owned(), members.value_at(i).clone()))
        .collect()
}

/// The single asset and its one member, for readable assertions.
fn only(entry: &Entry) -> (String, String, String) {
    let (asset, _) = asset_of(entry);
    let (member, output) = extracted(entry).remove(0);
    (asset.to_owned(), member, output)
}

#[test]
fn the_host_key_names_the_system_and_the_machine() {
    assert_eq!(host("linux", "x86_64"), "linux-x86_64");
    assert!(is_windows("windows-x86_64"));
    assert!(!is_windows("linux-x86_64"));
    assert_eq!(archive_extension("windows-x86_64"), ".zip");
    assert_eq!(archive_extension("macos-aarch64"), ".tar.gz");
    assert_eq!(executable_suffix("windows-x86_64"), ".exe");
    assert_eq!(executable_suffix("linux-x86_64"), "");
}

#[test]
fn every_target_expands_to_its_own_asset() {
    let document = program(FD);
    let fd = listed(&document, "fd");

    // Windows: a zip, an `.exe`, and the archive's own directory in the member path.
    let entry = for_host("fd", fd, "windows-x86_64").unwrap();
    let (asset, member, output) = only(&entry);
    assert_eq!(asset, "{release}/fd-v{version}-x86_64-pc-windows-msvc.zip");
    assert_eq!(member, "fd-v{version}-x86_64-pc-windows-msvc/fd.exe");
    assert_eq!(output, "fd.exe");

    // macOS on Apple Silicon: a tarball and no suffix.
    let entry = for_host("fd", fd, "macos-aarch64").unwrap();
    let (asset, member, output) = only(&entry);
    assert_eq!(asset, "{release}/fd-v{version}-aarch64-apple-darwin.tar.gz");
    assert_eq!(member, "fd-v{version}-aarch64-apple-darwin/fd");
    assert_eq!(output, "fd");

    let entry = for_host("fd", fd, "linux-x86_64").unwrap();
    let (asset, _, output) = only(&entry);
    assert_eq!(
        asset,
        "{release}/fd-v{version}-x86_64-unknown-linux-gnu.tar.gz"
    );
    assert_eq!(output, "fd");
}

#[test]
fn the_config_placeholders_survive_untouched() {
    // `{version}` has to stay symbolic or the entry would only ever install one release.
    let document = program(FD);
    let entry = for_host("fd", listed(&document, "fd"), "linux-x86_64").unwrap();
    let (asset, member, _) = only(&entry);
    assert!(asset.starts_with("{release}/"), "{asset}");
    assert!(asset.contains("{version}"), "{asset}");
    assert!(member.contains("{version}"), "{member}");
}

#[test]
fn the_explicit_form_needs_no_shared_patterns() {
    let document = program(
        r#"
version: 1
programs:
  fzf:
    repository: https://github.com/junegunn/fzf
    targets:
      windows-x86_64:
        asset: "{release}/fzf-{version}-windows_amd64.zip"
        member: "fzf.exe"
"#,
    );
    let entry = for_host("fzf", listed(&document, "fzf"), "windows-x86_64").unwrap();
    let (asset, member, output) = only(&entry);
    assert_eq!(asset, "{release}/fzf-{version}-windows_amd64.zip");
    assert_eq!(member, "fzf.exe");
    assert_eq!(output, "fzf.exe");
}

#[test]
fn an_asset_with_no_member_is_downloaded_as_it_stands() {
    // Plenty of projects publish a bare binary rather than an archive.
    let document = program(
        r"
version: 1
programs:
  ox:
    repository: https://github.com/curlpipe/ox
    targets:
      windows-x86_64:
        asset: '{release}/ox.exe'
      macos-x86_64:
        asset: '{release}/ox-macos'
        as: ox
",
    );
    let ox = listed(&document, "ox");

    let entry = for_host("ox", ox, "windows-x86_64").unwrap();
    // A rename, not an extraction: there is no archive to look inside.
    assert_eq!(renamed(&entry), ("{release}/ox.exe", "ox.exe"));

    // `as` renames an asset whose own name is not the command's.
    let entry = for_host("ox", ox, "macos-x86_64").unwrap();
    assert_eq!(renamed(&entry), ("{release}/ox-macos", "ox"));
}

#[test]
fn the_output_name_is_expanded_for_the_host_too() {
    // `shfmt` publishes bare binaries whose suffix differs by platform.
    let document = program(
        r"
version: 1
programs:
  shfmt:
    repository: https://github.com/mvdan/sh
    asset: '{release}/shfmt_v{version}_{target}{exe}'
    as: 'shfmt{exe}'
    targets:
      windows-x86_64: windows_amd64
      linux-x86_64: linux_amd64
",
    );
    let shfmt = listed(&document, "shfmt");

    let entry = for_host("shfmt", shfmt, "windows-x86_64").unwrap();
    assert_eq!(
        renamed(&entry),
        ("{release}/shfmt_v{version}_windows_amd64.exe", "shfmt.exe")
    );

    let entry = for_host("shfmt", shfmt, "linux-x86_64").unwrap();
    assert_eq!(
        renamed(&entry),
        ("{release}/shfmt_v{version}_linux_amd64", "shfmt")
    );
}

#[test]
fn a_repository_file_needs_no_target() {
    // Not a release at all: the same file on every platform, tracked by commit.
    let document = program(
        r"
version: 1
programs:
  omp-theme:
    repository: https://github.com/JanDeDobbeleer/oh-my-posh
    path: themes/powerlevel10k_rainbow.omp.json
    hashVersionFile: true
",
    );
    let entry = for_host("omp-theme", listed(&document, "omp-theme"), "any").unwrap();
    assert_eq!(entry.hash_version_file, Some(true));
    assert!(
        matches!(
            entry.files.as_slice(),
            [FileEntry::Simple(path)] if path == "themes/powerlevel10k_rainbow.omp.json"
        ),
        "a bare path is saved under its own basename"
    );
}

#[test]
fn a_repository_file_can_be_renamed() {
    let document = program(
        r"
version: 1
programs:
  omp-theme:
    repository: https://github.com/JanDeDobbeleer/oh-my-posh
    path: themes/powerlevel10k_rainbow.omp.json
    as: my-prompt.json
",
    );
    let entry = for_host("omp-theme", listed(&document, "omp-theme"), "any").unwrap();
    assert_eq!(
        renamed(&entry),
        ("themes/powerlevel10k_rainbow.omp.json", "my-prompt.json")
    );
}

#[test]
fn a_path_beside_any_release_field_is_refused() {
    // The two describe different things, and silently ignoring one would be a trap. All three
    // release fields count, not just `targets`.
    for extra in [
        "    asset: '{release}/thing.zip'",
        "    member: 'thing.exe'",
        "    targets:\n      windows-x86_64: x86_64-pc-windows-msvc",
    ] {
        let yaml = format!(
            "version: 1\nprograms:\n  confused:\n    repository: https://github.com/e/c\n    path: some/file.txt\n{extra}\n"
        );
        let document = program(&yaml);
        let error = for_host("confused", listed(&document, "confused"), "windows-x86_64")
            .expect_err("must be refused");
        let message = error.to_text();
        assert!(
            message.contains("asset") && message.contains("targets"),
            "for {extra:?}: {message}"
        );
    }
}

#[test]
fn a_path_and_targets_together_are_refused() {
    // They describe two different things; silently preferring one would be a trap.
    let document = program(
        r"
version: 1
programs:
  confused:
    repository: https://github.com/example/confused
    path: some/file.txt
    targets:
      windows-x86_64: x86_64-pc-windows-msvc
",
    );
    let error = for_host("confused", listed(&document, "confused"), "windows-x86_64")
        .expect_err("must be refused");
    assert!(error.to_text().contains("targets"), "{}", error.to_text());
}

#[test]
fn a_release_regex_reaches_the_entry() {
    // Without it, `bitwarden/sdk`'s newest release is one with no assets.
    let document = program(
        r"
version: 1
programs:
  bws:
    repository: https://github.com/bitwarden/sdk
    releaseRegex: '^bws-v\d+\.\d+\.\d+$'
    asset: '{release}/bws-{target}-{version}.zip'
    member: 'bws{exe}'
    targets:
      windows-x86_64: x86_64-pc-windows-msvc
",
    );
    let entry = for_host("bws", listed(&document, "bws"), "windows-x86_64").unwrap();
    assert_eq!(
        entry.release_regex.as_deref(),
        Some(r"^bws-v\d+\.\d+\.\d+$")
    );
}

#[test]
fn a_host_the_entry_does_not_cover_is_reported_as_such() {
    let document = program(FD);
    let error = for_host("fd", listed(&document, "fd"), "freebsd-x86_64").unwrap_err();
    let message = error.to_text();
    assert!(message.contains("fd"), "{message}");
    assert!(message.contains("freebsd-x86_64"), "{message}");
}

#[test]
fn a_triple_target_without_shared_patterns_is_an_error() {
    let document = program(
        r"
version: 1
programs:
  broken:
    repository: https://github.com/example/broken
    targets:
      windows-x86_64: x86_64-pc-windows-msvc
",
    );
    let error = for_host("broken", listed(&document, "broken"), "windows-x86_64").unwrap_err();
    assert!(error.to_text().contains("asset"), "{}", error.to_text());
}

/// An entry whose Windows asset holds a layout rather than a lone executable.
const HERDR: &str = r#"
version: 1
programs:
  herdr:
    repository: https://github.com/herdrdev/herdr
    targets:
      windows-x86_64:
        asset: "{release}/herdr-windows-x86_64.zip"
        member:
          - herdr.exe
          - conpty/conpty.dll
          - conpty/x64/OpenConsole.exe
          - conpty/arm64/OpenConsole.exe
      linux-x86_64:
        asset: "{release}/herdr-linux-x86_64"
        as: herdr
"#;

#[test]
fn a_listed_member_keeps_the_path_it_has_in_the_archive() {
    // `herdr.exe` loads `conpty/` from beside itself, so the directories have to survive -
    // and the two `OpenConsole.exe` builds would collide the moment they did not.
    let document = program(HERDR);
    let entry = for_host("herdr", listed(&document, "herdr"), "windows-x86_64").unwrap();
    assert_eq!(asset_of(&entry).0, "{release}/herdr-windows-x86_64.zip");
    let same = |path: &str| (path.to_owned(), path.to_owned());
    assert_eq!(
        extracted(&entry),
        [
            same("herdr.exe"),
            same("conpty/conpty.dll"),
            same("conpty/x64/OpenConsole.exe"),
            same("conpty/arm64/OpenConsole.exe"),
        ]
    );

    // The hosts that publish a bare binary are untouched by any of it.
    let entry = for_host("herdr", listed(&document, "herdr"), "linux-x86_64").unwrap();
    assert_eq!(renamed(&entry), ("{release}/herdr-linux-x86_64", "herdr"));
}

#[test]
fn every_listed_member_is_expanded_for_the_host() {
    // The compact form substitutes into each path, not only into the first.
    let document = program(
        r#"
version: 1
programs:
  layout:
    repository: https://github.com/example/layout
    asset: "{release}/layout-{target}{ext}"
    member:
      - "layout{exe}"
      - "support/{target}/data.bin"
    targets:
      windows-x86_64: x86_64-pc-windows-msvc
      linux-x86_64: x86_64-unknown-linux-gnu
"#,
    );
    let layout = listed(&document, "layout");

    let entry = for_host("layout", layout, "windows-x86_64").unwrap();
    assert_eq!(
        extracted(&entry),
        [
            ("layout.exe".to_owned(), "layout.exe".to_owned()),
            (
                "support/x86_64-pc-windows-msvc/data.bin".to_owned(),
                "support/x86_64-pc-windows-msvc/data.bin".to_owned()
            ),
        ]
    );

    let entry = for_host("layout", layout, "linux-x86_64").unwrap();
    assert_eq!(
        extracted(&entry),
        [
            ("layout".to_owned(), "layout".to_owned()),
            (
                "support/x86_64-unknown-linux-gnu/data.bin".to_owned(),
                "support/x86_64-unknown-linux-gnu/data.bin".to_owned()
            ),
        ]
    );
}

#[test]
fn a_member_list_beside_an_as_is_refused() {
    // `as` renames one downloaded file; a list is a layout, and there is no one file to mean.
    for entry in [
        "    asset: '{release}/thing.zip'\n    as: thing\n    member: [thing, extra/data.bin]\n    targets:\n      linux-x86_64: x86_64-unknown-linux-gnu",
        "    targets:\n      linux-x86_64:\n        asset: '{release}/thing.zip'\n        as: thing\n        member: [thing, extra/data.bin]",
    ] {
        let yaml = format!(
            "version: 1\nprograms:\n  thing:\n    repository: https://github.com/e/c\n{entry}\n"
        );
        let document = program(&yaml);
        let error = for_host("thing", listed(&document, "thing"), "linux-x86_64")
            .expect_err("must be refused");
        let message = error.to_text();
        assert!(message.contains("'as'"), "for {entry:?}: {message}");
    }
}

#[test]
fn a_member_list_with_nothing_in_it_is_refused() {
    // Silently extracting nothing would leave an "installed" dependency with no files.
    let document = program(
        r"
version: 1
programs:
  empty:
    repository: https://github.com/example/empty
    targets:
      linux-x86_64:
        asset: '{release}/empty.tar.gz'
        member: []
",
    );
    let error = for_host("empty", listed(&document, "empty"), "linux-x86_64").expect_err("refused");
    assert!(error.to_text().contains("no file"), "{}", error.to_text());
}

#[test]
fn a_listed_member_that_would_leave_the_vendor_folder_is_refused() {
    // `join_normalized` resolves `..` against the folder, so a climbing segment escapes it.
    for bad in [
        "../outside",
        "conpty/../../outside",
        "/etc/passwd",
        "C:/Windows/System32/evil.dll",
        "conpty//OpenConsole.exe",
        "conpty/",
    ] {
        assert!(member_path("x", bad).is_err(), "{bad} must be refused");
    }
    // A plain relative path is kept whole, separators normalised to the archive's own.
    assert_eq!(member_path("x", "herdr.exe").unwrap(), "herdr.exe");
    assert_eq!(
        member_path("x", "conpty\\x64\\OpenConsole.exe").unwrap(),
        "conpty/x64/OpenConsole.exe"
    );
}

#[test]
fn an_output_that_would_leave_the_vendor_folder_is_refused() {
    // A registry may say what to fetch, never where it lands.
    assert!(output_name("x", "some/dir/../..").is_err());
    assert!(output_name("x", "").is_err());
    assert!(output_name("x", "dir/").is_err());
    assert!(output_name("x", "C:\\Windows\\System32\\evil.dll:").is_err());
    // A nested member is fine; only its basename is written.
    assert_eq!(output_name("x", "a/b/c/tool").unwrap(), "tool");
    for absolute in ["/etc/passwd", "\\\\host\\tool", "C:\\tool.exe", "../tool", "a/../../tool"] {
        let error = output_name("x", absolute).unwrap_err();
        assert!(matches!(
            error,
            VendorError::RegistryInvalidEntry { ref name, .. } if name == "x"
        ));
    }
    assert_eq!(output_name("x", "a/../tool").unwrap(), "tool");
}

#[test]
fn the_pieces_of_an_entry_are_expanded_one_by_one() {
    assert_eq!(
        expand("{release}/x-{version}-{target}{ext}{exe}", "T", "windows-x86_64"),
        "{release}/x-{version}-T.zip.exe"
    );
    let member = expand_member(&Member::One("a{exe}".to_owned()), "T", "windows-x86_64");
    assert_eq!(member.paths(), ["a.exe"]);
    assert!(!member.is_list());
    let map = extraction("x", &Member::One("d/tool".to_owned()), Some("renamed")).unwrap();
    assert_eq!((map.key_at(0), map.value_at(0).as_str()), ("d/tool", "renamed"));
    assert!(extraction("x", &Member::Many(vec![]), None).is_err());
}

const COMPACT: &str = r#"
version: 1
programs:
  fd:
    aliases: [fdfind]
    repository: https://github.com/sharkdp/fd
    asset: "{release}/fd-v{version}-{target}{ext}"
    member: "fd-v{version}-{target}/fd{exe}"
    targets:
      windows-x86_64: x86_64-pc-windows-msvc
"#;

fn parse(text: &str) -> Option<Document> {
    Document::from_json(&parse_yaml(text).expect("valid yaml"))
}

#[test]
fn the_compact_form_parses() {
    let document = parse(COMPACT).expect("valid");
    assert_eq!(document.version, SUPPORTED_VERSION);
    let program = listed(&document, "fd");
    assert_eq!(program.aliases, ["fdfind"]);
    assert!(matches!(
        program.targets.get("windows-x86_64"),
        Some(Target::Triple(triple)) if triple == "x86_64-pc-windows-msvc"
    ));
}

#[test]
fn the_explicit_form_parses() {
    let document = parse(
        r#"
version: 1
programs:
  fzf:
    repository: https://github.com/junegunn/fzf
    targets:
      windows-x86_64:
        asset: "{release}/fzf-{version}-windows_amd64.zip"
        member: "fzf.exe"
"#,
    )
    .expect("valid");
    let Some(Target::Explicit(explicit)) = listed(&document, "fzf").targets.get("windows-x86_64")
    else {
        panic!("expected the explicit form");
    };
    assert!(matches!(&explicit.member, Some(Member::One(member)) if member == "fzf.exe"));
}

#[test]
fn a_field_this_build_does_not_know_is_refused() {
    // The whole point of the trust boundary: a registry cannot smuggle in a key that an old
    // binary would ignore. `vendorFolder` is the one that would matter.
    let refused = parse(
        r#"
version: 1
programs:
  sneaky:
    repository: https://github.com/example/sneaky
    vendorFolder: "C:/Windows/System32"
    targets:
      windows-x86_64: x86_64-pc-windows-msvc
"#,
    );
    assert!(refused.is_none(), "unknown fields must be refused");
}

#[test]
fn a_missing_repository_is_refused() {
    let refused = parse(
        r"
version: 1
programs:
  nameless:
    targets:
      windows-x86_64: x86_64-pc-windows-msvc
",
    );
    assert!(refused.is_none());
}

#[test]
fn an_empty_registry_is_valid() {
    let document = parse("version: 1\n").expect("valid");
    assert_eq!(document.programs.len(), 0);
}
