//! Dependencies as a config declares them, and the lockfiles that record what was vendored.

use vendorfiles::codec::{parse_json, to_compact_text};
use vendorfiles::lockfile::{
    config_files_to_lock_files, files_from_lockfile, flat_files, lockfile_from_json,
    lockfile_to_json, read_lockfile, replace_version_in_target, same_files, to_json,
    upserted_lockfile, LockFiles, Lockfile, VendorLock,
};
use vendorfiles::model::{
    flatten_files, write_files, DefaultOptions, FileEntry, FileTarget, HashVersionFile,
    RawDependency, Repository,
};
use vendorfiles::value::OrderedMap;

fn dep(json: &str) -> RawDependency {
    RawDependency::from_json(&parse_json(json).expect("valid dependency"))
}

fn files(json: &str) -> Vec<FileEntry> {
    let mut entry = String::from("{\"files\": ");
    entry.push_str(json);
    entry.push('}');
    dep(&entry).files.expect("valid files array")
}

/// A list of files, as it stands in a config.
fn shown(files: &Vec<FileEntry>) -> String {
    to_compact_text(&write_files(files)).unwrap()
}

fn renamed(target: Option<&FileTarget>) -> Option<&str> {
    match target {
        Some(FileTarget::Rename(name)) => Some(name),
        _ => None,
    }
}

#[test]
fn files_accepts_a_bare_string() {
    let d = dep(r#"{"files": "a/b.txt"}"#);
    let files = d.files.unwrap();
    assert_eq!(files.len(), 1);
    assert!(matches!(&files[0], FileEntry::Simple(path) if path == "a/b.txt"));
}

#[test]
fn file_targets_discriminate_by_shape() {
    let d = dep(r#"{"files": [{"x": "y", "a.zip": ["one"], "b.zip": {"in": "out"}}]}"#);
    let FileEntry::Mapped(map) = &d.files.as_ref().unwrap()[0] else {
        panic!("expected a mapped entry");
    };
    assert_eq!(renamed(map.get("x")), Some("y"));
    let Some(FileTarget::ExtractList(list)) = map.get("a.zip") else {
        panic!("expected an extract list");
    };
    assert_eq!(list, &vec!["one".to_owned()]);
    let Some(FileTarget::ExtractMap(inner)) = map.get("b.zip") else {
        panic!("expected an extract map");
    };
    assert_eq!(inner.get("in").unwrap(), "out");
}

#[test]
fn flatten_preserves_declaration_order() {
    let d = dep(r#"{"files": ["a/one.txt", {"b": "c", "d": "e"}]}"#);
    let flat = flatten_files(false, d.files.as_ref().unwrap());
    let inputs: Vec<_> = flat.iter().map(|f| f.input.as_str()).collect();
    assert_eq!(inputs, ["a/one.txt", "b", "d"]);
    assert_eq!(renamed(Some(&flat[0].output)), Some("one.txt"));
}

#[test]
fn wrong_types_degrade_to_absent_rather_than_failing_to_parse() {
    let d = dep(r#"{"repository": 42, "files": {"not": "an array"}, "locked": "yes"}"#);
    assert!(d.repository.is_none());
    assert!(d.files.is_none());
    assert!(d.locked.is_none());
}

#[test]
fn validate_reports_the_reference_messages() {
    let d = dep(r#"{"files": ["a"]}"#);
    assert_eq!(
        d.validate("Foo").unwrap_err().to_text(),
        "config key 'vendorDependencies.Foo.repository' is not a valid github url"
    );

    let d = dep(r#"{"repository": "https://github.com/a/b", "files": []}"#);
    assert_eq!(
        d.validate("Foo").unwrap_err().to_text(),
        "config key 'vendorDependencies.Foo.files' is not a valid array"
    );

    let d = dep(r#"{"repository": "https://github.com/a/b", "files": ["x"], "releaseRegex": "("}"#);
    assert_eq!(
        d.validate("Foo").unwrap_err().to_text(),
        "config key 'vendorDependencies.Foo.releaseRegex' must be a valid regex string"
    );
}

#[test]
fn a_sound_entry_is_valid() {
    let d = dep(
        r#"{"repository": "https://github.com/a/b", "files": ["x"], "releaseRegex": "^v(?=1)"}"#,
    );
    assert!(d.validate("Foo").is_ok());
    assert!(d.validate_with("Foo", true).is_ok());
    assert!(d.validate_with("Foo", false).is_err());
}

#[test]
fn hash_version_target_resolves_true_to_the_first_file() {
    let d = dep(
        r#"{"repository":"https://github.com/a/b","files":["dist/x.js","y"],"hashVersionFile":true}"#,
    );
    let resolved = d.resolve("b").unwrap();
    assert_eq!(
        resolved.hash_version_target().unwrap().as_deref(),
        Some("dist/x.js")
    );

    let d = dep(
        r#"{"repository":"https://github.com/a/b","files":[{"k":"v"}],"hashVersionFile":true}"#,
    );
    let resolved = d.resolve("b").unwrap();
    assert_eq!(
        resolved.hash_version_target().unwrap().as_deref(),
        Some("k")
    );
}

#[test]
fn hash_version_flag_false_means_track_releases() {
    let d = dep(r#"{"repository":"https://github.com/a/b","files":["x"],"hashVersionFile":false}"#);
    assert_eq!(d.hash_version_file, Some(HashVersionFile::Flag(false)));
    assert!(d
        .resolve("b")
        .unwrap()
        .hash_version_target()
        .unwrap()
        .is_none());
}

#[test]
fn a_named_hash_version_file_is_the_one_to_follow() {
    let d = dep(
        r#"{"repository":"https://github.com/a/b","files":["x"],"hashVersionFile":"dist/y.js"}"#,
    );
    assert_eq!(
        d.resolve("b").unwrap().hash_version_target().unwrap().as_deref(),
        Some("dist/y.js")
    );
}

#[test]
fn defaults_only_fill_absent_fields() {
    let mut d = dep(r#"{"version": "v1"}"#);
    let defaults: DefaultOptions = dep(
        r#"{"repository": "https://github.com/a/b", "version": "v9", "hashVersionFile": true}"#,
    );
    d.apply_defaults(&defaults);
    assert_eq!(d.version.as_deref(), Some("v1"));
    assert_eq!(d.repository.as_deref(), Some("https://github.com/a/b"));
    assert_eq!(d.hash_version_file, Some(HashVersionFile::Flag(true)));
}

#[test]
fn what_the_defaults_say_is_left_out_and_comes_back() {
    let defaults: DefaultOptions = dep(r#"{"vendorFolder": "{vendorFolder}", "locked": true}"#);
    let mut entry = dep(
        r#"{"version": "v1", "vendorFolder": "{vendorFolder}", "locked": true, "files": ["a"]}"#,
    );
    entry.strip_defaults(&defaults);
    assert_eq!(entry.vendor_folder, None);
    assert_eq!(entry.locked, None);
    assert_eq!(entry.version.as_deref(), Some("v1"));
    entry.apply_defaults(&defaults);
    assert_eq!(entry.vendor_folder.as_deref(), Some("{vendorFolder}"));
    assert_eq!(entry.locked, Some(true));
}

#[test]
fn an_entry_is_written_as_it_was_read() {
    let text = r#"{"version":"v1","repository":"https://github.com/a/b","files":["a",{"b":"c","d":["e"],"f":{"g":"h"}}],"hashVersionFile":true,"name":"n","vendorFolder":"x","releaseRegex":"^v","locked":false}"#;
    assert_eq!(to_compact_text(&dep(text).to_json()).unwrap(), text);
    assert_eq!(to_compact_text(&dep(text).copy().to_json()).unwrap(), text);
    assert_eq!(to_compact_text(&RawDependency::empty().to_json()).unwrap(), "{}");
}

#[test]
fn a_dependency_resolves_to_its_repository() {
    let resolved = dep(r#"{"repository":"https://github.com/a/b","files":["x"],"version":""}"#)
        .resolve("fallback")
        .unwrap();
    assert_eq!(resolved.name, "fallback");
    assert_eq!(resolved.repo.to_text(), "a/b");
    // An empty version is none.
    assert_eq!(resolved.version, None);
    assert!(!resolved.locked);
    assert_eq!(
        dep(r#"{"files":["x"]}"#).resolve("z").unwrap_err().to_text(),
        "Invalid GitHub URL: undefined"
    );
    let repo = Repository {
        owner: "o".to_owned(),
        name: "r".to_owned(),
    };
    assert_eq!(repo.to_text(), "o/r");
}

#[test]
fn extraction_pairs_name_each_member_and_its_place() {
    let flat = flatten_files(false, &files(r#"[{"a.zip": ["x/y", "z"], "b.zip": {"i": "o"}, "c": "d"}]"#));
    assert_eq!(
        flat[0].output.extraction_pairs(),
        Some(vec![
            ("x/y".to_owned(), "x/y".to_owned()),
            ("z".to_owned(), "z".to_owned())
        ])
    );
    assert_eq!(
        flat[1].output.extraction_pairs(),
        Some(vec![("i".to_owned(), "o".to_owned())])
    );
    assert_eq!(flat[2].output.extraction_pairs(), None);
}

#[test]
fn simple_entries_map_to_their_basename() {
    let lock = config_files_to_lock_files(false, &files(r#"["dist/coloris.min.js"]"#), "v1.0.0");
    assert_eq!(
        renamed(lock.get("dist/coloris.min.js")),
        Some("coloris.min.js")
    );
}

#[test]
fn later_entries_overwrite_but_keep_the_original_position() {
    let lock = config_files_to_lock_files(
        false,
        &files(r#"["LICENSE", {"{release}/a.zip": ["x"], "LICENSE": "LICENSE2"}]"#),
        "0.38.0",
    );
    let keys: Vec<_> = (0..lock.len()).map(|i| lock.key_at(i)).collect();
    assert_eq!(keys, ["LICENSE", "{release}/a.zip"]);
    assert_eq!(renamed(lock.get("LICENSE")), Some("LICENSE2"));
}

#[test]
fn version_is_substituted_in_values_but_not_keys() {
    let lock = config_files_to_lock_files(
        false,
        &files(r#"[{"{release}/fzf-{version}.zip": {"fzf.exe": "fzf-{version}.exe"}}]"#),
        "v0.38.0",
    );
    assert_eq!(lock.key_at(0), "{release}/fzf-{version}.zip");
    let FileTarget::ExtractMap(map) = lock.value_at(0) else {
        panic!("expected an extract map");
    };
    assert_eq!(map.get("fzf.exe").unwrap(), "fzf-0.38.0.exe");
}

#[test]
fn a_renamed_file_carries_its_version() {
    let target = FileTarget::Rename("x-{version}".to_owned());
    assert_eq!(
        renamed(Some(&replace_version_in_target(&target, "v1.2.3"))),
        Some("x-1.2.3")
    );
}

#[test]
fn flat_files_collects_every_output_path() {
    let lock = config_files_to_lock_files(
        false,
        &files(r#"["a/one", {"b.zip": ["x", "y"], "c.zip": {"i": "o"}}]"#),
        "",
    );
    assert_eq!(flat_files(&lock), ["one", "x", "y", "o"]);
}

/// A lockfile with one entry, `fzf`.
fn one_entry() -> Lockfile {
    let mut lockfile: Lockfile = OrderedMap::new();
    lockfile.insert(
        "fzf".to_owned(),
        VendorLock {
            repository: "https://github.com/junegunn/fzf".to_owned(),
            version: "0.38.0".to_owned(),
            files: config_files_to_lock_files(false, &files(r#"["LICENSE"]"#), "0.38.0"),
        },
    );
    lockfile
}

#[test]
fn serialisation_matches_json_stringify_with_two_spaces() {
    assert_eq!(
        to_json(&one_entry()).unwrap(),
        "{\n  \"fzf\": {\n    \"repository\": \"https://github.com/junegunn/fzf\",\n    \
         \"version\": \"0.38.0\",\n    \"files\": {\n      \"LICENSE\": \"LICENSE\"\n    \
         }\n  }\n}"
    );
}

#[test]
fn map_equality_ignores_key_order_but_arrays_stay_ordered() {
    let a: LockFiles = config_files_to_lock_files(false, &files(r#"[{"x": "1", "y": "2"}]"#), "");
    let b: LockFiles = config_files_to_lock_files(false, &files(r#"[{"y": "2", "x": "1"}]"#), "");
    assert!(same_files(&a, &b));

    let c = config_files_to_lock_files(false, &files(r#"[{"z.zip": ["a", "b"]}]"#), "");
    let d = config_files_to_lock_files(false, &files(r#"[{"z.zip": ["b", "a"]}]"#), "");
    assert!(!same_files(&c, &d));
}

#[test]
fn a_lockfile_reads_back_what_was_written() {
    let text = to_json(&one_entry()).unwrap();
    let read = read_lockfile("vendor-lock.json", &text).unwrap();
    assert_eq!(to_json(&read).unwrap(), text);
    assert_eq!(read.get("fzf").unwrap().version, "0.38.0");
    let again = lockfile_from_json(&lockfile_to_json(&read)).unwrap();
    assert_eq!(to_json(&again).unwrap(), text);
}

#[test]
fn a_lockfile_that_cannot_be_read_names_its_path() {
    let error = read_lockfile("some/vendor-lock.json", "not json").unwrap_err();
    assert!(error.to_text().contains("some/vendor-lock.json"), "{}", error.to_text());
    assert!(lockfile_from_json(&parse_json("[1]").unwrap()).is_none());
}

#[test]
fn an_upsert_keeps_the_entries_around_it() {
    let first = upserted_lockfile(
        Some(&to_json(&one_entry()).unwrap()),
        "bat",
        VendorLock {
            repository: "https://github.com/sharkdp/bat".to_owned(),
            version: "v1".to_owned(),
            files: OrderedMap::new(),
        },
    )
    .unwrap();
    let read = read_lockfile("l", &first).unwrap();
    assert_eq!((read.key_at(0), read.key_at(1)), ("fzf", "bat"));

    // Nothing readable to build on: the new entry stands alone.
    let alone = upserted_lockfile(
        Some("not json"),
        "bat",
        VendorLock {
            repository: "r".to_owned(),
            version: "v1".to_owned(),
            files: OrderedMap::new(),
        },
    )
    .unwrap();
    assert_eq!(read_lockfile("l", &alone).unwrap().len(), 1);
}

#[test]
fn the_files_of_an_entry_are_read_from_its_lockfile() {
    let text = to_json(&one_entry()).unwrap();
    assert_eq!(files_from_lockfile(Some(&text), "fzf"), ["LICENSE"]);
    assert!(files_from_lockfile(Some(&text), "bat").is_empty());
    assert!(files_from_lockfile(None, "fzf").is_empty());
    assert!(files_from_lockfile(Some("not json"), "fzf").is_empty());
}

#[test]
fn a_list_of_files_is_shown_as_the_config_writes_it() {
    let text = r#"["a",{"b":"c"}]"#;
    assert_eq!(shown(&files(text)), text);
}

#[test]
fn a_lock_entry_may_list_its_values_in_order() {
    let read = |text: &str| lockfile_from_json(&parse_json(text).unwrap());
    let listed = read(r#"{"a": ["https://github.com/a/b", "v1", {"x.js": "y.js"}]}"#).unwrap();
    assert_eq!(listed.get("a").unwrap().version, "v1");
    assert!(read(r#"{"a": ["https://github.com/a/b", "v1"]}"#).is_none());
}
