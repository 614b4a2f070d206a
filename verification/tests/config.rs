//! Config files: their formats, how they are found and edited, and what they hold.

use vendorfiles::codec::{
    from_value, parse_json, parse_toml, parse_yaml, to_compact_text, to_json_text, to_value,
};
use vendorfiles::config::document::{to_json_string, to_yaml_string, ConfigDocument};
use vendorfiles::config::format::{final_newline, ConfigFormat, Indent};
use vendorfiles::config::yaml_emit::{plain_or_quoted, to_string};
use vendorfiles::config::{
    config_candidates, config_file_names, dependency_folder, fallback_start, is_falsy,
    read_defaults, read_dependencies, read_vendor_config, resolve_start_path, Workspace,
};
use vendorfiles::model::{FileEntry, RawDependency, VendorConfig};
use vendorfiles::ops::Session;
use vendorfiles::value::{Json, OrderedMap};

fn value(json: &str) -> Json {
    parse_json(json).unwrap()
}

fn yaml(json: &str) -> String {
    to_string(&value(json), 2)
}

#[test]
fn format_is_taken_from_the_extension() {
    assert_eq!(ConfigFormat::from_path("a/vendor.toml"), ConfigFormat::Toml);
    assert_eq!(ConfigFormat::from_path("a/vendor.yml"), ConfigFormat::Yml);
    assert_eq!(ConfigFormat::from_path("a/vendor.yaml"), ConfigFormat::Yml);
    assert_eq!(ConfigFormat::from_path("a/vendor.json"), ConfigFormat::Json);
    assert_eq!(ConfigFormat::from_path("a/package.json"), ConfigFormat::Json);
}

#[test]
fn indent_detection_handles_the_common_cases() {
    assert_eq!(Indent::detect("{\n    \"a\": 1\n}").as_str(), "    ");
    assert_eq!(Indent::detect("{\n\t\"a\": 1\n}").as_str(), "\t");
    assert_eq!(
        Indent::detect("{\n  \"a\": {\n    \"b\": 1\n  }\n}").as_str(),
        "  "
    );
    // No indentation at all falls back to two spaces.
    assert_eq!(Indent::detect("{}").as_str(), "  ");
}

#[test]
fn a_lone_deep_line_is_not_the_unit_of_the_rest() {
    // Two steps of two outvote the one jump of eight.
    assert_eq!(
        Indent::detect("a:\n  b:\n    c: 1\nd:\n        e: 2\nf:\n  g: 3\n").as_str(),
        "  "
    );
}

#[test]
fn json_rendering_honours_the_detected_indent() {
    let value = value(r#"{"a":{"b":1}}"#);
    assert_eq!(
        to_json_string(&value, &Indent::detect("{\n\t\"x\": 1\n}")).unwrap(),
        "{\n\t\"a\": {\n\t\t\"b\": 1\n\t}\n}"
    );
}

#[test]
fn final_newline_is_captured_verbatim() {
    assert_eq!(final_newline("a\n"), "\n");
    assert_eq!(final_newline("a\r\n"), "\r\n");
    assert_eq!(final_newline("a"), "");
}

#[test]
fn toml_and_yaml_parse_into_the_canonical_value() {
    let toml = ConfigFormat::Toml
        .parse("[vendorConfig]\nvendorFolder = './v'\n", "vendor.toml")
        .unwrap();
    assert_eq!(
        toml.get("vendorConfig").unwrap().get("vendorFolder").unwrap().as_text(),
        Some("./v")
    );

    let yaml = ConfigFormat::Yml
        .parse("vendorConfig:\n  vendorFolder: ./v\n", "vendor.yml")
        .unwrap();
    assert_eq!(
        yaml.get("vendorConfig").unwrap().get("vendorFolder").unwrap().as_text(),
        Some("./v")
    );
}

#[test]
fn text_that_does_not_parse_names_its_file() {
    for (format, text) in [
        (ConfigFormat::Json, "{"),
        (ConfigFormat::Toml, "= 1"),
        (ConfigFormat::Yml, "a: [1"),
    ] {
        let error = format.parse(text, "the-config").unwrap_err();
        assert!(error.to_text().contains("the-config"), "{}", error.to_text());
    }
    assert!(parse_json("{").is_err());
    assert!(parse_yaml("a: [1").is_err());
    assert!(parse_toml("= 1").is_err());
}

#[test]
fn block_sequences_are_indented_under_their_key() {
    assert_eq!(
        yaml(r#"{"files": ["LICENSE", "README.md"]}"#),
        "files:\n  - LICENSE\n  - README.md\n"
    );
}

#[test]
fn a_map_inside_a_sequence_starts_on_the_dash_line() {
    assert_eq!(
        yaml(r#"{"files": [{"a": "1", "b": "2"}]}"#),
        "files:\n  - a: '1'\n    b: '2'\n".replace('\'', "\"")
    );
}

#[test]
fn flow_indicators_force_double_quotes() {
    assert_eq!(
        plain_or_quoted("{vendorFolder}/ct"),
        "\"{vendorFolder}/ct\""
    );
    assert_eq!(
        plain_or_quoted("https://github.com/a/b"),
        "https://github.com/a/b"
    );
    assert_eq!(plain_or_quoted("v2.5.1"), "v2.5.1");
    assert_eq!(plain_or_quoted("0.37.0"), "0.37.0");
    assert_eq!(plain_or_quoted("1.0"), "\"1.0\"");
    assert_eq!(plain_or_quoted("true"), "\"true\"");
    assert_eq!(plain_or_quoted("dist/x.js"), "dist/x.js");
}

#[test]
fn what_is_quoted_is_escaped() {
    assert_eq!(plain_or_quoted(""), "\"\"");
    assert_eq!(plain_or_quoted("a: b"), "\"a: b\"");
    assert_eq!(plain_or_quoted("say \"x\": {"), "\"say \\\"x\\\": {\"");
    assert_eq!(plain_or_quoted("a\nb"), "\"a\\nb\"");
    assert_eq!(plain_or_quoted("null"), "\"null\"");
    assert_eq!(plain_or_quoted("- x"), "\"- x\"");
}

#[test]
fn empty_collections_stay_in_flow_style() {
    assert_eq!(
        yaml(r#"{"vendorDependencies": {}}"#),
        "vendorDependencies: {}\n"
    );
    assert_eq!(yaml(r#"{"files": []}"#), "files: []\n");
}

#[test]
fn nested_mappings_indent_by_the_configured_step() {
    assert_eq!(
        yaml(r#"{"vendorConfig": {"vendorFolder": "./deps"}}"#),
        "vendorConfig:\n  vendorFolder: ./deps\n"
    );
}

#[test]
fn a_tab_indents_yaml_by_one_space() {
    // A tab is one character wide, and YAML takes no tabs.
    assert_eq!(
        to_yaml_string(&value(r#"{"a": {"b": "c"}}"#), &Indent::detect("{\n\t\"x\": 1\n}")),
        "a:\n b: c\n"
    );
}

fn doc(format: ConfigFormat, text: &str) -> ConfigDocument {
    ConfigDocument::parse(format, text, "vendor").unwrap()
}

#[test]
fn json_version_bump_preserves_unrelated_keys_and_order() {
    let mut d = doc(
        ConfigFormat::Json,
        r#"{"name":"pkg","vendorDependencies":{"a":{"version":"v1","repository":"r"}}}"#,
    );
    d.set_dependency_version("a", "v2");
    let out = d
        .render(ConfigFormat::Json, &Indent::default_two_spaces())
        .unwrap();
    assert_eq!(
        out,
        "{\n  \"name\": \"pkg\",\n  \"vendorDependencies\": {\n    \"a\": {\n      \
         \"version\": \"v2\",\n      \"repository\": \"r\"\n    }\n  }\n}"
    );
}

#[test]
fn toml_version_bump_keeps_comments() {
    let mut d = doc(
        ConfigFormat::Toml,
        "# keep me\n[vendorDependencies.a]\nversion = \"v1\" # and me\nrepository = \"r\"\n",
    );
    d.set_dependency_version("a", "v2");
    let out = d
        .render(ConfigFormat::Toml, &Indent::default_two_spaces())
        .unwrap();
    assert_eq!(
        out,
        "# keep me\n[vendorDependencies.a]\nversion = \"v2\" # and me\nrepository = \"r\"\n"
    );
}

#[test]
fn yaml_removal_drops_only_the_named_dependency() {
    let mut d = doc(
        ConfigFormat::Yml,
        "vendorConfig:\n  vendorFolder: ./v\nvendorDependencies:\n  a:\n    version: v1\n  b:\n    version: v2\n",
    );
    d.remove_dependency("a");
    let out = d
        .render(ConfigFormat::Yml, &Indent::default_two_spaces())
        .unwrap();
    assert_eq!(
        out,
        "vendorConfig:\n  vendorFolder: ./v\nvendorDependencies:\n  b:\n    version: v2\n"
    );
}

#[test]
fn toml_removal_does_not_leave_a_growing_run_of_blank_lines() {
    let source =
        "[vendorDependencies.a]\nversion = \"v1\"\n\n[vendorDependencies.b]\nversion = \"v2\"\n";
    let mut d = doc(ConfigFormat::Toml, source);
    d.remove_dependency("a");
    d.remove_dependency("b");
    assert_eq!(
        d.render(ConfigFormat::Toml, &Indent::default_two_spaces())
            .unwrap(),
        "\n"
    );
}

#[test]
fn upsert_writes_a_new_dependency_in_every_format() {
    let mut dep = RawDependency::empty();
    dep.version = Some("v1".to_owned());
    dep.repository = Some("https://github.com/a/b".to_owned());
    dep.files = Some(vec![FileEntry::Simple("LICENSE".to_owned())]);

    let mut json = doc(ConfigFormat::Json, "{}");
    json.upsert_dependency("b", &dep).unwrap();
    assert_eq!(
        json.render(ConfigFormat::Json, &Indent::default_two_spaces())
            .unwrap(),
        "{\n  \"vendorDependencies\": {\n    \"b\": {\n      \"version\": \"v1\",\n      \
         \"repository\": \"https://github.com/a/b\",\n      \"files\": [\n        \
         \"LICENSE\"\n      ]\n    }\n  }\n}"
    );

    let mut toml = doc(ConfigFormat::Toml, "");
    toml.upsert_dependency("b", &dep).unwrap();
    let rendered = toml
        .render(ConfigFormat::Toml, &Indent::default_two_spaces())
        .unwrap();
    assert!(rendered.contains("[vendorDependencies.b]"), "{rendered}");
    assert!(rendered.contains("version = \"v1\""), "{rendered}");
}

#[test]
fn an_upsert_replaces_the_entry_where_it_stands() {
    let mut dep = RawDependency::empty();
    dep.version = Some("v2".to_owned());
    let mut yaml = doc(
        ConfigFormat::Yml,
        "vendorDependencies:\n  a:\n    version: v1\n  b:\n    version: v1\n",
    );
    yaml.upsert_dependency("a", &dep).unwrap();
    assert_eq!(
        yaml.render(ConfigFormat::Yml, &Indent::default_two_spaces())
            .unwrap(),
        "vendorDependencies:\n  a:\n    version: v2\n  b:\n    version: v1\n"
    );
}

#[test]
fn vendor_config_defaults_when_absent_or_falsy() {
    assert_eq!(
        read_vendor_config(&value("{}"), "p").unwrap().vendor_folder,
        "./vendor"
    );
    assert_eq!(
        read_vendor_config(&value(r#"{"vendorConfig": null}"#), "p")
            .unwrap()
            .vendor_folder,
        "./vendor"
    );
    assert_eq!(
        read_vendor_config(&value(r#"{"vendorConfig": {}}"#), "p")
            .unwrap()
            .vendor_folder,
        "./vendor"
    );
    assert_eq!(
        read_vendor_config(&value(r#"{"vendorConfig": {"vendorFolder": "x"}}"#), "p")
            .unwrap()
            .vendor_folder,
        "x"
    );
}

#[test]
fn vendor_config_of_the_wrong_type_is_reported_with_the_reference_message() {
    assert_eq!(
        read_vendor_config(&value(r#"{"vendorConfig": "nope"}"#), "vendor.json")
            .unwrap_err()
            .to_text(),
        "Invalid vendorConfig key in vendor.json"
    );
    assert_eq!(
        read_dependencies(&value(r#"{"vendorDependencies": 7}"#), "vendor.json")
            .unwrap_err()
            .to_text(),
        "Invalid vendorDependencies key in vendor.json"
    );
}

#[test]
fn defaults_prefer_the_explicit_key() {
    let d = read_defaults(&value(
        r#"{"default": {"version": "a"}, "defaultVendorOptions": {"version": "b"}}"#,
    ));
    assert_eq!(d.version.as_deref(), Some("b"));
    let d = read_defaults(&value(r#"{"default": {"version": "a"}}"#));
    assert_eq!(d.version.as_deref(), Some("a"));
}

#[test]
fn falsiness_follows_javascript() {
    assert!(is_falsy(&value("null")));
    assert!(is_falsy(&value("false")));
    assert!(is_falsy(&value("0")));
    assert!(is_falsy(&value(r#""""#)));
    assert!(!is_falsy(&value("{}")));
    assert!(!is_falsy(&value("[]")));
}

#[test]
fn a_zero_is_falsy_however_it_is_written() {
    assert!(is_falsy(&value("0.0")));
    assert!(is_falsy(&value("-0")));
    assert!(!is_falsy(&value("0.5")));
}

#[test]
fn a_windows_project_keeps_its_files_on_its_drive() {
    let text = r#"{"vendorConfig": {"vendorFolder": "./deps"}, "vendorDependencies": {
        "a": {"files": ["LICENSE"], "vendorFolder": "D:\\bin"}, "b": {"files": ["x/y.js"]}}}"#;
    let workspace = Workspace::from_text(true, r"C:\proj\vendor.json", text).unwrap();
    assert_eq!(workspace.dependency_folder(None, "b"), r"C:\proj\deps\b");
    assert_eq!(workspace.dependency_folder(Some(r"D:\bin"), "a"), r"D:\bin");
    let session = Session::new(workspace);
    assert_eq!(session.expected_files("a"), [r"D:\bin\LICENSE"]);
    assert_eq!(session.expected_files("b"), [r"C:\proj\deps\b\y.js"]);
    assert_eq!(
        config_candidates(true, r"C:\proj")[0],
        format!(r"C:\proj\{}", config_file_names()[0])
    );
}

#[test]
fn dependency_folder_appends_the_name_only_without_an_override() {
    let config = VendorConfig {
        vendor_folder: "./vendor".to_owned(),
    };
    let config_path = "/proj/vendor.json";
    assert_eq!(
        dependency_folder(false, &config, config_path, None, "fzf"),
        "/proj/vendor/fzf"
    );
    assert_eq!(
        dependency_folder(false, &config, config_path, Some("{vendorFolder}"), "fzf"),
        "/proj/vendor"
    );
    assert_eq!(
        dependency_folder(false, &config, config_path, Some("{vendorFolder}/sub"), "fzf"),
        "/proj/vendor/sub"
    );
}

#[test]
fn a_rooted_vendor_folder_is_used_as_given() {
    // Joining this onto the config's directory would give /root/root/.local/bin.
    let config = VendorConfig {
        vendor_folder: "/root/.local/bin".to_owned(),
    };
    let config_path = "/root/vendor.yml";
    let expected = "/root/.local/bin";

    // Inherited through `default.vendorFolder: '{vendorFolder}'`...
    assert_eq!(
        dependency_folder(false, &config, config_path, Some("{vendorFolder}"), "ls-interactive"),
        expected
    );
    // ...set directly on the dependency...
    assert_eq!(
        dependency_folder(false, &config, config_path, Some("/root/.local/bin"), "ls-interactive"),
        expected
    );
    // ...and from the global folder, which still gets the dependency name appended.
    assert_eq!(
        dependency_folder(false, &config, config_path, None, "ls-interactive"),
        format!("{expected}/ls-interactive")
    );
}

#[test]
fn a_rooted_folder_is_still_normalised() {
    let config = VendorConfig {
        vendor_folder: "/opt/./tools/../bin".to_owned(),
    };
    assert_eq!(
        dependency_folder(false, &config, "/proj/vendor.yml", Some("{vendorFolder}"), "x"),
        "/opt/bin"
    );
}

#[test]
fn a_relative_vendor_folder_still_follows_the_config_file() {
    // The common case must not move: everything relative stays relative to the config.
    let config = VendorConfig {
        vendor_folder: "./vendor".to_owned(),
    };
    for folder in ["./vendor", "vendor", "../shared", "sub/dir"] {
        let resolved = dependency_folder(false, &config, "/proj/nested/vendor.yml", Some(folder), "x");
        assert!(
            resolved.starts_with("/proj/"),
            "{folder} should resolve under the config directory, got {resolved}"
        );
    }
}

#[test]
fn an_option_beats_the_environment_beats_the_working_directory() {
    assert_eq!(
        resolve_start_path(Some("a"), Some("b"), Some("/c"), Some("/d"), "/e"),
        "a"
    );
    // An empty one says nothing.
    assert_eq!(resolve_start_path(Some(""), None, Some("/c"), None, "/e"), "/c");
    assert_eq!(resolve_start_path(None, Some("/b"), None, None, "/e"), "/b");
    assert_eq!(resolve_start_path(None, None, None, Some("/d"), "/e"), "/d");
    assert_eq!(resolve_start_path(None, None, None, None, "/e"), "/e");
}

#[test]
fn the_default_config_is_only_looked_at_without_an_option() {
    assert_eq!(fallback_start(None, Some("d")), Some("d"));
    assert_eq!(fallback_start(Some("x"), Some("d")), None);
    assert_eq!(fallback_start(None, None), None);
    assert_eq!(fallback_start(None, Some("")), None);
}

#[test]
fn candidates_come_in_the_order_of_the_names() {
    let names = config_file_names();
    assert_eq!(names[0], "vendor.toml");
    let candidates = config_candidates(false, "/proj");
    assert_eq!(candidates.len(), names.len());
    for (candidate, name) in candidates.iter().zip(names) {
        assert_eq!(candidate, &format!("/proj/{name}"));
    }
    // A path that names a config file is tried as it stands, before anything below it.
    assert_eq!(config_candidates(false, "/proj/vendor.yml")[0], "/proj/vendor.yml");
}

#[test]
fn a_workspace_holds_what_its_file_says() {
    let workspace = Workspace::from_text(
        false,
        "/proj/vendor.yml",
        "vendorConfig:\n  vendorFolder: ./deps\ndefault:\n  version: v9\nvendorDependencies:\n  a:\n    repository: https://github.com/o/a\n",
    )
    .unwrap();
    assert_eq!(workspace.config.vendor_folder, "./deps");
    // The block of defaults is folded into each entry.
    assert_eq!(
        workspace.dependencies.get("a").unwrap().version.as_deref(),
        Some("v9")
    );
    assert_eq!(workspace.dependency_folder(None, "a"), "/proj/deps/a");
    assert_eq!(workspace.file.display_path(), "/proj/vendor.yml");
}

#[test]
fn writing_a_config_back_keeps_its_final_newline() {
    let text = "{\n    \"vendorDependencies\": {}\n}\n";
    let workspace = Workspace::from_text(false, "/proj/vendor.json", text).unwrap();
    assert_eq!(workspace.file.contents().unwrap(), text);
}

#[test]
fn what_is_written_as_json_reads_back() {
    let text = r#"{"b":[1,true,null,"x"],"a":{"c":"é\"\n"}}"#;
    let document = value(text);
    let written = to_json_text(&document, "  ").unwrap();
    assert_ne!(written, text);
    assert_eq!(to_compact_text(&value(&written)).unwrap(), text);
    assert_eq!(to_compact_text(&document).unwrap(), text);
    let round = from_value(to_value(&document));
    assert_eq!(to_compact_text(&round).unwrap(), text);
    assert_eq!(to_compact_text(&document.copy()).unwrap(), text);
}

#[test]
fn an_ordered_map_keeps_the_place_of_a_key() {
    let mut map: OrderedMap<u8> = OrderedMap::new();
    map.insert("a".to_owned(), 1);
    map.insert("b".to_owned(), 2);
    map.insert("a".to_owned(), 3);
    assert_eq!(map.len(), 2);
    assert_eq!((map.key_at(0), *map.value_at(0)), ("a", 3));
    assert_eq!(map.index_of("b"), Some(1));
    assert_eq!(map.get("z"), None);
    assert_eq!(map.remove("a"), Some(3));
    assert_eq!(map.remove("a"), None);
    assert_eq!(map.key_at(0), "b");
}

#[test]
fn a_dependency_may_list_its_values_in_order() {
    let read = read_dependencies(
        &value(r#"{"vendorDependencies": {"a": ["v1", "https://github.com/a/b", ["x.js"]]}}"#),
        "vendor.json",
    )
    .unwrap();
    let a = read.get("a").unwrap();
    assert_eq!(a.version.as_deref(), Some("v1"));
    assert_eq!(a.repository.as_deref(), Some("https://github.com/a/b"));
    assert_eq!(a.files.as_ref().map(|files| files.len()), Some(1));
    assert!(a.locked.is_none());
    assert!(read_dependencies(
        &value(r#"{"vendorDependencies": {"a": [1, 2, 3, 4, 5, 6, 7, 8, 9]}}"#),
        "vendor.json",
    )
    .is_err());
}

/// What a TOML document is written as.
fn written(document: &ConfigDocument) -> String {
    document
        .render(ConfigFormat::Toml, &Indent::default_two_spaces())
        .unwrap()
}

/// What a TOML text holds, the order of keys aside.
fn held(text: &str) -> serde_json::Value {
    to_value(&parse_toml(text).unwrap())
}

fn held_json(text: &str) -> serde_json::Value {
    to_value(&value(text))
}

/// TOML documents of every shape, each with a dependency `a`.
const SHAPES: [&str; 12] = [
    "# first\n[vendorDependencies.a]\nversion = \"v1\" # why\nfiles = [\"x\", { \"y\" = \"z\" }]\n",
    "vendorDependencies.a.version = 'v1'\nname = \"p\"\nvendorDependencies.b.version = 'v0'\n",
    "vendorDependencies = { a = { version = \"v1\", locked = true } }\n[other]\nn = 0x10\n",
    "[vendorDependencies.a.extra]\nq = 1\n[vendorDependencies.a]\nversion = 7\n[[list]]\nk = 1.50\n",
    "[vendorDependencies]\na = { version.major = 1 }\nwhen = 2020-01-01\n",
    "[x.p]\ni = 1\n[vendorDependencies.a.files]\nz = \"\"\n[x.q]\nj = 2\n[vendorDependencies.b]\n",
    "[[x]]\n[x.y]\nn = 1\n[vendorDependencies]\na.version = 'v1'\nb.version = 'v2'\n[[x]]\nm = 2\n",
    "top.a = 1\nvendorDependencies.a.locked = true\ntop.b = \"\"\"\nlong\n\"\"\"\n[z]\n",
    "vendorDependencies = { a = { locked = true # c\n } }\n",
    "vendorDependencies = {\n  a = { version = 'v1' }, # one\n  # two\n}\n",
    "vendorDependencies = { # zero\n  a = { # one\n    version = 'v1' # two\n  }# three\n}\n",
    "[z]\n[vendorDependencies.b]\nversion = '1'\n\n# about a\n[vendorDependencies.a]\nname = \"n\" # n\n\n",
];

#[test]
fn a_toml_install_adds_the_dependency_and_keeps_the_rest() {
    let entry = RawDependency::from_json(&value(
        r#"{"version": "v9", "files": ["f", {"g": {"h": "i"}}, {"j": ["k"]}], "locked": true}"#,
    ));
    let texts = SHAPES.iter().copied().chain(["", "name = \"p\"\n", "[q]\nr = 1\n[q.s]\n"]);
    for text in texts {
        for name in ["new", "a", "with space"] {
            let mut document = doc(ConfigFormat::Toml, text);
            let outcome = document.upsert_dependency(name, &entry);
            if text.starts_with("vendorDependencies = {") {
                // A table that is written inline takes no header below it.
                assert!(outcome.is_err());
                assert_eq!(held(&written(&document)), held(text));
                continue;
            }
            outcome.unwrap();
            let mut tree = ConfigDocument::Tree(parse_toml(text).unwrap());
            tree.upsert_dependency(name, &entry).unwrap();
            let ConfigDocument::Tree(expected) = tree else {
                panic!("still a tree");
            };
            let after = written(&document);
            assert_eq!(held(&after), to_value(&expected), "{name}: {text} -> {after}");
        }
    }
}

#[test]
fn a_toml_uninstall_drops_the_dependency_and_keeps_the_rest() {
    for text in SHAPES {
        let mut document = doc(ConfigFormat::Toml, text);
        document.remove_dependency("a");
        let after = held(&written(&document));
        let mut expected = held(text);
        let dependencies = expected["vendorDependencies"].as_object_mut().unwrap();
        dependencies.remove("a");
        let left = dependencies.clone();
        // A table without a header of its own goes with its last entry.
        if left.is_empty() && after.get("vendorDependencies").is_none() {
            expected.as_object_mut().unwrap().remove("vendorDependencies");
        }
        assert_eq!(after, expected, "{text}");
        // What is not there is not missed.
        let again = written(&document);
        document.remove_dependency("a");
        assert_eq!(written(&document), again);
    }
}

#[test]
fn toml_edits_keep_the_comments_and_the_layout_of_the_rest() {
    let rest = "# the project\nname   =  \"p\" # its name\n\n# the list\nlist = [ 1, # one\n  2 ]\n\n\
        [vendorDependencies.b] # the other\n\n  # pinned\n  version = 'v0'   # old\n";
    let own = "\n# about a\n[vendorDependencies.a] # here\n# above\nversion   =   'v1' # why\n";
    let text = format!("{rest}{own}");

    let mut bumped = doc(ConfigFormat::Toml, &text);
    bumped.set_dependency_version("a", "v2");
    assert_eq!(written(&bumped), text.replace("'v1'", "\"v2\""));

    let mut removed = doc(ConfigFormat::Toml, &text);
    removed.remove_dependency("a");
    assert_eq!(written(&removed), rest);

    let mut added = doc(ConfigFormat::Toml, &text);
    let entry = RawDependency::from_json(&value(r#"{"version": "v9"}"#));
    added.upsert_dependency("c", &entry).unwrap();
    assert_eq!(
        written(&added),
        format!("{text}\n[vendorDependencies.c]\nversion = \"v9\"\n")
    );
}

#[test]
fn an_inline_table_loses_its_entry() {
    let mut document = doc(
        ConfigFormat::Toml,
        "vendorDependencies = { a = { version = \"v1\" } }\n",
    );
    document.remove_dependency("a");
    assert!(!written(&document).contains("v1"));
}

#[test]
fn a_version_is_put_where_there_was_none() {
    for text in SHAPES.iter().copied().chain(["", "[q]\nr = 1\n"]) {
        for name in ["a", "new"] {
            let mut document = doc(ConfigFormat::Toml, text);
            document.set_dependency_version(name, "v3");
            let after = held(&written(&document));
            assert_eq!(after["vendorDependencies"][name]["version"], "v3", "{text}");
            let mut expected = held(text);
            expected["vendorDependencies"][name]["version"] = "v3".into();
            assert_eq!(after, expected, "{text}");
        }
    }
    // What is no table is left alone.
    let mut document = doc(ConfigFormat::Toml, "vendorDependencies = 2020-01-01\n");
    document.set_dependency_version("a", "v3");
    assert_eq!(written(&document), "vendorDependencies = 2020-01-01\n");
}

#[test]
fn a_toml_bump_changes_nothing_but_the_version() {
    for text in SHAPES {
        let mut document = doc(ConfigFormat::Toml, text);
        document.set_dependency_version("a", "v\"2\n\u{1}");
        let after = written(&document);
        let expected = {
            let mut tree = ConfigDocument::Tree(parse_toml(text).unwrap());
            tree.set_dependency_version("a", "v\"2\n\u{1}");
            match tree {
                ConfigDocument::Tree(value) => to_compact_text(&value).unwrap(),
                ConfigDocument::Toml(_) => panic!("still a tree"),
            }
        };
        assert_eq!(held(&after), held_json(&expected), "{text}");
    }
}

#[test]
fn what_is_wrong_with_a_config_is_said() {
    let said = |format: ConfigFormat, text: &str| match format.parse(text, "p") {
        Ok(_) => panic!("parsed"),
        Err(error) => error.to_text(),
    };
    assert!(said(ConfigFormat::Json, "{").contains("EOF while parsing"));
    assert!(said(ConfigFormat::Toml, "= 1").contains("TOML parse error"));
    assert!(said(ConfigFormat::Yml, "a: [").contains("line 1"));
}

#[test]
fn what_reads_as_a_number_is_quoted() {
    for text in [
        ".Inf", ".INF", "-.Inf", "+.inf", ".inf", ".nan", "0b101", "-0x1F", "+0o17", "0xffffffffffffffffff",
    ] {
        assert_eq!(plain_or_quoted(text), format!("\"{text}\""));
    }
    for text in ["+.nan", "0b12", "0x", "inf.", "v1.2.3", "1.2.3"] {
        assert_eq!(plain_or_quoted(text), text);
    }
}

#[test]
fn what_is_emitted_as_yaml_reads_back() {
    for text in [
        "a\u{2028}b", "\u{feff}x", "---", "--- a", "...", "....", " lead", "a: b", "#x", "1e3", "0b1",
        "\u{ffff}", "~", "-", "-x", "tab\there", "\u{85}", "\u{1f600}", "+.INF",
    ] {
        let mut map = OrderedMap::new();
        map.insert(text.to_owned(), Json::Text(text.to_owned()));
        map.insert(
            "list".to_owned(),
            Json::List(vec![Json::Text(text.to_owned())]),
        );
        let written = to_string(&Json::Table(map), 2);
        let read = parse_yaml(&written).unwrap();
        assert_eq!(read.get(text).and_then(|held| held.as_text()), Some(text), "{written}");
        let root = to_string(&Json::Text(text.to_owned()), 2);
        assert_eq!(parse_yaml(&root).unwrap().as_text(), Some(text), "{root}");
    }
}
