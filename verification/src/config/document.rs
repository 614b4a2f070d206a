//! The editable config document.
//!
//! Writing back must keep keys the tool does not know, since `package.json` is a config file too,
//! so the whole document is kept, and TOML with its comments and its layout.

use vstd::prelude::*;
use crate::codec::{
    blank, done, json_document, json_reading, json_writing, parse_json, parse_toml, parse_yaml,
    to_json_text, to_value, toml_reading, wordy, yaml_reading,
};
use crate::config::format::{ConfigFormat, Indent};
use crate::config::toml::{
    at_root, entries_of, entry_dropped, entry_put, hollow, in_table, reads_as, reads_like, settled,
    takes_entry, toml_refusal, value_put, with_entry, with_value, without_entry, worded,
    TomlDocument, TomlView, Unput,
};
use crate::config::yaml_emit;
use crate::error::VendorError;
use crate::model::{
    entry_json, files_json, raw_json, EntryView, RawDependency, RawView, TargetView,
};
use crate::template::{trim_end_matches_str, trim_end_spec};
use crate::text;
use crate::value::{
    key_index, lemma_json_view, lemma_key_index, lemma_table_index, lemma_table_insert, lemma_table_remove,
    map_get, map_insert, map_remove, table_view, Json, JsonView, OrderedMap,
};

verus! {

/// The key that the dependencies stand under.
pub const DEPENDENCIES_KEY: &'static str = "vendorDependencies";

/// What reading a text in a format gives: the document that it is, or what is wrong with it.
pub open spec fn reading_of(format: ConfigFormat, text: Seq<char>) -> Result<JsonView, Seq<char>> {
    match format {
        ConfigFormat::Toml => toml_reading(text),
        ConfigFormat::Yml => yaml_reading(text),
        ConfigFormat::Json => json_reading(text),
    }
}

/// The document that a text is in a format, `None` where it is none.
pub open spec fn document_of(format: ConfigFormat, text: Seq<char>) -> Option<JsonView> {
    done(reading_of(format, text))
}

/// A config that could not be parsed, and what was said of it.
pub open spec fn unparsed(error: VendorError, path: Seq<char>, said: Seq<char>) -> bool {
    error matches VendorError::ParseConfig { path: p, message } && p@ == path && message@ == said
}

impl ConfigFormat {
    /// Parses `text` into a document.
    pub fn parse(self, text: &str, path: &str) -> (r: Result<Json, VendorError>)
        ensures
            match reading_of(self, text@) {
                Ok(document) => r matches Ok(value) && value@ == document,
                Err(said) => r matches Err(e) && unparsed(e, path@, said),
            },
    {
        let parsed = match self {
            ConfigFormat::Toml => parse_toml(text),
            ConfigFormat::Yml => parse_yaml(text),
            ConfigFormat::Json => parse_json(text),
        };
        match parsed {
            Ok(value) => Ok(value),
            Err(message) => Err(VendorError::ParseConfig { path: path.to_owned(), message }),
        }
    }
}

/// What could not be written, and what was said of it.
pub open spec fn unwritten(error: VendorError, path: Seq<char>, said: Seq<char>) -> bool {
    error matches VendorError::SerializeConfig { path: p, message } && p@ == path && message@
        == said
}

/// A parsed config file, editable in place.
#[derive(Debug)]
pub enum ConfigDocument {
    /// JSON and YAML, by what they hold.
    Tree(Json),
    /// TOML, with its layout.
    Toml(TomlDocument),
}

/// A config document, as a mathematical value.
pub ghost enum DocumentView {
    Tree(JsonView),
    Toml(TomlView),
}

impl View for ConfigDocument {
    type V = DocumentView;

    open spec fn view(&self) -> DocumentView {
        match self {
            ConfigDocument::Tree(value) => DocumentView::Tree(value@),
            ConfigDocument::Toml(document) => DocumentView::Toml(document@),
        }
    }
}

impl DocumentView {
    /// What the document holds.
    pub open spec fn tree(self) -> JsonView {
        match self {
            DocumentView::Tree(value) => value,
            DocumentView::Toml(view) => view.tree,
        }
    }
}

/// A document with one dependency set; what stands in the way and is no table becomes one.
pub open spec fn with_dependency(
    value: JsonView,
    name: Seq<char>,
    dependency: JsonView,
) -> JsonView {
    with_entry(value, DEPENDENCIES_KEY@, name, dependency)
}

/// The keys of one dependency, none where it is not there.
pub open spec fn dependency_keys(value: JsonView, name: Seq<char>) -> Seq<(Seq<char>, JsonView)> {
    entries_of(in_table(value, DEPENDENCIES_KEY@, name))
}

/// A document with the version of one dependency set.
pub open spec fn with_version(value: JsonView, name: Seq<char>, version: Seq<char>) -> JsonView {
    with_value(value, DEPENDENCIES_KEY@, name, "version"@, version)
}

/// A document without one dependency.
pub open spec fn without_dependency(value: JsonView, name: Seq<char>) -> JsonView {
    match value {
        JsonView::Table(root) => match map_get(root, DEPENDENCIES_KEY@) {
            Some(JsonView::Table(_)) => without_entry(value, DEPENDENCIES_KEY@, name),
            _ => value,
        },
        _ => value,
    }
}

/// The entries of a table; none where a value is no table.
fn take_entries(value: Json) -> (r: OrderedMap<Json>)
    ensures
        table_view(r@) == entries_of(Some(value@)),
{
    proof {
        lemma_json_view(value);
    }
    match value {
        Json::Table(map) => map,
        _ => {
            let none: OrderedMap<Json> = OrderedMap::new();
            assert(table_view(none@) =~= Seq::empty());
            none
        },
    }
}

/// A copy of the entries of a table called `key`; none where there is no such table.
fn entries_at(map: &OrderedMap<Json>, key: &str) -> (r: OrderedMap<Json>)
    ensures
        table_view(r@) == entries_of(map_get(table_view(map@), key@)),
{
    proof {
        lemma_table_index(map@, key@, 0);
        lemma_key_index(map@, key@, 0);
    }
    match map.get(key) {
        Some(value) => take_entries(value.copy()),
        None => {
            let none: OrderedMap<Json> = OrderedMap::new();
            assert(table_view(none@) =~= Seq::empty());
            none
        },
    }
}

/// A document with one dependency set.
fn set_dependency(value: Json, name: &str, dependency: Json) -> (r: Json)
    ensures
        r@ == with_dependency(value@, name@, dependency@),
{
    let mut root = take_entries(value);
    let mut dependencies = entries_at(&root, DEPENDENCIES_KEY);
    proof {
        lemma_table_insert(dependencies@, name@, dependency);
    }
    dependencies.insert(name.to_owned(), dependency);
    let held = Json::Table(dependencies);
    proof {
        lemma_json_view(held);
        lemma_table_insert(root@, DEPENDENCIES_KEY@, held);
    }
    root.insert(DEPENDENCIES_KEY.to_owned(), held);
    let r = Json::Table(root);
    proof {
        lemma_json_view(r);
    }
    r
}

/// A document's root is a table whose `vendorDependencies`, if it has any, is one too.
pub open spec fn takes_dependencies(value: JsonView) -> bool {
    value is Table && (map_get(value->Table_0, DEPENDENCIES_KEY@) matches Some(held) ==> held is Table)
}

/// What is said of a document that does not take a dependency; nothing where it does.
pub open spec fn upsert_refusal(document: DocumentView) -> Option<Seq<char>> {
    match document {
        DocumentView::Tree(value) => if takes_dependencies(value) {
            None
        } else {
            Some("config root is not a table"@)
        },
        DocumentView::Toml(view) => if takes_entry(view, DEPENDENCIES_KEY@) {
            None
        } else {
            Some("vendorDependencies is not a table"@)
        },
    }
}

/// A document has taken a dependency. Around what is written of the others in TOML, spacing and
/// comments stay.
pub open spec fn upserted(
    before: DocumentView,
    after: DocumentView,
    name: Seq<char>,
    raw: RawView,
) -> bool {
    let entry = JsonView::Table(raw_json(raw));
    match (before, after) {
        (DocumentView::Tree(value), DocumentView::Tree(changed)) => changed == with_dependency(
            value,
            name,
            entry,
        ),
        (DocumentView::Toml(view), DocumentView::Toml(changed)) => entry_put(
            view,
            changed,
            DEPENDENCIES_KEY@,
            name,
            entry,
        ),
        _ => false,
    }
}

/// A document has the version of one dependency set. In TOML, what stands around an older version
/// stands around the new one, no other spacing and no other comment is lost, and a document whose
/// dependency is no table stays as it is.
pub open spec fn bumped(
    before: DocumentView,
    after: DocumentView,
    name: Seq<char>,
    version: Seq<char>,
) -> bool {
    match (before, after) {
        (DocumentView::Tree(value), DocumentView::Tree(changed)) => changed == with_version(
            value,
            name,
            version,
        ),
        (DocumentView::Toml(view), DocumentView::Toml(changed)) => value_put(
            view,
            changed,
            DEPENDENCIES_KEY@,
            name,
            "version"@,
            version,
        ),
        _ => false,
    }
}

/// A document has lost a dependency, where it had it.
pub open spec fn removed(before: DocumentView, after: DocumentView, name: Seq<char>) -> bool {
    match (before, after) {
        (DocumentView::Tree(value), DocumentView::Tree(changed)) => changed == without_dependency(
            value,
            name,
        ),
        (DocumentView::Toml(view), DocumentView::Toml(changed)) => entry_dropped(
            view,
            changed,
            DEPENDENCIES_KEY@,
            name,
        ),
        _ => false,
    }
}

/// A value without nulls and numbers has no numbers.
proof fn lemma_worded_is_wordy(value: JsonView, depth: nat, most: nat)
    requires
        worded(value, depth),
        depth <= most,
    ensures
        wordy(value, most),
    decreases depth,
{
    match value {
        JsonView::List(items) => {
            assert forall|i: int| 0 <= i < items.len() implies wordy(
                #[trigger] items[i],
                (most - 1) as nat,
            ) by {
                lemma_worded_is_wordy(items[i], (depth - 1) as nat, (most - 1) as nat);
            }
        },
        JsonView::Table(map) => {
            assert forall|i: int| 0 <= i < map.len() implies wordy(
                (#[trigger] map[i]).1,
                (most - 1) as nat,
            ) by {
                lemma_worded_is_wordy(map[i].1, (depth - 1) as nat, (most - 1) as nat);
            }
        },
        _ => {},
    }
}

/// A dependency is written without numbers, and is not nested deeply.
pub proof fn lemma_raw_is_wordy(raw: RawView)
    ensures
        wordy(JsonView::Table(raw_json(raw)), 99),
{
    lemma_raw_is_worded(raw);
    lemma_worded_is_wordy(JsonView::Table(raw_json(raw)), 20, 99);
}

/// What a dependency is written as holds no nulls and no numbers, and is not nested deeply.
proof fn lemma_raw_is_worded(raw: RawView)
    ensures
        worded(JsonView::Table(raw_json(raw)), 20),
{
    if raw.files is Some {
        let files = raw.files->0;
        let items = files_json(files)->List_0;
        assert forall|i: int| 0 <= i < items.len() implies worded(#[trigger] items[i], 18) by {
            match files[i] {
                EntryView::Simple(_) => {},
                EntryView::Mapped(map) => {
                    let pairs = entry_json(files[i])->Table_0;
                    assert forall|j: int| 0 <= j < pairs.len() implies worded(
                        (#[trigger] pairs[j]).1,
                        17,
                    ) by {
                        reveal_with_fuel(worded, 2);
                        match map[j].1 {
                            TargetView::Rename(_) => {},
                            TargetView::ExtractList(_) => {},
                            TargetView::ExtractMap(_) => {},
                        }
                    }
                },
            }
        }
        assert(worded(files_json(files), 19));
    }
    let map = raw_json(raw);
    assert forall|i: int| 0 <= i < map.len() implies worded((#[trigger] map[i]).1, 19) by {}
}

impl ConfigDocument {
    /// Parses `text` in the given format.
    pub fn parse(format: ConfigFormat, text: &str, path: &str) -> (r: Result<Self, VendorError>)
        ensures
            if format is Toml {
                match toml_refusal(text@) {
                    None => r matches Ok(document) && document is Toml && (toml_reading(text@) is Ok
                        ==> document@.tree() == toml_reading(text@)->Ok_0),
                    Some(said) => r matches Err(e) && unparsed(e, path@, said),
                }
            } else {
                match reading_of(format, text@) {
                    Ok(value) => r matches Ok(document) && document@ == DocumentView::Tree(value),
                    Err(said) => r matches Err(e) && unparsed(e, path@, said),
                }
            },
    {
        match format {
            ConfigFormat::Toml => match TomlDocument::parse(text) {
                Ok(document) => Ok(ConfigDocument::Toml(document)),
                Err(message) => Err(VendorError::ParseConfig { path: path.to_owned(), message }),
            },
            ConfigFormat::Yml | ConfigFormat::Json => match format.parse(text, path) {
                Ok(value) => Ok(ConfigDocument::Tree(value)),
                Err(e) => Err(e),
            },
        }
    }

    /// Sets `vendorDependencies.<name>.version`, creating the table if it is missing.
    pub fn set_dependency_version(&mut self, name: &str, version: &str)
        ensures
            bumped(old(self)@, final(self)@, name@, version@),
    {
        match self {
            ConfigDocument::Tree(value) => {
                let copy = value.copy();
                let root = take_entries(value.copy());
                let dependencies = entries_at(&root, DEPENDENCIES_KEY);
                let mut keys = entries_at(&dependencies, name);
                let new = Json::Text(version.to_owned());
                proof {
                    lemma_json_view(new);
                    lemma_table_insert(keys@, "version"@, new);
                }
                keys.insert("version".to_owned(), new);
                let dependency = Json::Table(keys);
                proof {
                    lemma_json_view(dependency);
                }
                *value = set_dependency(copy, name, dependency);
            },
            ConfigDocument::Toml(document) => {
                document.put_value(DEPENDENCIES_KEY, name, "version", version);
            },
        }
    }

    /// Inserts or replaces a whole dependency entry.
    pub fn upsert_dependency(&mut self, name: &str, dependency: &RawDependency) -> (r: Result<
        (),
        VendorError,
    >)
        ensures
            match upsert_refusal(old(self)@) {
                None => r is Ok && upserted(old(self)@, final(self)@, name@, dependency@),
                Some(said) => (r matches Err(e) && unwritten(e, name@, said)) && final(self)@
                    == old(self)@,
            },
    {
        let entry = dependency.to_json();
        match self {
            ConfigDocument::Tree(value) => {
                let open = match value.as_table() {
                    Some(root) => {
                        proof {
                            lemma_table_index(root@, DEPENDENCIES_KEY@, 0);
                            lemma_key_index(root@, DEPENDENCIES_KEY@, 0);
                        }
                        match root.get(DEPENDENCIES_KEY) {
                            Some(held) => held.as_table().is_some(),
                            None => true,
                        }
                    },
                    None => false,
                };
                if !open {
                    return Err(
                        VendorError::SerializeConfig {
                            path: name.to_owned(),
                            message: "config root is not a table".to_owned(),
                        },
                    );
                }
                let copy = value.copy();
                *value = set_dependency(copy, name, entry);
                Ok(())
            },
            ConfigDocument::Toml(document) => {
                proof {
                    lemma_raw_is_worded(dependency@);
                }
                match document.put_entry(DEPENDENCIES_KEY, name, &to_value(&entry)) {
                    Ok(()) => Ok(()),
                    Err(Unput::NoTable) => Err(
                        VendorError::SerializeConfig {
                            path: name.to_owned(),
                            message: "vendorDependencies is not a table".to_owned(),
                        },
                    ),
                    Err(Unput::Unencoded(message)) => Err(
                        VendorError::SerializeConfig { path: name.to_owned(), message },
                    ),
                }
            },
        }
    }

    /// Removes a dependency entry; a no-op if it is not there.
    pub fn remove_dependency(&mut self, name: &str)
        ensures
            removed(old(self)@, final(self)@, name@),
    {
        match self {
            ConfigDocument::Tree(value) => {
                let held = match value.get(DEPENDENCIES_KEY) {
                    Some(held) => held.copy(),
                    None => {
                        return;
                    },
                };
                proof {
                    lemma_json_view(held);
                }
                if let Json::Table(dependencies) = held {
                    let mut dependencies = dependencies;
                    let mut root = take_entries(value.copy());
                    proof {
                        lemma_table_remove(dependencies@, name@);
                    }
                    let _ = dependencies.remove(name);
                    let rest = Json::Table(dependencies);
                    proof {
                        lemma_json_view(rest);
                        lemma_table_insert(root@, DEPENDENCIES_KEY@, rest);
                    }
                    root.insert(DEPENDENCIES_KEY.to_owned(), rest);
                    *value = Json::Table(root);
                    proof {
                        lemma_json_view(*value);
                    }
                }
            },
            ConfigDocument::Toml(document) => {
                document.drop_entry(DEPENDENCIES_KEY, name);
            },
        }
    }

    /// Renders the document back to text, before the file's own trailing newline is restored.
    ///
    /// Removing a table leaves its leading blank line behind, so the run of newlines at the end of
    /// TOML is collapsed to one.
    pub fn render(&self, format: ConfigFormat, indent: &Indent) -> (r: Result<String, VendorError>)
        ensures
            match (self, format) {
                (ConfigDocument::Toml(document), _) => r matches Ok(out) && out@ == trim_end_spec(
                    document.printed(),
                    "\n"@,
                ) + "\n"@ && (settled(self@.tree(), 40) ==> reads_as(out@, self@.tree()) && reads_as(
                    out@ + "\n"@,
                    self@.tree(),
                ) && reads_as(out@ + "\r\n"@, self@.tree())),
                (ConfigDocument::Tree(_), ConfigFormat::Json) => (match json_writing(
                    self@.tree(),
                    indent@,
                ) {
                    Ok(shown) => r matches Ok(out) && out@ == shown,
                    Err(said) => r matches Err(e) && unwritten(e, "config"@, said),
                }) && (wordy(self@.tree(), 100) && blank(indent@) ==> (r matches Ok(out) && json_document(
                    out@,
                ) == Some(self@.tree()) && json_document(out@ + "\n"@) == Some(self@.tree()))),
                (ConfigDocument::Tree(_), _) => r matches Ok(out) && out@
                    == yaml_emit::document_text(
                    self@.tree(),
                    if indent@.len() > 1 {
                        indent@.len() as int
                    } else {
                        1
                    },
                ),
            },
    {
        match self {
            ConfigDocument::Toml(document) => {
                let printed = document.print();
                let out = trim_end_matches_str(printed.as_str(), "\n").to_owned().concat("\n");
                Ok(out)
            },
            ConfigDocument::Tree(value) => match format {
                ConfigFormat::Json => to_json_string(value, indent),
                ConfigFormat::Yml | ConfigFormat::Toml => Ok(to_yaml_string(value, indent)),
            },
        }
    }
}

/// Writes a document as JSON, indented as its file was.
pub fn to_json_string(value: &Json, indent: &Indent) -> (r: Result<String, VendorError>)
    ensures
        match json_writing(value@, indent@) {
            Ok(shown) => r matches Ok(out) && out@ == shown,
            Err(said) => r matches Err(e) && unwritten(e, "config"@, said),
        },
        wordy(value@, 100) && blank(indent@) ==> (r matches Ok(out) && json_document(out@) == Some(
            value@,
        ) && json_document(out@ + "\n"@) == Some(value@)),
{
    match to_json_text(value, indent.as_str()) {
        Ok(out) => Ok(out),
        Err(message) => Err(VendorError::SerializeConfig { path: "config".to_owned(), message }),
    }
}

/// Writes a document as YAML, indented as its file was.
pub fn to_yaml_string(value: &Json, indent: &Indent) -> (r: String)
    ensures
        r@ == yaml_emit::document_text(
            value@,
            if indent@.len() > 1 {
                indent@.len() as int
            } else {
                1
            },
        ),
{
    yaml_emit::to_string(value, indent.width())
}

/// What a bump of one dependency's version leaves: every other key of the document, every other
/// dependency, and every other key of that dependency.
pub proof fn a_version_bump_sets_only_the_version(
    value: JsonView,
    name: Seq<char>,
    version: Seq<char>,
    root_key: Seq<char>,
    other: Seq<char>,
    key: Seq<char>,
)
    requires
        root_key != DEPENDENCIES_KEY@,
        other != name,
        key != "version"@,
    ensures
        ({
            let after = with_version(value, name, version);
            let root = entries_of(Some(value));
            let dependencies = entries_of(map_get(root, DEPENDENCIES_KEY@));
            let bumped = entries_of(map_get(entries_of(Some(after)), DEPENDENCIES_KEY@));
            &&& map_get(entries_of(Some(after)), root_key) == map_get(root, root_key)
            &&& map_get(bumped, other) == map_get(dependencies, other)
            &&& map_get(dependency_keys(after, name), key) == map_get(
                dependency_keys(value, name),
                key,
            )
            &&& map_get(dependency_keys(after, name), "version"@) == Some(JsonView::Text(version))
        }),
{
    let root = entries_of(Some(value));
    let dependencies = entries_of(map_get(root, DEPENDENCIES_KEY@));
    let keys = dependency_keys(value, name);
    let new = JsonView::Text(version);
    let bumped_keys = JsonView::Table(map_insert(keys, "version"@, new));
    let bumped = JsonView::Table(map_insert(dependencies, name, bumped_keys));
    crate::value::insert_keeps_the_others(root, DEPENDENCIES_KEY@, bumped, root_key);
    crate::value::get_after_insert(root, DEPENDENCIES_KEY@, bumped);
    crate::value::insert_keeps_the_others(dependencies, name, bumped_keys, other);
    crate::value::get_after_insert(dependencies, name, bumped_keys);
    crate::value::insert_keeps_the_others(keys, "version"@, new, key);
    crate::value::get_after_insert(keys, "version"@, new);
}

/// A dependency that was put into a document is found there as it was, and every other one as it
/// was before.
pub proof fn an_upsert_sets_only_the_dependency(
    value: JsonView,
    name: Seq<char>,
    dependency: JsonView,
    other: Seq<char>,
)
    requires
        other != name,
    ensures
        ({
            let before = entries_of(map_get(entries_of(Some(value)), DEPENDENCIES_KEY@));
            let after = entries_of(
                map_get(
                    entries_of(Some(with_dependency(value, name, dependency))),
                    DEPENDENCIES_KEY@,
                ),
            );
            map_get(after, name) == Some(dependency) && map_get(after, other) == map_get(
                before,
                other,
            )
        }),
{
    let root = entries_of(Some(value));
    let before = entries_of(map_get(root, DEPENDENCIES_KEY@));
    let after = JsonView::Table(map_insert(before, name, dependency));
    crate::value::get_after_insert(root, DEPENDENCIES_KEY@, after);
    crate::value::get_after_insert(before, name, dependency);
    crate::value::insert_keeps_the_others(before, name, dependency, other);
}

/// A removal drops only the named dependency: every other one, and every other key of the document,
/// stays.
pub proof fn a_removal_drops_only_the_named_dependency(
    root: Seq<(Seq<char>, JsonView)>,
    dependencies: Seq<(Seq<char>, JsonView)>,
    name: Seq<char>,
    other: Seq<char>,
    root_key: Seq<char>,
)
    requires
        map_get(root, DEPENDENCIES_KEY@) == Some(JsonView::Table(dependencies)),
        crate::value::keys_distinct(dependencies),
        root_key != DEPENDENCIES_KEY@,
    ensures
        ({
            let after = entries_of(Some(without_dependency(JsonView::Table(root), name)));
            let left = entries_of(map_get(after, DEPENDENCIES_KEY@));
            &&& map_get(after, root_key) == map_get(root, root_key)
            &&& map_get(left, other) == if other == name {
                None
            } else {
                map_get(dependencies, other)
            }
        }),
{
    let rest = JsonView::Table(map_remove(dependencies, name));
    crate::value::insert_keeps_the_others(root, DEPENDENCIES_KEY@, rest, root_key);
    crate::value::get_after_insert(root, DEPENDENCIES_KEY@, rest);
    crate::value::remove_drops_only_the_name(dependencies, name, other);
}

/// What is found by a name in a document that was read holds what is by that name in another; only
/// tables with nothing in them may be missing.
pub open spec fn found_as(read: Option<JsonView>, held: Option<JsonView>) -> bool {
    match (read, held) {
        (Some(read), Some(held)) => reads_like(read, held),
        (None, Some(held)) => hollow(held),
        (None, None) => true,
        (Some(_), None) => false,
    }
}

/// Tables that hold the same hold the same by every name.
proof fn lemma_found(
    read: Seq<(Seq<char>, JsonView)>,
    held: Seq<(Seq<char>, JsonView)>,
    key: Seq<char>,
)
    requires
        reads_like(JsonView::Table(read), JsonView::Table(held)),
    ensures
        found_as(map_get(read, key), map_get(held, key)),
{
    lemma_key_index(held, key, 0);
    lemma_key_index(read, key, 0);
    match key_index(held, key, 0) {
        Some(i) => {
            assert(held[i].0 == key);
        },
        None => {
            if let Some(j) = key_index(read, key, 0) {
                assert(map_get(held, read[j].0) is Some);
            }
        },
    }
}

/// The same goes for the tables in them.
proof fn lemma_found_below(read: Option<JsonView>, held: Option<JsonView>, key: Seq<char>)
    requires
        found_as(read, held),
        held matches Some(value) ==> value is Table,
    ensures
        found_as(map_get(entries_of(read), key), map_get(entries_of(held), key)),
{
    lemma_key_index(entries_of(held), key, 0);
    match (read, held) {
        (Some(JsonView::Table(read)), Some(JsonView::Table(held))) => {
            lemma_found(read, held, key);
        },
        (None, Some(JsonView::Table(held))) => {
            if let Some(i) = key_index(held, key, 0) {
                assert(hollow(held[i].1));
            }
        },
        _ => {},
    }
}

/// What an install writes is read back with the dependency it added, and with everything else as it
/// was.
pub proof fn what_an_install_writes_is_read_back(
    read: JsonView,
    before: JsonView,
    name: Seq<char>,
    dependency: JsonView,
    other: Seq<char>,
    root_key: Seq<char>,
)
    requires
        reads_like(read, with_dependency(before, name, dependency)),
        other != name,
        root_key != DEPENDENCIES_KEY@,
    ensures
        found_as(in_table(read, DEPENDENCIES_KEY@, name), Some(dependency)),
        found_as(
            in_table(read, DEPENDENCIES_KEY@, other),
            in_table(before, DEPENDENCIES_KEY@, other),
        ),
        found_as(at_root(read, root_key), at_root(before, root_key)),
{
    let root = entries_of(Some(before));
    let held = entries_of(at_root(before, DEPENDENCIES_KEY@));
    let after = JsonView::Table(map_insert(held, name, dependency));
    crate::value::get_after_insert(root, DEPENDENCIES_KEY@, after);
    crate::value::insert_keeps_the_others(root, DEPENDENCIES_KEY@, after, root_key);
    crate::value::get_after_insert(held, name, dependency);
    crate::value::insert_keeps_the_others(held, name, dependency, other);
    let changed = with_dependency(before, name, dependency);
    lemma_found(read->Table_0, changed->Table_0, DEPENDENCIES_KEY@);
    lemma_found(read->Table_0, changed->Table_0, root_key);
    lemma_found_below(at_root(read, DEPENDENCIES_KEY@), Some(after), name);
    lemma_found_below(at_root(read, DEPENDENCIES_KEY@), Some(after), other);
}

/// What a bump writes is read back with the new version, and with everything else as it was.
pub proof fn what_a_bump_writes_is_read_back(
    read: JsonView,
    before: JsonView,
    name: Seq<char>,
    version: Seq<char>,
    key: Seq<char>,
    other: Seq<char>,
    root_key: Seq<char>,
)
    requires
        reads_like(read, with_version(before, name, version)),
        key != "version"@,
        other != name,
        root_key != DEPENDENCIES_KEY@,
    ensures
        map_get(dependency_keys(read, name), "version"@) == Some(JsonView::Text(version)),
        found_as(map_get(dependency_keys(read, name), key), map_get(dependency_keys(before, name), key)),
        found_as(
            in_table(read, DEPENDENCIES_KEY@, other),
            in_table(before, DEPENDENCIES_KEY@, other),
        ),
        found_as(at_root(read, root_key), at_root(before, root_key)),
{
    let keys = dependency_keys(before, name);
    let dependency = JsonView::Table(map_insert(keys, "version"@, JsonView::Text(version)));
    what_an_install_writes_is_read_back(read, before, name, dependency, other, root_key);
    crate::value::get_after_insert(keys, "version"@, JsonView::Text(version));
    crate::value::insert_keeps_the_others(keys, "version"@, JsonView::Text(version), key);
    let found = in_table(read, DEPENDENCIES_KEY@, name);
    lemma_found_below(found, Some(dependency), "version"@);
    lemma_found_below(found, Some(dependency), key);
}

/// What an uninstall writes is read back without the dependency, and with everything else as it was.
pub proof fn what_an_uninstall_writes_is_read_back(
    read: JsonView,
    before: JsonView,
    name: Seq<char>,
    other: Seq<char>,
    root_key: Seq<char>,
)
    requires
        reads_like(read, without_entry(before, DEPENDENCIES_KEY@, name)),
        crate::value::keys_distinct(entries_of(at_root(before, DEPENDENCIES_KEY@))),
        other != name,
        root_key != DEPENDENCIES_KEY@,
    ensures
        in_table(read, DEPENDENCIES_KEY@, name) is None,
        found_as(
            in_table(read, DEPENDENCIES_KEY@, other),
            in_table(before, DEPENDENCIES_KEY@, other),
        ),
        found_as(at_root(read, root_key), at_root(before, root_key)),
{
    let root = entries_of(Some(before));
    let held = entries_of(at_root(before, DEPENDENCIES_KEY@));
    let rest = JsonView::Table(map_remove(held, name));
    crate::value::get_after_insert(root, DEPENDENCIES_KEY@, rest);
    crate::value::insert_keeps_the_others(root, DEPENDENCIES_KEY@, rest, root_key);
    crate::value::remove_drops_only_the_name(held, name, name);
    crate::value::remove_drops_only_the_name(held, name, other);
    let changed = without_entry(before, DEPENDENCIES_KEY@, name);
    lemma_found(read->Table_0, changed->Table_0, DEPENDENCIES_KEY@);
    lemma_found(read->Table_0, changed->Table_0, root_key);
    lemma_found_below(at_root(read, DEPENDENCIES_KEY@), Some(rest), name);
    lemma_found_below(at_root(read, DEPENDENCIES_KEY@), Some(rest), other);
}

/// A document that has taken a dependency holds it under its name, and everything else as it was.
pub proof fn a_taken_dependency_is_held(
    before: DocumentView,
    after: DocumentView,
    name: Seq<char>,
    raw: RawView,
    other: Seq<char>,
    root_key: Seq<char>,
)
    requires
        upserted(before, after, name, raw),
        other != name,
        root_key != DEPENDENCIES_KEY@,
    ensures
        in_table(after.tree(), DEPENDENCIES_KEY@, name) == Some(JsonView::Table(raw_json(raw))),
        in_table(after.tree(), DEPENDENCIES_KEY@, other) == in_table(
            before.tree(),
            DEPENDENCIES_KEY@,
            other,
        ),
        at_root(after.tree(), root_key) == at_root(before.tree(), root_key),
{
    let dependency = JsonView::Table(raw_json(raw));
    let root = entries_of(Some(before.tree()));
    let held = entries_of(at_root(before.tree(), DEPENDENCIES_KEY@));
    let changed = JsonView::Table(map_insert(held, name, dependency));
    crate::value::get_after_insert(root, DEPENDENCIES_KEY@, changed);
    crate::value::insert_keeps_the_others(root, DEPENDENCIES_KEY@, changed, root_key);
    crate::value::get_after_insert(held, name, dependency);
    crate::value::insert_keeps_the_others(held, name, dependency, other);
}

/// A document whose dependency's version was set holds that version, and everything else as it was.
pub proof fn a_set_version_is_held(
    before: DocumentView,
    after: DocumentView,
    name: Seq<char>,
    version: Seq<char>,
    root_key: Seq<char>,
    other: Seq<char>,
    key: Seq<char>,
)
    requires
        bumped(before, after, name, version),
        before matches DocumentView::Toml(view) ==> super::toml::takes_value(
            view,
            DEPENDENCIES_KEY@,
            name,
        ),
        root_key != DEPENDENCIES_KEY@,
        other != name,
        key != "version"@,
    ensures
        map_get(dependency_keys(after.tree(), name), "version"@) == Some(JsonView::Text(version)),
        map_get(dependency_keys(after.tree(), name), key) == map_get(
            dependency_keys(before.tree(), name),
            key,
        ),
        in_table(after.tree(), DEPENDENCIES_KEY@, other) == in_table(
            before.tree(),
            DEPENDENCIES_KEY@,
            other,
        ),
        at_root(after.tree(), root_key) == at_root(before.tree(), root_key),
{
    a_version_bump_sets_only_the_version(before.tree(), name, version, root_key, other, key);
}

/// A document that has lost a dependency no longer holds it, and holds everything else as it was.
pub proof fn a_lost_dependency_is_gone(
    before: DocumentView,
    after: DocumentView,
    name: Seq<char>,
    dependencies: Seq<(Seq<char>, JsonView)>,
    other: Seq<char>,
    root_key: Seq<char>,
)
    requires
        removed(before, after, name),
        before.tree() is Table,
        at_root(before.tree(), DEPENDENCIES_KEY@) == Some(JsonView::Table(dependencies)),
        before matches DocumentView::Toml(view) ==> view.tables.contains(seq![DEPENDENCIES_KEY@]),
        crate::value::keys_distinct(dependencies),
        other != name,
        root_key != DEPENDENCIES_KEY@,
    ensures
        in_table(after.tree(), DEPENDENCIES_KEY@, name) is None,
        in_table(after.tree(), DEPENDENCIES_KEY@, other) == map_get(dependencies, other),
        at_root(after.tree(), root_key) == at_root(before.tree(), root_key),
{
    let root = before.tree()->Table_0;
    a_removal_drops_only_the_named_dependency(root, dependencies, name, other, root_key);
    a_removal_drops_only_the_named_dependency(root, dependencies, name, name, root_key);
}

/// A dependency can be put where the root is a table and the dependencies are one, or are not there
/// yet; anything else refuses it.
pub proof fn what_takes_a_dependency(value: JsonView, view: TomlView)
    ensures
        value is Table && at_root(value, DEPENDENCIES_KEY@) is None ==> upsert_refusal(
            DocumentView::Tree(value),
        ) is None,
        value is Table && (at_root(value, DEPENDENCIES_KEY@) matches Some(JsonView::Table(_)))
            ==> upsert_refusal(DocumentView::Tree(value)) is None,
        !(value is Table) ==> upsert_refusal(DocumentView::Tree(value)) is Some,
        at_root(value, DEPENDENCIES_KEY@) is Some && !(at_root(value, DEPENDENCIES_KEY@)->0 is Table)
            ==> upsert_refusal(DocumentView::Tree(value)) is Some,
        at_root(view.tree, DEPENDENCIES_KEY@) is None ==> upsert_refusal(DocumentView::Toml(view))
            is None,
        view.sections.contains(DEPENDENCIES_KEY@) ==> upsert_refusal(DocumentView::Toml(view))
            is None,
        at_root(view.tree, DEPENDENCIES_KEY@) is Some && !view.sections.contains(DEPENDENCIES_KEY@)
            ==> upsert_refusal(DocumentView::Toml(view)) is Some,
{
}

/// What is said of a config that does not read, or cannot be written, names the file and gives the
/// reason.
pub proof fn a_config_error_names_its_file(error: VendorError, path: Seq<char>, said: Seq<char>)
    ensures
        unparsed(error, path, said) ==> error is ParseConfig && error->ParseConfig_path@ == path
            && error->ParseConfig_message@ == said,
        unwritten(error, path, said) ==> error is SerializeConfig && error->SerializeConfig_path@
            == path && error->SerializeConfig_message@ == said,
{
}

} // verus!
