//! `vendor-lock.json`: the record of what was actually written into a dependency folder.
//!
//! Field order (`repository`, `version`, `files`) and key order inside `files` are part of the
//! on-disk format, so every map here keeps its order.

use vstd::prelude::*;
use crate::codec::{json_document, json_reading, json_text, parse_json, to_json_text, wordy};
use crate::config::document::unparsed;
use crate::error::VendorError;
use crate::model::{
    entry_views, flat_pairs, flatten_files, read_target, spec_views, target_in, target_json,
    write_target, FileEntry, FileTarget, TargetView,
};
use crate::template::{a_placeholder_is_filled, fills, replace_version, version_token_spec};
use crate::text;
use crate::value::{
    key_index, keys_distinct, lemma_insert_new, lemma_json_view, lemma_key_index,
    lemma_view_map_index, lemma_view_map_insert, map_get, map_insert, table_view, view_map, Json,
    JsonView, OrderedMap,
};

verus! {

/// The `files` map of a single locked dependency: config input to what landed on disk.
pub type LockFiles = OrderedMap<FileTarget>;

/// One dependency's entry in the lockfile.
#[derive(Debug)]
pub struct VendorLock {
    /// The repository it came from.
    pub repository: String,
    /// The version that was installed.
    pub version: String,
    /// What was installed.
    pub files: LockFiles,
}

/// The whole lockfile: dependency name to lock entry.
pub type Lockfile = OrderedMap<VendorLock>;

/// A lock entry, as text.
#[verifier::ext_equal]
pub ghost struct LockView {
    pub repository: Seq<char>,
    pub version: Seq<char>,
    pub files: Seq<(Seq<char>, TargetView)>,
}

impl View for VendorLock {
    type V = LockView;

    open spec fn view(&self) -> LockView {
        LockView {
            repository: self.repository@,
            version: self.version@,
            files: view_map(self.files@),
        }
    }
}

/// `s` with its first `{version}` replaced.
pub open spec fn versioned(s: Seq<char>, version: Seq<char>) -> Seq<char> {
    text::replace_first_spec(s, "{version}"@, version_token_spec(version))
}

/// A target with `{version}` replaced in every output. Inputs are left alone, which is why archive
/// names keep their placeholder in the lockfile.
pub open spec fn versioned_target(target: TargetView, version: Seq<char>) -> TargetView {
    match target {
        TargetView::Rename(s) => TargetView::Rename(versioned(s, version)),
        TargetView::ExtractList(list) => TargetView::ExtractList(
            Seq::new(list.len(), |i: int| versioned(list[i], version)),
        ),
        TargetView::ExtractMap(map) => TargetView::ExtractMap(
            Seq::new(map.len(), |i: int| (map[i].0, versioned(map[i].1, version))),
        ),
    }
}

/// What the first `n` pairs lock: later ones overwrite earlier ones but keep their position.
pub open spec fn locked_pairs(
    pairs: Seq<(Seq<char>, TargetView)>,
    version: Seq<char>,
    n: int,
) -> Seq<(Seq<char>, TargetView)>
    decreases n,
{
    if n <= 0 {
        Seq::empty()
    } else {
        map_insert(
            locked_pairs(pairs, version, n - 1),
            pairs[n - 1].0,
            versioned_target(pairs[n - 1].1, version),
        )
    }
}

/// The outputs of a target.
pub open spec fn outputs_of(target: TargetView) -> Seq<Seq<char>> {
    match target {
        TargetView::Rename(s) => seq![s],
        TargetView::ExtractList(list) => list,
        TargetView::ExtractMap(map) => Seq::new(map.len(), |i: int| map[i].1),
    }
}

/// The outputs of the first `n` entries.
pub open spec fn flat_outputs(files: Seq<(Seq<char>, TargetView)>, n: int) -> Seq<Seq<char>>
    decreases n,
{
    if n <= 0 {
        Seq::empty()
    } else {
        flat_outputs(files, n - 1) + outputs_of(files[n - 1].1)
    }
}

/// Substitutes `{version}` in every output of a target.
pub fn replace_version_in_target(target: &FileTarget, version: &str) -> (r: FileTarget)
    ensures
        r@ == versioned_target(target@, version@),
{
    match target {
        FileTarget::Rename(s) => FileTarget::Rename(replace_version(s.as_str(), version)),
        FileTarget::ExtractList(list) => {
            let mut out: Vec<String> = Vec::new();
            let mut i: usize = 0;
            while i < list.len()
                invariant
                    i <= list@.len(),
                    out@.len() == i,
                    forall|j: int| 0 <= j < i ==> (#[trigger] out@[j])@ == versioned(list@[j]@, version@),
                decreases list@.len() - i,
            {
                out.push(replace_version(list[i].as_str(), version));
                i += 1;
            }
            let r = FileTarget::ExtractList(out);
            assert(r@->ExtractList_0 =~= versioned_target(target@, version@)->ExtractList_0);
            r
        },
        FileTarget::ExtractMap(map) => {
            let n: usize = map.len();
            let mut out: OrderedMap<String> = OrderedMap::new();
            let mut i: usize = 0;
            while i < n
                invariant
                    i <= n == map@.len(),
                    keys_distinct(map@),
                    out@.len() == i,
                    forall|j: int|
                        0 <= j < i ==> (#[trigger] out@[j]).0 == map@[j].0 && out@[j].1@
                            == versioned(map@[j].1@, version@),
                decreases n - i,
            {
                let key = map.key_at(i);
                let value = replace_version(map.value_at(i).as_str(), version);
                let ghost before = out@;
                proof {
                    assert forall|j: int| 0 <= j < before.len() implies (#[trigger] before[j]).0
                        != key@ by {
                        assert(map@[j].0 != map@[i as int].0);
                    }
                    lemma_insert_new(before, key@, value);
                }
                out.insert(key.to_owned(), value);
                i += 1;
            }
            let r = FileTarget::ExtractMap(out);
            assert(r@->ExtractMap_0 =~= versioned_target(target@, version@)->ExtractMap_0);
            r
        },
    }
}

/// Projects a config `files` list into the lockfile's `files` map.
///
/// Later entries overwrite earlier ones by key while keeping the earlier key's position.
pub fn config_files_to_lock_files(windows: bool, files: &[FileEntry], version: &str) -> (r:
    LockFiles)
    ensures
        view_map(r@) == locked_pairs(
            flat_pairs(windows, entry_views(files@), files@.len() as int),
            version@,
            flat_pairs(windows, entry_views(files@), files@.len() as int).len() as int,
        ),
{
    let specs = flatten_files(windows, files);
    let ghost pairs = spec_views(specs@);
    let mut out: LockFiles = OrderedMap::new();
    assert(view_map(out@) =~= locked_pairs(pairs, version@, 0));
    let mut i: usize = 0;
    while i < specs.len()
        invariant
            i <= specs@.len(),
            pairs == spec_views(specs@),
            view_map(out@) == locked_pairs(pairs, version@, i as int),
        decreases specs@.len() - i,
    {
        let target = replace_version_in_target(&specs[i].output, version);
        proof {
            assert(pairs[i as int] == (specs@[i as int].input@, specs@[i as int].output@));
            lemma_view_map_insert(out@, specs@[i as int].input@, target);
        }
        out.insert(specs[i].input.clone(), target);
        i += 1;
    }
    out
}

/// Every path written into the dependency folder, relative to it.
pub fn flat_files(files: &LockFiles) -> (r: Vec<String>)
    ensures
        text::texts(r@) == flat_outputs(view_map(files@), files@.len() as int),
{
    let ghost views = view_map(files@);
    let mut out: Vec<String> = Vec::new();
    assert(text::texts(out@) =~= flat_outputs(views, 0));
    let mut i: usize = 0;
    while i < files.len()
        invariant
            i <= files@.len(),
            views == view_map(files@),
            text::texts(out@) == flat_outputs(views, i as int),
        decreases files@.len() - i,
    {
        let ghost before = text::texts(out@);
        let target = files.value_at(i);
        assert(views[i as int].1 == target@);
        match target {
            FileTarget::Rename(s) => {
                out.push(s.clone());
                assert(text::texts(out@) =~= before + seq![s@]);
            },
            FileTarget::ExtractList(list) => {
                let ghost items = text::texts(list@);
                let mut j: usize = 0;
                while j < list.len()
                    invariant
                        j <= list@.len(),
                        items == text::texts(list@),
                        text::texts(out@) == before + items.take(j as int),
                    decreases list@.len() - j,
                {
                    let ghost held = out@;
                    out.push(list[j].clone());
                    j += 1;
                    assert(text::texts(out@) =~= before + items.take(j as int)) by {
                        assert(text::texts(out@) =~= text::texts(held).push(items[j - 1]));
                    }
                }
                assert(items.take(j as int) =~= items);
            },
            FileTarget::ExtractMap(map) => {
                let ghost items = outputs_of(target@);
                let mut j: usize = 0;
                while j < map.len()
                    invariant
                        j <= map@.len() == items.len(),
                        forall|k: int| 0 <= k < items.len() ==> items[k] == (#[trigger] map@[k]).1@,
                        text::texts(out@) == before + items.take(j as int),
                    decreases map@.len() - j,
                {
                    let ghost held = out@;
                    out.push(map.value_at(j).clone());
                    j += 1;
                    assert(text::texts(out@) =~= before + items.take(j as int)) by {
                        assert(map@[j - 1].1@ == items[j - 1]);
                        assert(text::texts(out@) =~= text::texts(held).push(items[j - 1]));
                    }
                }
                assert(items.take(j as int) =~= items);
            },
        }
        i += 1;
    }
    out
}

/// Two targets are the same: maps whatever their order, lists in theirs.
pub open spec fn same_target(a: TargetView, b: TargetView) -> bool {
    match (a, b) {
        (TargetView::Rename(x), TargetView::Rename(y)) => x == y,
        (TargetView::ExtractList(x), TargetView::ExtractList(y)) => x == y,
        (TargetView::ExtractMap(x), TargetView::ExtractMap(y)) => x.len() == y.len() && forall|
            i: int,
        |
            0 <= i < x.len() ==> map_get(y, (#[trigger] x[i]).0) == Some(x[i].1),
        _ => false,
    }
}

/// Two `files` maps are the same, whatever their order.
pub open spec fn same_files_spec(
    a: Seq<(Seq<char>, TargetView)>,
    b: Seq<(Seq<char>, TargetView)>,
) -> bool {
    a.len() == b.len() && forall|i: int|
        0 <= i < a.len() ==> map_get(b, (#[trigger] a[i]).0) is Some && same_target(
            a[i].1,
            map_get(b, a[i].0)->0,
        )
}

/// Whether two lists of texts are the same.
pub(crate) fn same_texts(a: &Vec<String>, b: &Vec<String>) -> (r: bool)
    ensures
        r == (text::texts(a@) == text::texts(b@)),
{
    if a.len() != b.len() {
        assert(text::texts(a@).len() != text::texts(b@).len());
        return false;
    }
    let mut i: usize = 0;
    while i < a.len()
        invariant
            i <= a@.len() == b@.len(),
            forall|j: int| 0 <= j < i ==> a@[j]@ == b@[j]@,
        decreases a@.len() - i,
    {
        if !text::equal(a[i].as_str(), b[i].as_str()) {
            assert(text::texts(a@)[i as int] != text::texts(b@)[i as int]);
            return false;
        }
        i += 1;
    }
    assert(text::texts(a@) =~= text::texts(b@));
    true
}

/// Whether two maps of texts are the same, whatever their order.
fn same_names(a: &OrderedMap<String>, b: &OrderedMap<String>) -> (r: bool)
    ensures
        r == same_target(
            TargetView::ExtractMap(view_map(a@)),
            TargetView::ExtractMap(view_map(b@)),
        ),
{
    let ghost x = view_map(a@);
    let ghost y = view_map(b@);
    if a.len() != b.len() {
        return false;
    }
    let mut i: usize = 0;
    while i < a.len()
        invariant
            i <= a@.len(),
            x == view_map(a@),
            y == view_map(b@),
            x.len() == y.len(),
            forall|j: int| 0 <= j < i ==> map_get(y, (#[trigger] x[j]).0) == Some(x[j].1),
        decreases a@.len() - i,
    {
        let key = a.key_at(i);
        proof {
            assert(x[i as int].0 == key@);
            lemma_view_map_index(b@, key@, 0);
            lemma_key_index(b@, key@, 0);
        }
        let same = match b.get(key) {
            Some(value) => text::equal(value.as_str(), a.value_at(i).as_str()),
            None => false,
        };
        if !same {
            assert(map_get(y, x[i as int].0) != Some(x[i as int].1));
            return false;
        }
        i += 1;
    }
    true
}

/// Whether two targets are the same.
fn targets_match(a: &FileTarget, b: &FileTarget) -> (r: bool)
    ensures
        r == same_target(a@, b@),
{
    match (a, b) {
        (FileTarget::Rename(x), FileTarget::Rename(y)) => text::equal(x.as_str(), y.as_str()),
        (FileTarget::ExtractList(x), FileTarget::ExtractList(y)) => same_texts(x, y),
        (FileTarget::ExtractMap(x), FileTarget::ExtractMap(y)) => same_names(x, y),
        _ => false,
    }
}

/// Whether two `files` maps are the same: their order does not matter, but that of lists does.
pub fn same_files(a: &LockFiles, b: &LockFiles) -> (r: bool)
    ensures
        r == same_files_spec(view_map(a@), view_map(b@)),
{
    let ghost x = view_map(a@);
    let ghost y = view_map(b@);
    if a.len() != b.len() {
        return false;
    }
    let mut i: usize = 0;
    while i < a.len()
        invariant
            i <= a@.len(),
            x == view_map(a@),
            y == view_map(b@),
            x.len() == y.len(),
            forall|j: int|
                0 <= j < i ==> map_get(y, (#[trigger] x[j]).0) is Some && same_target(
                    x[j].1,
                    map_get(y, x[j].0)->0,
                ),
        decreases a@.len() - i,
    {
        let key = a.key_at(i);
        proof {
            assert(x[i as int].0 == key@);
            lemma_view_map_index(b@, key@, 0);
            lemma_key_index(b@, key@, 0);
        }
        let same = match b.get(key) {
            Some(target) => targets_match(a.value_at(i), target),
            None => false,
        };
        if !same {
            assert(!(map_get(y, x[i as int].0) is Some && same_target(
                x[i as int].1,
                map_get(y, x[i as int].0)->0,
            )));
            return false;
        }
        i += 1;
    }
    true
}

/// The `files` map a value describes: every entry a target.
pub open spec fn lock_files_in(value: JsonView) -> Option<Seq<(Seq<char>, TargetView)>> {
    match value {
        JsonView::Table(map) => if forall|i: int|
            0 <= i < map.len() ==> target_in((#[trigger] map[i]).1) is Some {
            Some(Seq::new(map.len(), |i: int| (map[i].0, target_in(map[i].1)->0)))
        } else {
            None
        },
        _ => None,
    }
}

/// What a value holds under the key of that name, or at that position of a list of three.
pub open spec fn field_in(value: JsonView, key: Seq<char>, i: int) -> Option<JsonView> {
    match value {
        JsonView::List(items) => if items.len() == 3 {
            Some(items[i])
        } else {
            None
        },
        _ => value.get(key),
    }
}

/// The lock entry a value describes: all three keys, or a list of what they hold, each of its type.
pub open spec fn lock_in(value: JsonView) -> Option<LockView> {
    match (
        field_in(value, "repository"@, 0),
        field_in(value, "version"@, 1),
        field_in(value, "files"@, 2),
    ) {
        (Some(JsonView::Text(repository)), Some(JsonView::Text(version)), Some(files)) =>
            match lock_files_in(files) {
            Some(files) => Some(LockView { repository, version, files }),
            None => None,
        },
        _ => None,
    }
}

/// The lockfile a value describes: every entry a lock entry.
pub open spec fn lockfile_in(value: JsonView) -> Option<Seq<(Seq<char>, LockView)>> {
    match value {
        JsonView::Table(map) => if forall|i: int|
            0 <= i < map.len() ==> lock_in((#[trigger] map[i]).1) is Some {
            Some(Seq::new(map.len(), |i: int| (map[i].0, lock_in(map[i].1)->0)))
        } else {
            None
        },
        _ => None,
    }
}

/// The value that describes a lock entry.
pub open spec fn lock_json(lock: LockView) -> JsonView {
    JsonView::Table(
        seq![
            ("repository"@, JsonView::Text(lock.repository)),
            ("version"@, JsonView::Text(lock.version)),
            (
                "files"@,
                JsonView::Table(
                    Seq::new(
                        lock.files.len(),
                        |i: int| (lock.files[i].0, target_json(lock.files[i].1)),
                    ),
                ),
            ),
        ],
    )
}

/// The value that describes a lockfile.
pub open spec fn lockfile_json(lockfile: Seq<(Seq<char>, LockView)>) -> JsonView {
    JsonView::Table(Seq::new(lockfile.len(), |i: int| (lockfile[i].0, lock_json(lockfile[i].1))))
}

/// The lockfile a text holds, in JSON.
pub open spec fn lockfile_of(text: Seq<char>) -> Option<Seq<(Seq<char>, LockView)>> {
    match json_document(text) {
        Some(value) => lockfile_in(value),
        None => None,
    }
}

/// Reads a `files` map.
fn read_lock_files(value: &Json) -> (r: Option<LockFiles>)
    ensures
        match r {
            Some(files) => lock_files_in(value@) == Some(view_map(files@)),
            None => lock_files_in(value@) is None,
        },
{
    proof {
        lemma_json_view(*value);
    }
    match value {
        Json::Table(map) => {
            let ghost views = table_view(map@);
            let n: usize = map.len();
            let mut out: LockFiles = OrderedMap::new();
            let mut i: usize = 0;
            while i < n
                invariant
                    i <= n == map@.len(),
                    keys_distinct(map@),
                    value@ == JsonView::Table(views),
                    views == table_view(map@),
                    out@.len() == i,
                    forall|j: int|
                        0 <= j < i ==> target_in((#[trigger] views[j]).1) is Some && out@[j].0
                            == views[j].0 && out@[j].1@ == target_in(views[j].1)->0,
                decreases n - i,
            {
                let key = map.key_at(i);
                let item = map.value_at(i);
                assert(views[i as int] == (key@, item@));
                match read_target(item) {
                    Some(target) => {
                        let ghost before = out@;
                        proof {
                            assert forall|j: int| 0 <= j < before.len() implies (
                            #[trigger] before[j]).0 != key@ by {
                                assert(views[j].0 == map@[j].0);
                                assert(map@[j].0 != map@[i as int].0);
                            }
                            lemma_insert_new(before, key@, target);
                        }
                        out.insert(key.to_owned(), target);
                    },
                    None => {
                        assert(target_in(views[i as int].1) is None);
                        return None;
                    },
                }
                i += 1;
            }
            assert(view_map(out@) =~= Seq::new(
                views.len(),
                |i: int| (views[i].0, target_in(views[i].1)->0),
            ));
            Some(out)
        },
        _ => None,
    }
}

/// What a value holds under a key, or at a position of a list of three.
fn field<'a>(value: &'a Json, key: &str, i: usize) -> (r: Option<&'a Json>)
    requires
        i < 3,
    ensures
        match r {
            Some(held) => field_in(value@, key@, i as int) == Some(held@),
            None => field_in(value@, key@, i as int) is None,
        },
{
    proof {
        lemma_json_view(*value);
    }
    match value {
        Json::List(items) => if items.len() == 3 {
            Some(&items[i])
        } else {
            None
        },
        _ => value.get(key),
    }
}

/// Reads a lock entry.
fn read_lock(value: &Json) -> (r: Option<VendorLock>)
    ensures
        match r {
            Some(lock) => lock_in(value@) == Some(lock@),
            None => lock_in(value@) is None,
        },
{
    let repository = match field(value, "repository", 0) {
        Some(held) => match held.as_text() {
            Some(s) => s.to_owned(),
            None => {
                return None;
            },
        },
        None => {
            return None;
        },
    };
    let version = match field(value, "version", 1) {
        Some(held) => match held.as_text() {
            Some(s) => s.to_owned(),
            None => {
                return None;
            },
        },
        None => {
            return None;
        },
    };
    match field(value, "files", 2) {
        Some(held) => match read_lock_files(held) {
            Some(files) => Some(VendorLock { repository, version, files }),
            None => None,
        },
        None => None,
    }
}

/// Reads a lockfile from a document.
pub fn lockfile_from_json(value: &Json) -> (r: Option<Lockfile>)
    ensures
        match r {
            Some(lockfile) => lockfile_in(value@) == Some(view_map(lockfile@)),
            None => lockfile_in(value@) is None,
        },
{
    proof {
        lemma_json_view(*value);
    }
    match value {
        Json::Table(map) => {
            let ghost views = table_view(map@);
            let n: usize = map.len();
            let mut out: Lockfile = OrderedMap::new();
            let mut i: usize = 0;
            while i < n
                invariant
                    i <= n == map@.len(),
                    keys_distinct(map@),
                    value@ == JsonView::Table(views),
                    views == table_view(map@),
                    out@.len() == i,
                    forall|j: int|
                        0 <= j < i ==> lock_in((#[trigger] views[j]).1) is Some && out@[j].0
                            == views[j].0 && out@[j].1@ == lock_in(views[j].1)->0,
                decreases n - i,
            {
                let key = map.key_at(i);
                let item = map.value_at(i);
                assert(views[i as int] == (key@, item@));
                match read_lock(item) {
                    Some(lock) => {
                        let ghost before = out@;
                        proof {
                            assert forall|j: int| 0 <= j < before.len() implies (
                            #[trigger] before[j]).0 != key@ by {
                                assert(views[j].0 == map@[j].0);
                                assert(map@[j].0 != map@[i as int].0);
                            }
                            lemma_insert_new(before, key@, lock);
                        }
                        out.insert(key.to_owned(), lock);
                    },
                    None => {
                        assert(lock_in(views[i as int].1) is None);
                        return None;
                    },
                }
                i += 1;
            }
            assert(view_map(out@) =~= Seq::new(
                views.len(),
                |i: int| (views[i].0, lock_in(views[i].1)->0),
            ));
            Some(out)
        },
        _ => None,
    }
}

/// Parses a lockfile's text.
pub fn read_lockfile(path: &str, text: &str) -> (r: Result<Lockfile, VendorError>)
    ensures
        match json_reading(text@) {
            Ok(value) => match lockfile_in(value) {
                Some(held) => r matches Ok(lockfile) && view_map(lockfile@) == held,
                None => r matches Err(e) && unparsed(e, path@, "not a lockfile"@),
            },
            Err(said) => r matches Err(e) && unparsed(e, path@, said),
        },
{
    match parse_json(text) {
        Ok(value) => match lockfile_from_json(&value) {
            Some(lockfile) => Ok(lockfile),
            None => Err(
                VendorError::ParseConfig {
                    path: path.to_owned(),
                    message: "not a lockfile".to_owned(),
                },
            ),
        },
        Err(message) => Err(VendorError::ParseConfig { path: path.to_owned(), message }),
    }
}

/// Writes a `files` map.
fn write_lock_files(files: &LockFiles) -> (r: OrderedMap<Json>)
    ensures
        table_view(r@) == Seq::new(
            files@.len(),
            |i: int| (view_map(files@)[i].0, target_json(view_map(files@)[i].1)),
        ),
{
    let n: usize = files.len();
    let mut out: OrderedMap<Json> = OrderedMap::new();
    let mut i: usize = 0;
    while i < n
        invariant
            i <= n == files@.len(),
            keys_distinct(files@),
            out@.len() == i,
            forall|j: int|
                0 <= j < i ==> (#[trigger] out@[j]).0 == files@[j].0 && out@[j].1@ == target_json(
                    files@[j].1@,
                ),
        decreases n - i,
    {
        let key = files.key_at(i);
        let item = write_target(files.value_at(i));
        let ghost before = out@;
        proof {
            assert forall|j: int| 0 <= j < before.len() implies (#[trigger] before[j]).0 != key@ by {
                assert(files@[j].0 != files@[i as int].0);
            }
            lemma_insert_new(before, key@, item);
        }
        out.insert(key.to_owned(), item);
        i += 1;
    }
    assert(table_view(out@) =~= Seq::new(
        files@.len(),
        |i: int| (view_map(files@)[i].0, target_json(view_map(files@)[i].1)),
    ));
    out
}

/// Writes a lock entry.
fn write_lock(lock: &VendorLock) -> (r: Json)
    ensures
        r@ == lock_json(lock@),
{
    let mut map: OrderedMap<Json> = OrderedMap::new();
    proof {
        lemma_lock_keys();
    }
    let repository = Json::Text(lock.repository.clone());
    let version = Json::Text(lock.version.clone());
    let files = Json::Table(write_lock_files(&lock.files));
    proof {
        lemma_json_view(repository);
        lemma_json_view(version);
        lemma_json_view(files);
        lemma_insert_new(map@, "repository"@, repository);
    }
    map.insert("repository".to_owned(), repository);
    proof {
        lemma_insert_new(map@, "version"@, version);
    }
    map.insert("version".to_owned(), version);
    proof {
        lemma_insert_new(map@, "files"@, files);
    }
    map.insert("files".to_owned(), files);
    let r = Json::Table(map);
    proof {
        lemma_json_view(r);
        assert(files@->Table_0 =~= lock_json(lock@)->Table_0[2].1->Table_0);
        assert(r@->Table_0 =~= lock_json(lock@)->Table_0);
    }
    r
}

/// The names of a lock entry's keys are three different texts.
proof fn lemma_lock_keys()
    ensures
        "repository"@ != "version"@,
        "repository"@ != "files"@,
        "version"@ != "files"@,
{
    reveal_strlit("repository");
    reveal_strlit("version");
    reveal_strlit("files");
    assert("repository"@.len() == 10);
    assert("version"@.len() == 7);
    assert("files"@.len() == 5);
}

/// Writes a lockfile as a document.
pub fn lockfile_to_json(lockfile: &Lockfile) -> (r: Json)
    ensures
        r@ == lockfile_json(view_map(lockfile@)),
{
    let n: usize = lockfile.len();
    let mut out: OrderedMap<Json> = OrderedMap::new();
    let mut i: usize = 0;
    while i < n
        invariant
            i <= n == lockfile@.len(),
            keys_distinct(lockfile@),
            out@.len() == i,
            forall|j: int|
                0 <= j < i ==> (#[trigger] out@[j]).0 == lockfile@[j].0 && out@[j].1@ == lock_json(
                    lockfile@[j].1@,
                ),
        decreases n - i,
    {
        let key = lockfile.key_at(i);
        let item = write_lock(lockfile.value_at(i));
        let ghost before = out@;
        proof {
            assert forall|j: int| 0 <= j < before.len() implies (#[trigger] before[j]).0 != key@ by {
                assert(lockfile@[j].0 != lockfile@[i as int].0);
            }
            lemma_insert_new(before, key@, item);
        }
        out.insert(key.to_owned(), item);
        i += 1;
    }
    let r = Json::Table(out);
    proof {
        lemma_json_view(r);
        assert(r@->Table_0 =~= lockfile_json(view_map(lockfile@))->Table_0);
    }
    r
}

/// A lockfile holds no numbers, and is not nested deeply.
proof fn lemma_lockfile_is_wordy(lockfile: Seq<(Seq<char>, LockView)>)
    ensures
        wordy(lockfile_json(lockfile), 100),
{
    let entries = lockfile_json(lockfile)->Table_0;
    assert forall|i: int| 0 <= i < entries.len() implies wordy((#[trigger] entries[i]).1, 99) by {
        let lock = lockfile[i].1;
        let keys = lock_json(lock)->Table_0;
        let files = keys[2].1->Table_0;
        assert forall|j: int| 0 <= j < files.len() implies wordy((#[trigger] files[j]).1, 97) by {
            reveal_with_fuel(wordy, 2);
            match lock.files[j].1 {
                TargetView::Rename(_) => {},
                TargetView::ExtractList(list) => {},
                TargetView::ExtractMap(map) => {},
            }
        }
        assert(wordy(keys[2].1, 98));
        assert forall|j: int| 0 <= j < keys.len() implies wordy((#[trigger] keys[j]).1, 98) by {}
    }
}

/// What is written of a lockfile is read back as it was.
pub proof fn a_lockfile_reads_back(lockfile: Seq<(Seq<char>, LockView)>)
    ensures
        lockfile_in(lockfile_json(lockfile)) == Some(lockfile),
{
    let entries = lockfile_json(lockfile)->Table_0;
    assert forall|i: int| 0 <= i < entries.len() implies lock_in((#[trigger] entries[i]).1) == Some(
        lockfile[i].1,
    ) by {
        reading_undoes_writing(lockfile[i].1);
    }
    assert(Seq::new(entries.len(), |i: int| (entries[i].0, lock_in(entries[i].1)->0)) =~= lockfile);
}

/// Serialises a lockfile as JSON with two spaces a level. It is read back as it was.
pub fn to_json(lockfile: &Lockfile) -> (r: Result<String, VendorError>)
    ensures
        r matches Ok(text) && json_text(lockfile_json(view_map(lockfile@)), "  "@) == Some(text@)
            && lockfile_of(text@) == Some(view_map(lockfile@)) && lockfile_of(text@ + "\n"@) == Some(
            view_map(lockfile@),
        ),
{
    proof {
        lemma_lockfile_is_wordy(view_map(lockfile@));
        a_lockfile_reads_back(view_map(lockfile@));
        reveal_strlit("  ");
    }
    match to_json_text(&lockfile_to_json(lockfile), "  ") {
        Ok(text) => Ok(text),
        Err(message) => Err(
            VendorError::SerializeConfig { path: "vendor-lock.json".to_owned(), message },
        ),
    }
}

/// The entries of the lockfile that `existing` holds, none where there is no readable one.
pub open spec fn held_entries(existing: Option<Seq<char>>) -> Seq<(Seq<char>, LockView)> {
    match existing {
        Some(text) => match lockfile_of(text) {
            Some(lockfile) => lockfile,
            None => Seq::empty(),
        },
        None => Seq::empty(),
    }
}

/// The lockfile that `existing` holds, an empty one where there is no readable one.
fn held_lockfile(existing: Option<&str>) -> (r: Lockfile)
    ensures
        view_map(r@) == held_entries(text::str_of(existing)),
{
    let empty: Lockfile = OrderedMap::new();
    assert(view_map(empty@) =~= Seq::empty());
    match existing {
        Some(text) => match read_lockfile("", text) {
            Ok(lockfile) => lockfile,
            Err(_) => empty,
        },
        None => empty,
    }
}

/// The text of the lockfile with one dependency put into it, where `existing` is what the file
/// holds now. It ends with a newline, and is read back as what was written.
pub fn upserted_lockfile(existing: Option<&str>, name: &str, lock: VendorLock) -> (r: Result<
    String,
    VendorError,
>)
    ensures
        ({
            let entries = map_insert(held_entries(text::str_of(existing)), name@, lock@);
            let body = json_text(lockfile_json(entries), "  "@);
            r matches Ok(data) && body is Some && data@ == body->0 + "\n"@ && lockfile_of(data@)
                == Some(entries)
        }),
{
    let mut lockfile = held_lockfile(existing);
    proof {
        lemma_view_map_insert(lockfile@, name@, lock);
    }
    lockfile.insert(name.to_owned(), lock);
    match to_json(&lockfile) {
        Ok(data) => Ok(data.concat("\n")),
        Err(e) => Err(e),
    }
}

/// The outputs of one dependency in a lockfile; none where it is not there.
pub open spec fn locked_outputs(
    lockfile: Seq<(Seq<char>, LockView)>,
    name: Seq<char>,
) -> Seq<Seq<char>> {
    match map_get(lockfile, name) {
        Some(lock) => flat_outputs(lock.files, lock.files.len() as int),
        None => Seq::empty(),
    }
}

/// The files a dependency owns according to the lockfile's text, none where that is unreadable.
pub fn files_from_lockfile(existing: Option<&str>, name: &str) -> (r: Vec<String>)
    ensures
        text::texts(r@) == locked_outputs(held_entries(text::str_of(existing)), name@),
{
    let lockfile = held_lockfile(existing);
    proof {
        lemma_view_map_index(lockfile@, name@, 0);
        lemma_key_index(lockfile@, name@, 0);
    }
    match lockfile.get(name) {
        Some(lock) => flat_files(&lock.files),
        None => {
            let none: Vec<String> = Vec::new();
            assert(text::texts(none@) =~= Seq::empty());
            none
        },
    }
}

/// What is written of a lock entry is read back as it was.
pub proof fn reading_undoes_writing(lock: LockView)
    ensures
        lock_in(lock_json(lock)) == Some(lock),
{
    lemma_lock_keys();
    let map = lock_json(lock)->Table_0;
    reveal_with_fuel(key_index, 4);
    assert(key_index(map, "repository"@, 0) == Some(0int));
    assert(key_index(map, "version"@, 0) == Some(1int));
    assert(key_index(map, "files"@, 0) == Some(2int));
    let files = map[2].1->Table_0;
    assert forall|i: int| 0 <= i < files.len() implies target_in((#[trigger] files[i]).1) == Some(
        lock.files[i].1,
    ) by {
        crate::model::target_round_trip(lock.files[i].1);
    }
    assert(Seq::new(files.len(), |i: int| (files[i].0, target_in(files[i].1)->0)) =~= lock.files);
}

/// A key that comes again overwrites what it locked before, and keeps its position.
pub proof fn later_entries_keep_the_position(
    pairs: Seq<(Seq<char>, TargetView)>,
    version: Seq<char>,
    n: int,
    i: int,
)
    requires
        0 < n <= pairs.len(),
        0 <= i < locked_pairs(pairs, version, n - 1).len(),
    ensures
        locked_pairs(pairs, version, n)[i].0 == locked_pairs(pairs, version, n - 1)[i].0,
        map_get(locked_pairs(pairs, version, n), pairs[n - 1].0) == Some(
            versioned_target(pairs[n - 1].1, version),
        ),
{
    let before = locked_pairs(pairs, version, n - 1);
    let target = versioned_target(pairs[n - 1].1, version);
    crate::value::insert_keeps_the_order(before, pairs[n - 1].0, target, i);
    crate::value::get_after_insert(before, pairs[n - 1].0, target);
}

/// `locked` is `target` with the version filled into every output: as many of them, in the same
/// order, and the members of an archive under the names they have there.
pub open spec fn target_filled(target: TargetView, token: Seq<char>, locked: TargetView) -> bool {
    match (target, locked) {
        (TargetView::Rename(a), TargetView::Rename(b)) => fills(a, "{version}"@, token, b),
        (TargetView::ExtractList(a), TargetView::ExtractList(b)) => a.len() == b.len() && forall|
            i: int,
        |
            0 <= i < a.len() ==> fills(a[i], "{version}"@, token, #[trigger] b[i]),
        (TargetView::ExtractMap(a), TargetView::ExtractMap(b)) => a.len() == b.len() && forall|
            i: int,
        |
            0 <= i < a.len() ==> (#[trigger] b[i]).0 == a[i].0 && fills(
                a[i].1,
                "{version}"@,
                token,
                b[i].1,
            ),
        _ => false,
    }
}

/// A target is locked with its version filled in.
proof fn lemma_target_filled(target: TargetView, version: Seq<char>)
    ensures
        target_filled(target, version_token_spec(version), versioned_target(target, version)),
{
    let token = version_token_spec(version);
    match target {
        TargetView::Rename(s) => {
            a_placeholder_is_filled(s, "{version}"@, token);
        },
        TargetView::ExtractList(list) => {
            let locked = versioned_target(target, version)->ExtractList_0;
            assert forall|i: int| 0 <= i < list.len() implies fills(
                list[i],
                "{version}"@,
                token,
                #[trigger] locked[i],
            ) by {
                a_placeholder_is_filled(list[i], "{version}"@, token);
            }
        },
        TargetView::ExtractMap(map) => {
            let locked = versioned_target(target, version)->ExtractMap_0;
            assert forall|i: int| 0 <= i < map.len() implies (#[trigger] locked[i]).0 == map[i].0
                && fills(map[i].1, "{version}"@, token, locked[i].1) by {
                a_placeholder_is_filled(map[i].1, "{version}"@, token);
            }
        },
    }
}

/// Every declared file is locked: under its input, with the version filled into its outputs. Of
/// two with one input it is the later that counts.
pub proof fn every_declared_file_is_locked(
    pairs: Seq<(Seq<char>, TargetView)>,
    version: Seq<char>,
    n: int,
    i: int,
)
    requires
        0 <= i < n <= pairs.len(),
        forall|j: int| i < j < n ==> (#[trigger] pairs[j]).0 != pairs[i].0,
    ensures
        map_get(locked_pairs(pairs, version, n), pairs[i].0) matches Some(locked) && target_filled(
            pairs[i].1,
            version_token_spec(version),
            locked,
        ),
    decreases n,
{
    let before = locked_pairs(pairs, version, n - 1);
    let target = versioned_target(pairs[n - 1].1, version);
    if i == n - 1 {
        crate::value::get_after_insert(before, pairs[i].0, target);
        lemma_target_filled(pairs[i].1, version);
    } else {
        assert(pairs[n - 1].0 != pairs[i].0);
        every_declared_file_is_locked(pairs, version, n - 1, i);
        crate::value::insert_keeps_the_others(before, pairs[n - 1].0, target, pairs[i].0);
    }
}

/// Nothing is locked but what is declared, and no input twice.
pub proof fn only_declared_files_are_locked(
    pairs: Seq<(Seq<char>, TargetView)>,
    version: Seq<char>,
    n: int,
)
    requires
        0 <= n <= pairs.len(),
    ensures
        keys_distinct(locked_pairs(pairs, version, n)),
        forall|k: int|
            0 <= k < locked_pairs(pairs, version, n).len() ==> exists|i: int|
                0 <= i < n && (#[trigger] pairs[i]).0 == (#[trigger] locked_pairs(
                    pairs,
                    version,
                    n,
                )[k]).0,
    decreases n,
{
    if n > 0 {
        only_declared_files_are_locked(pairs, version, n - 1);
        let before = locked_pairs(pairs, version, n - 1);
        let after = locked_pairs(pairs, version, n);
        lemma_key_index(before, pairs[n - 1].0, 0);
        assert forall|i: int, j: int| 0 <= i < j < after.len() implies (#[trigger] after[i]).0 != (
        #[trigger] after[j]).0 by {
            if j < before.len() {
                assert(before[i].0 != before[j].0);
            }
        }
        assert forall|k: int| 0 <= k < after.len() implies exists|i: int|
            0 <= i < n && (#[trigger] pairs[i]).0 == (#[trigger] after[k]).0 by {
            if k < before.len() {
                assert(after[k].0 == before[k].0);
                let i = choose|i: int|
                    0 <= i < n - 1 && (#[trigger] pairs[i]).0 == before[k].0;
                assert(pairs[i].0 == after[k].0);
            } else {
                assert(pairs[n - 1].0 == after[k].0);
            }
        }
    }
}

/// `output` is what a target writes: its new name, or that of one of the members it takes out.
pub open spec fn writes(target: TargetView, output: Seq<char>) -> bool {
    match target {
        TargetView::Rename(name) => output == name,
        TargetView::ExtractList(list) => exists|k: int| 0 <= k < list.len() && list[k] == output,
        TargetView::ExtractMap(map) => exists|k: int|
            0 <= k < map.len() && (#[trigger] map[k]).1 == output,
    }
}

/// The files of a dependency on disk are exactly those that its locked targets write.
pub proof fn the_files_are_what_the_targets_write(
    files: Seq<(Seq<char>, TargetView)>,
    output: Seq<char>,
    n: int,
)
    requires
        0 <= n <= files.len(),
    ensures
        flat_outputs(files, n).contains(output) <==> exists|i: int|
            0 <= i < n && writes((#[trigger] files[i]).1, output),
    decreases n,
{
    let all = flat_outputs(files, n);
    if n > 0 {
        the_files_are_what_the_targets_write(files, output, n - 1);
        let before = flat_outputs(files, n - 1);
        let target = files[n - 1].1;
        let own = outputs_of(target);
        assert(own.contains(output) <==> writes(target, output)) by {
            match target {
                TargetView::Rename(name) => {
                    assert(own[0] == name);
                },
                TargetView::ExtractList(list) => {},
                TargetView::ExtractMap(map) => {
                    if own.contains(output) {
                        assert(map[own.index_of(output)].1 == output);
                    }
                    if writes(target, output) {
                        let k = choose|k: int|
                            0 <= k < map.len() && (#[trigger] map[k]).1 == output;
                        assert(own[k] == output);
                    }
                },
            }
        }
        if all.contains(output) {
            let k = all.index_of(output);
            if k < before.len() {
                assert(before[k] == output);
                let i = choose|i: int| 0 <= i < n - 1 && writes((#[trigger] files[i]).1, output);
                assert(writes(files[i].1, output));
            } else {
                assert(own[k - before.len()] == output);
                assert(writes(files[n - 1].1, output));
            }
        }
        if exists|i: int| 0 <= i < n && writes((#[trigger] files[i]).1, output) {
            let i = choose|i: int| 0 <= i < n && writes((#[trigger] files[i]).1, output);
            if i < n - 1 {
                assert(before.contains(output));
                assert(all[before.index_of(output)] == output);
            } else {
                assert(all[before.len() + own.index_of(output)] == output);
            }
        }
    }
}

/// What a name finds in a map is the same in both.
pub open spec fn same_lookups(a: Seq<(Seq<char>, Seq<char>)>, b: Seq<(Seq<char>, Seq<char>)>) -> bool {
    forall|name: Seq<char>| #[trigger] map_get(a, name) == map_get(b, name)
}

/// Targets that count as the same write the same: one new name, the same members in the same order,
/// or the same members under the same names.
pub proof fn targets_that_are_the_same_write_the_same(a: TargetView, b: TargetView)
    requires
        same_target(a, b),
        a matches TargetView::ExtractMap(map) ==> keys_distinct(map),
        b matches TargetView::ExtractMap(map) ==> keys_distinct(map),
    ensures
        match (a, b) {
            (TargetView::ExtractMap(x), TargetView::ExtractMap(y)) => same_lookups(x, y),
            _ => a == b,
        },
{
    if let (TargetView::ExtractMap(x), TargetView::ExtractMap(y)) = (a, b) {
        crate::value::names_that_fit_are_all_of_them(x, y);
        assert forall|name: Seq<char>| #[trigger] map_get(x, name) == map_get(y, name) by {
            lemma_key_index(x, name, 0);
            lemma_key_index(y, name, 0);
            if key_index(x, name, 0) is Some {
                assert(x[key_index(x, name, 0)->0].0 == name);
            } else if key_index(y, name, 0) is Some {
                assert(map_get(x, y[key_index(y, name, 0)->0].0) is Some);
            }
        }
    }
}

/// What is locked of a file that is declared anew replaces what was, and what is locked of every
/// other dependency stays.
pub proof fn a_lock_replaces_only_its_own(
    existing: Option<Seq<char>>,
    name: Seq<char>,
    lock: LockView,
    other: Seq<char>,
)
    requires
        other != name,
    ensures
        map_get(map_insert(held_entries(existing), name, lock), name) == Some(lock),
        existing is Some && lockfile_of(existing->0) is Some ==> map_get(
            map_insert(held_entries(existing), name, lock),
            other,
        ) == map_get(lockfile_of(existing->0)->0, other),
        existing is None ==> map_insert(held_entries(existing), name, lock).len() == 1,
{
    crate::value::get_after_insert(held_entries(existing), name, lock);
    crate::value::insert_keeps_the_others(held_entries(existing), name, lock, other);
    lemma_key_index(held_entries(existing), name, 0);
}

/// The files that a lockfile says a dependency owns are those that its locked targets write, and no
/// other dependency's.
pub proof fn a_dependency_owns_what_its_lock_writes(
    lockfile: Seq<(Seq<char>, LockView)>,
    name: Seq<char>,
    output: Seq<char>,
)
    ensures
        locked_outputs(lockfile, name).contains(output) <==> (map_get(lockfile, name) matches Some(
            lock,
        ) && exists|i: int| 0 <= i < lock.files.len() && writes(
            (#[trigger] lock.files[i]).1,
            output,
        )),
{
    if let Some(lock) = map_get(lockfile, name) {
        the_files_are_what_the_targets_write(lock.files, output, lock.files.len() as int);
    }
}

/// A lock entry is what its keys say, each of the three there and of its type; a list of three holds
/// the same in that order.
pub proof fn a_lock_entry_is_what_its_keys_say(value: JsonView)
    ensures
        lock_in(value) matches Some(lock) ==> {
            &&& value is Table ==> value.get("repository"@) == Some(JsonView::Text(lock.repository))
                && value.get("version"@) == Some(JsonView::Text(lock.version)) && (value.get(
                "files"@,
            ) matches Some(JsonView::Table(map)) && map.len() == lock.files.len() && forall|i: int|
                0 <= i < map.len() ==> (#[trigger] lock.files[i]).0 == map[i].0 && target_in(map[i].1)
                    == Some(lock.files[i].1))
            &&& value matches JsonView::List(items) ==> items.len() == 3 && items[0]
                == JsonView::Text(lock.repository) && items[1] == JsonView::Text(lock.version)
        },
        value is Table && (value.get("repository"@) is None || value.get("version"@) is None
            || value.get("files"@) is None) ==> lock_in(value) is None,
        !(value is Table) && !(value is List) ==> lock_in(value) is None,
{
}

/// A lockfile lists its entries in order, each under its name; one bad entry spoils it.
pub proof fn a_lockfile_lists_its_entries(map: Seq<(Seq<char>, JsonView)>)
    ensures
        match lockfile_in(JsonView::Table(map)) {
            Some(entries) => entries.len() == map.len() && forall|i: int|
                0 <= i < map.len() ==> (#[trigger] entries[i]).0 == map[i].0 && lock_in(map[i].1)
                    == Some(entries[i].1),
            None => exists|i: int| 0 <= i < map.len() && lock_in((#[trigger] map[i]).1) is None,
        },
{
}

/// A lockfile that is not there or cannot be read holds nothing.
pub proof fn an_unreadable_lockfile_holds_nothing(text: Seq<char>)
    ensures
        held_entries(None).len() == 0,
        lockfile_of(text) is None ==> held_entries(Some(text)).len() == 0,
        lockfile_of(text) is Some ==> held_entries(Some(text)) == lockfile_of(text)->0,
{
}

/// A lock entry is read where its three keys are there and each of its type.
pub proof fn a_sound_lock_entry_is_read(
    map: Seq<(Seq<char>, JsonView)>,
    files: Seq<(Seq<char>, JsonView)>,
)
    requires
        JsonView::Table(map).get("repository"@) is Some && JsonView::Table(map).get(
            "repository"@,
        )->0 is Text,
        JsonView::Table(map).get("version"@) is Some && JsonView::Table(map).get("version"@)->0
            is Text,
        JsonView::Table(map).get("files"@) == Some(JsonView::Table(files)),
        forall|i: int| 0 <= i < files.len() ==> target_in((#[trigger] files[i]).1) is Some,
    ensures
        lock_in(JsonView::Table(map)) is Some,
{
}

} // verus!
