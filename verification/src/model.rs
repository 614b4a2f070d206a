//! What a config says of its dependencies.
//!
//! Config files are written by hand and read leniently: a key of the wrong type counts as absent
//! until the command that needs it complains. Validation is a step of its own.

use vstd::prelude::*;
use crate::error::VendorError;
use crate::template::{
    basename, basename_spec, github_url, is_github_url, owner_and_name_from_repo_url, repo_from,
};
use crate::text;
use crate::value::{
    keys_distinct, lemma_insert_new, lemma_json_view, lemma_key_index, list_view, map_get,
    table_view, view_map, Json, JsonView, OrderedMap,
};

verus! {

/// `owner`/`name` pair extracted from a GitHub repository URL.
#[derive(Debug, Clone, PartialEq, Eq, Hash)]
pub struct Repository {
    /// Whose it is.
    pub owner: String,
    /// What it is called.
    pub name: String,
}

impl Repository {
    /// `owner/name`.
    pub fn to_text(&self) -> (r: String)
        ensures
            r@ == self.owner@ + "/"@ + self.name@,
    {
        let mut r = self.owner.clone();
        r.append("/");
        r.append(self.name.as_str());
        r
    }
}

/// Global `vendorConfig` block.
#[derive(Debug, Clone)]
pub struct VendorConfig {
    /// The folder that vendored files go to.
    pub vendor_folder: String,
}

impl Default for VendorConfig {
    fn default() -> (r: Self)
        ensures
            r.vendor_folder@ == "./vendor"@,
    {
        VendorConfig { vendor_folder: "./vendor".to_owned() }
    }
}

/// Where a downloaded input lands.
///
/// A plain string renames the file; a list or map means the input is an archive and the entries
/// name paths inside it.
#[derive(Debug)]
pub enum FileTarget {
    /// `"LICENSE": "COPYING"`: save the input under a different name.
    Rename(String),
    /// `"archive.zip": ["a", "b"]`: extract these entries, keeping their names.
    ExtractList(Vec<String>),
    /// `"archive.zip": { "a": "b" }`: extract these entries under new names.
    ExtractMap(OrderedMap<String>),
}

/// A target, as text.
pub ghost enum TargetView {
    Rename(Seq<char>),
    ExtractList(Seq<Seq<char>>),
    ExtractMap(Seq<(Seq<char>, Seq<char>)>),
}

impl View for FileTarget {
    type V = TargetView;

    open spec fn view(&self) -> TargetView {
        match self {
            FileTarget::Rename(s) => TargetView::Rename(s@),
            FileTarget::ExtractList(list) => TargetView::ExtractList(text::texts(list@)),
            FileTarget::ExtractMap(map) => TargetView::ExtractMap(view_map(map@)),
        }
    }
}

/// Each text paired with itself.
pub open spec fn doubled(list: Seq<Seq<char>>) -> Seq<(Seq<char>, Seq<char>)> {
    Seq::new(list.len(), |i: int| (list[i], list[i]))
}

/// The texts of pairs of strings.
pub open spec fn pair_views(pairs: Seq<(String, String)>) -> Seq<(Seq<char>, Seq<char>)> {
    Seq::new(pairs.len(), |i: int| (pairs[i].0@, pairs[i].1@))
}

/// The archive members a target selects, with the names they go by.
pub open spec fn pairs_of(target: TargetView) -> Option<Seq<(Seq<char>, Seq<char>)>> {
    match target {
        TargetView::Rename(_) => None,
        TargetView::ExtractList(list) => Some(doubled(list)),
        TargetView::ExtractMap(map) => Some(map),
    }
}

/// A copy of a map of strings.
pub fn copy_names(map: &OrderedMap<String>) -> (r: OrderedMap<String>)
    ensures
        view_map(r@) == view_map(map@),
{
    let mut r: OrderedMap<String> = OrderedMap::new();
    let n: usize = map.len();
    let mut i: usize = 0;
    assert(view_map(r@) =~= view_map(map@).take(0));
    while i < n
        invariant
            i <= n == map@.len(),
            keys_distinct(map@),
            view_map(r@) == view_map(map@).take(i as int),
        decreases n - i,
    {
        let ghost before = r@;
        let key = map.key_at(i);
        let value = map.value_at(i).clone();
        proof {
            assert(before.len() == i) by {
                assert(view_map(before).len() == i);
            }
            assert forall|j: int| 0 <= j < before.len() implies (#[trigger] before[j]).0 != key@ by {
                assert(view_map(before)[j] == view_map(map@)[j]);
                assert(map@[j].0 != map@[i as int].0);
            }
            lemma_insert_new(before, key@, value);
        }
        r.insert(key.to_owned(), value);
        i += 1;
        assert(view_map(r@) =~= view_map(map@).take(i as int)) by {
            assert(view_map(r@) =~= view_map(before).push((key@, value@)));
        }
    }
    assert(view_map(r@) =~= view_map(map@));
    r
}

impl FileTarget {
    /// A copy.
    pub fn copy(&self) -> (r: Self)
        ensures
            r@ == self@,
    {
        match self {
            FileTarget::Rename(s) => FileTarget::Rename(s.clone()),
            FileTarget::ExtractList(list) => FileTarget::ExtractList(text::clone_strings(list)),
            FileTarget::ExtractMap(map) => FileTarget::ExtractMap(copy_names(map)),
        }
    }

    /// The archive members this target selects, as input and output pairs.
    ///
    /// `None` for [`FileTarget::Rename`], which is not an extraction.
    pub fn extraction_pairs(&self) -> (r: Option<Vec<(String, String)>>)
        ensures
            match r {
                Some(pairs) => pairs_of(self@) == Some(pair_views(pairs@)),
                None => pairs_of(self@) is None,
            },
    {
        match self {
            FileTarget::Rename(_) => None,
            FileTarget::ExtractList(list) => {
                let mut pairs: Vec<(String, String)> = Vec::new();
                let mut i: usize = 0;
                while i < list.len()
                    invariant
                        i <= list@.len(),
                        pair_views(pairs@) == doubled(text::texts(list@)).take(i as int),
                    decreases list@.len() - i,
                {
                    let ghost before = pairs@;
                    pairs.push((list[i].clone(), list[i].clone()));
                    i += 1;
                    assert(pair_views(pairs@) =~= doubled(text::texts(list@)).take(i as int)) by {
                        assert(pair_views(pairs@) =~= pair_views(before).push(
                            (list@[i - 1]@, list@[i - 1]@),
                        ));
                    }
                }
                assert(pair_views(pairs@) =~= doubled(text::texts(list@)));
                Some(pairs)
            },
            FileTarget::ExtractMap(map) => {
                let mut pairs: Vec<(String, String)> = Vec::new();
                let mut i: usize = 0;
                while i < map.len()
                    invariant
                        i <= map@.len(),
                        pair_views(pairs@) == view_map(map@).take(i as int),
                    decreases map@.len() - i,
                {
                    let ghost before = pairs@;
                    pairs.push((map.key_at(i).to_owned(), map.value_at(i).clone()));
                    i += 1;
                    assert(pair_views(pairs@) =~= view_map(map@).take(i as int)) by {
                        assert(pair_views(pairs@) =~= pair_views(before).push(
                            (map@[i - 1].0, map@[i - 1].1@),
                        ));
                    }
                }
                assert(pair_views(pairs@) =~= view_map(map@));
                Some(pairs)
            },
        }
    }
}

/// One element of a dependency's `files` list.
#[derive(Debug)]
pub enum FileEntry {
    /// `"dist/coloris.min.js"`: save under its last component.
    Simple(String),
    /// `{ "dist/coloris.min.js": "coloris.js" }`: one or more explicit pairs.
    Mapped(OrderedMap<FileTarget>),
}

/// A `files` element, as text.
pub ghost enum EntryView {
    Simple(Seq<char>),
    Mapped(Seq<(Seq<char>, TargetView)>),
}

impl View for FileEntry {
    type V = EntryView;

    open spec fn view(&self) -> EntryView {
        match self {
            FileEntry::Simple(s) => EntryView::Simple(s@),
            FileEntry::Mapped(map) => EntryView::Mapped(view_map(map@)),
        }
    }
}

/// A `files` list, as text.
pub open spec fn entry_views(files: Seq<FileEntry>) -> Seq<EntryView> {
    Seq::new(files.len(), |i: int| files[i]@)
}

/// A copy of a map of targets.
pub fn copy_targets(map: &OrderedMap<FileTarget>) -> (r: OrderedMap<FileTarget>)
    ensures
        view_map(r@) == view_map(map@),
{
    let mut r: OrderedMap<FileTarget> = OrderedMap::new();
    let n: usize = map.len();
    let mut i: usize = 0;
    assert(view_map(r@) =~= view_map(map@).take(0));
    while i < n
        invariant
            i <= n == map@.len(),
            keys_distinct(map@),
            view_map(r@) == view_map(map@).take(i as int),
        decreases n - i,
    {
        let ghost before = r@;
        let key = map.key_at(i);
        let value = map.value_at(i).copy();
        proof {
            assert(before.len() == i) by {
                assert(view_map(before).len() == i);
            }
            assert forall|j: int| 0 <= j < before.len() implies (#[trigger] before[j]).0 != key@ by {
                assert(view_map(before)[j] == view_map(map@)[j]);
                assert(map@[j].0 != map@[i as int].0);
            }
            lemma_insert_new(before, key@, value);
        }
        r.insert(key.to_owned(), value);
        i += 1;
        assert(view_map(r@) =~= view_map(map@).take(i as int)) by {
            assert(view_map(r@) =~= view_map(before).push((key@, value@)));
        }
    }
    assert(view_map(r@) =~= view_map(map@));
    r
}

impl FileEntry {
    /// A copy.
    pub fn copy(&self) -> (r: Self)
        ensures
            r@ == self@,
    {
        match self {
            FileEntry::Simple(s) => FileEntry::Simple(s.clone()),
            FileEntry::Mapped(map) => FileEntry::Mapped(copy_targets(map)),
        }
    }
}

/// A copy of a `files` list.
pub fn copy_files(files: &Vec<FileEntry>) -> (r: Vec<FileEntry>)
    ensures
        entry_views(r@) == entry_views(files@),
{
    let mut r: Vec<FileEntry> = Vec::new();
    let mut i: usize = 0;
    while i < files.len()
        invariant
            i <= files@.len(),
            entry_views(r@) == entry_views(files@).take(i as int),
        decreases files@.len() - i,
    {
        let ghost before = r@;
        r.push(files[i].copy());
        i += 1;
        assert(entry_views(r@) =~= entry_views(files@).take(i as int)) by {
            assert(entry_views(r@) =~= entry_views(before).push(files@[i - 1]@));
        }
    }
    assert(entry_views(r@) =~= entry_views(files@));
    r
}

/// A single input and output pair, after flattening the `files` list.
#[derive(Debug)]
pub struct FileSpec {
    /// What is downloaded.
    pub input: String,
    /// Where it lands.
    pub output: FileTarget,
}

/// The pairs a list of specs makes.
pub open spec fn spec_views(specs: Seq<FileSpec>) -> Seq<(Seq<char>, TargetView)> {
    Seq::new(specs.len(), |i: int| (specs[i].input@, specs[i].output@))
}

/// The pairs one `files` element stands for.
pub open spec fn entry_pairs(windows: bool, entry: EntryView) -> Seq<(Seq<char>, TargetView)> {
    match entry {
        EntryView::Simple(input) => seq![
            (input, TargetView::Rename(basename_spec(windows, input))),
        ],
        EntryView::Mapped(map) => map,
    }
}

/// The pairs the first `n` elements stand for, in their order.
pub open spec fn flat_pairs(windows: bool, files: Seq<EntryView>, n: int) -> Seq<
    (Seq<char>, TargetView),
>
    decreases n,
{
    if n <= 0 {
        Seq::empty()
    } else {
        flat_pairs(windows, files, n - 1) + entry_pairs(windows, files[n - 1])
    }
}

/// Flattens a `files` list into ordered input and output pairs.
pub fn flatten_files(windows: bool, files: &[FileEntry]) -> (r: Vec<FileSpec>)
    ensures
        spec_views(r@) == flat_pairs(windows, entry_views(files@), files@.len() as int),
{
    let ghost views = entry_views(files@);
    let mut out: Vec<FileSpec> = Vec::new();
    assert(spec_views(out@) =~= flat_pairs(windows, views, 0));
    let mut i: usize = 0;
    while i < files.len()
        invariant
            i <= files@.len(),
            views == entry_views(files@),
            spec_views(out@) == flat_pairs(windows, views, i as int),
        decreases files@.len() - i,
    {
        let ghost before = out@;
        assert(views[i as int] == files@[i as int]@);
        match &files[i] {
            FileEntry::Simple(input) => {
                out.push(
                    FileSpec {
                        input: input.clone(),
                        output: FileTarget::Rename(basename(windows, input.as_str())),
                    },
                );
                assert(spec_views(out@) =~= flat_pairs(windows, views, i + 1));
            },
            FileEntry::Mapped(map) => {
                let ghost pairs = view_map(map@);
                let mut j: usize = 0;
                while j < map.len()
                    invariant
                        j <= map@.len(),
                        pairs == view_map(map@),
                        spec_views(out@) == spec_views(before) + pairs.take(j as int),
                    decreases map@.len() - j,
                {
                    let ghost held = out@;
                    out.push(
                        FileSpec {
                            input: map.key_at(j).to_owned(),
                            output: map.value_at(j).copy(),
                        },
                    );
                    j += 1;
                    assert(spec_views(out@) =~= spec_views(before) + pairs.take(j as int)) by {
                        assert(spec_views(out@) =~= spec_views(held).push(pairs[j - 1]));
                    }
                }
                assert(pairs.take(j as int) =~= pairs);
            },
        }
        i += 1;
    }
    out
}

/// `hashVersionFile`: either `true` (use the first declared file) or an explicit path.
#[derive(Debug, Clone, PartialEq, Eq)]
pub enum HashVersionFile {
    /// Whether the first declared file is tracked.
    Flag(bool),
    /// The path that is tracked.
    Path(String),
}

/// A `hashVersionFile`, as text.
pub ghost enum HashView {
    Flag(bool),
    Path(Seq<char>),
}

impl View for HashVersionFile {
    type V = HashView;

    open spec fn view(&self) -> HashView {
        match self {
            HashVersionFile::Flag(b) => HashView::Flag(*b),
            HashVersionFile::Path(s) => HashView::Path(s@),
        }
    }
}

impl HashVersionFile {
    /// A copy.
    pub fn copy(&self) -> (r: Self)
        ensures
            r@ == self@,
    {
        match self {
            HashVersionFile::Flag(b) => HashVersionFile::Flag(*b),
            HashVersionFile::Path(s) => HashVersionFile::Path(s.clone()),
        }
    }
}

/// A dependency exactly as written in the config file.
///
/// Every field is optional because it is only validated on `sync`; other commands tolerate
/// missing keys. Field order is the order a newly written dependency has in the config file.
#[derive(Debug)]
pub struct RawDependency {
    /// The version to install.
    pub version: Option<String>,
    /// The repository to install from.
    pub repository: Option<String>,
    /// The files to take.
    pub files: Option<Vec<FileEntry>>,
    /// The file whose last commit is the version.
    pub hash_version_file: Option<HashVersionFile>,
    /// The name it goes by.
    pub name: Option<String>,
    /// The folder its files go to.
    pub vendor_folder: Option<String>,
    /// The expression that the releases to consider match.
    pub release_regex: Option<String>,
    /// Whether it stays at its version.
    pub locked: Option<bool>,
}

/// Options shared by every dependency: the same keys.
pub type DefaultOptions = RawDependency;

/// A dependency's keys, as text.
#[verifier::ext_equal]
pub ghost struct RawView {
    pub version: Option<Seq<char>>,
    pub repository: Option<Seq<char>>,
    pub files: Option<Seq<EntryView>>,
    pub hash_version_file: Option<HashView>,
    pub name: Option<Seq<char>>,
    pub vendor_folder: Option<Seq<char>>,
    pub release_regex: Option<Seq<char>>,
    pub locked: Option<bool>,
}

/// An optional `files` list, as text.
pub open spec fn files_view(files: Option<Vec<FileEntry>>) -> Option<Seq<EntryView>> {
    match files {
        Some(files) => Some(entry_views(files@)),
        None => None,
    }
}

/// An optional `hashVersionFile`, as text.
pub open spec fn hash_view(hash: Option<HashVersionFile>) -> Option<HashView> {
    match hash {
        Some(hash) => Some(hash@),
        None => None,
    }
}

impl View for RawDependency {
    type V = RawView;

    open spec fn view(&self) -> RawView {
        RawView {
            version: text::text_of(self.version),
            repository: text::text_of(self.repository),
            files: files_view(self.files),
            hash_version_file: hash_view(self.hash_version_file),
            name: text::text_of(self.name),
            vendor_folder: text::text_of(self.vendor_folder),
            release_regex: text::text_of(self.release_regex),
            locked: self.locked,
        }
    }
}

/// The first option where it is set, else the second.
pub open spec fn or_else<T>(first: Option<T>, second: Option<T>) -> Option<T> {
    if first is Some {
        first
    } else {
        second
    }
}

/// A dependency with its unset keys filled from the defaults.
pub open spec fn with_defaults(raw: RawView, defaults: RawView) -> RawView {
    RawView {
        version: or_else(raw.version, defaults.version),
        repository: or_else(raw.repository, defaults.repository),
        files: or_else(raw.files, defaults.files),
        hash_version_file: or_else(raw.hash_version_file, defaults.hash_version_file),
        name: or_else(raw.name, defaults.name),
        vendor_folder: or_else(raw.vendor_folder, defaults.vendor_folder),
        release_regex: or_else(raw.release_regex, defaults.release_regex),
        locked: or_else(raw.locked, defaults.locked),
    }
}

/// A copy of an optional string.
pub fn copy_text(s: &Option<String>) -> (r: Option<String>)
    ensures
        text::text_of(r) == text::text_of(*s),
{
    match s {
        Some(s) => Some(s.clone()),
        None => None,
    }
}

/// A copy of an optional `files` list.
pub fn copy_files_option(files: &Option<Vec<FileEntry>>) -> (r: Option<Vec<FileEntry>>)
    ensures
        files_view(r) == files_view(*files),
{
    match files {
        Some(files) => Some(copy_files(files)),
        None => None,
    }
}

/// A copy of an optional `hashVersionFile`.
pub fn copy_hash(hash: &Option<HashVersionFile>) -> (r: Option<HashVersionFile>)
    ensures
        hash_view(r) == hash_view(*hash),
{
    match hash {
        Some(hash) => Some(hash.copy()),
        None => None,
    }
}

/// What `fancy_regex` says is wrong with a text that should be a regular expression, if anything.
pub uninterp spec fn fancy_refusal(pattern: Seq<char>) -> Option<Seq<char>>;

/// Whether `fancy_regex` reads a text as a regular expression.
pub open spec fn fancy_regex_valid(pattern: Seq<char>) -> bool {
    fancy_refusal(pattern) is None
}

/// `fancy_regex::Regex::new` says what is wrong with a text that should be a regular expression,
/// lookaround included. Its grammar and the wording of a refusal are not stated.
#[verifier::external_body]
pub(crate) fn regex_refusal(pattern: &str) -> (r: Option<String>)
    ensures
        text::text_of(r) == fancy_refusal(pattern@),
{
    fancy_regex::Regex::new(pattern).err().map(|error| error.to_string())
}

/// What validation answers, where `regex_valid` says whether the expression is one.
pub open spec fn validation(raw: RawView, regex_valid: bool) -> Verdict {
    if raw.repository is None || !github_url(raw.repository->0) {
        Verdict::BadRepository
    } else if raw.files is None || raw.files->0.len() == 0 {
        Verdict::BadFiles
    } else if raw.release_regex is Some && raw.release_regex->0.len() > 0 && !regex_valid {
        Verdict::BadRegex
    } else {
        Verdict::Fine
    }
}

/// What validation answers.
pub ghost enum Verdict {
    Fine,
    BadRepository,
    BadFiles,
    BadRegex,
}

/// A result of validation speaks for a verdict on the dependency called `name`.
pub open spec fn says(r: Result<(), VendorError>, verdict: Verdict, name: Seq<char>) -> bool {
    match verdict {
        Verdict::Fine => r is Ok,
        Verdict::BadRepository => r matches Err(VendorError::InvalidRepositoryKey { name: n })
            && n@ == name,
        Verdict::BadFiles => r matches Err(VendorError::InvalidFilesKey { name: n }) && n@ == name,
        Verdict::BadRegex => r matches Err(VendorError::InvalidReleaseRegexKey { name: n }) && n@
            == name,
    }
}

/// The name of a dependency: the config key, else its own name, else the repository's.
pub open spec fn name_of(raw: RawView, fallback: Seq<char>, repo: Seq<char>) -> Seq<char> {
    if fallback.len() > 0 {
        fallback
    } else if raw.name is Some && raw.name->0.len() > 0 {
        raw.name->0
    } else {
        repo
    }
}

/// A text, unless it is empty.
pub open spec fn non_empty(s: Option<Seq<char>>) -> Option<Seq<char>> {
    if s is Some && s->0.len() > 0 {
        s
    } else {
        None
    }
}

/// A text, unless it is empty.
pub fn filter_empty(s: &Option<String>) -> (r: Option<String>)
    ensures
        text::text_of(r) == non_empty(text::text_of(*s)),
{
    match s {
        Some(s) => if s.as_str().is_empty() {
            None
        } else {
            Some(s.clone())
        },
        None => None,
    }
}

/// A dependency with everything the install pipeline needs.
#[derive(Debug)]
pub struct Dependency {
    /// The name it goes by.
    pub name: String,
    /// Owner and name of the repository.
    pub repo: Repository,
    /// The repository's URL.
    pub repository: String,
    /// The files to take.
    pub files: Vec<FileEntry>,
    /// The version to install, where the config names one.
    pub version: Option<String>,
    /// The file whose last commit is the version.
    pub hash_version_file: Option<HashVersionFile>,
    /// The folder its files go to.
    pub vendor_folder: Option<String>,
    /// The expression that the releases to consider match.
    pub release_regex: Option<String>,
    /// Whether it stays at its version.
    pub locked: bool,
}

/// A config entry, under its key, is this installable dependency.
pub open spec fn resolved_as(raw: RawView, fallback: Seq<char>, dep: Dependency) -> bool {
    &&& raw.repository is Some
    &&& repo_from(raw.repository->0, 0) == Some((dep.repo.owner@, dep.repo.name@))
    &&& dep.repository@ == raw.repository->0
    &&& dep.name@ == name_of(raw, fallback, dep.repo.name@)
    &&& entry_views(dep.files@) == match raw.files {
        Some(files) => files,
        None => Seq::empty(),
    }
    &&& text::text_of(dep.version) == non_empty(raw.version)
    &&& hash_view(dep.hash_version_file) == raw.hash_version_file
    &&& text::text_of(dep.vendor_folder) == raw.vendor_folder
    &&& text::text_of(dep.release_regex) == non_empty(raw.release_regex)
    &&& dep.locked == (raw.locked == Some(true))
}

/// A config entry is no installable dependency, and this says so: its URL names no repository.
pub open spec fn unresolved(raw: RawView, e: VendorError) -> bool {
    match raw.repository {
        Some(url) => repo_from(url, 0) is None && (e matches VendorError::InvalidGitHubUrl(u) && u@
            == url),
        None => e matches VendorError::InvalidGitHubUrl(u) && u@ == "undefined"@,
    }
}

impl RawDependency {
    /// A dependency of which nothing is said.
    pub fn empty() -> (r: Self)
        ensures
            r@ == (RawView {
                version: None,
                repository: None,
                files: None,
                hash_version_file: None,
                name: None,
                vendor_folder: None,
                release_regex: None,
                locked: None,
            }),
    {
        RawDependency {
            version: None,
            repository: None,
            files: None,
            hash_version_file: None,
            name: None,
            vendor_folder: None,
            release_regex: None,
            locked: None,
        }
    }

    /// A copy.
    pub fn copy(&self) -> (r: Self)
        ensures
            r@ == self@,
    {
        RawDependency {
            version: copy_text(&self.version),
            repository: copy_text(&self.repository),
            files: copy_files_option(&self.files),
            hash_version_file: copy_hash(&self.hash_version_file),
            name: copy_text(&self.name),
            vendor_folder: copy_text(&self.vendor_folder),
            release_regex: copy_text(&self.release_regex),
            locked: self.locked,
        }
    }

    /// Fills unset fields from the config's `default` block.
    pub fn apply_defaults(&mut self, defaults: &DefaultOptions)
        ensures
            final(self)@ == with_defaults(old(self)@, defaults@),
    {
        if self.repository.is_none() {
            self.repository = copy_text(&defaults.repository);
        }
        if self.files.is_none() {
            self.files = copy_files_option(&defaults.files);
        }
        if self.version.is_none() {
            self.version = copy_text(&defaults.version);
        }
        if self.hash_version_file.is_none() {
            self.hash_version_file = copy_hash(&defaults.hash_version_file);
        }
        if self.vendor_folder.is_none() {
            self.vendor_folder = copy_text(&defaults.vendor_folder);
        }
        if self.release_regex.is_none() {
            self.release_regex = copy_text(&defaults.release_regex);
        }
        if self.locked.is_none() {
            self.locked = defaults.locked;
        }
        if self.name.is_none() {
            self.name = copy_text(&defaults.name);
        }
    }

    /// Checks the keys, where `regex_valid` says whether the expression is one.
    pub fn validate_with(&self, name: &str, regex_valid: bool) -> (r: Result<(), VendorError>)
        ensures
            says(r, validation(self@, regex_valid), name@),
    {
        let repository_ok = match &self.repository {
            Some(url) => is_github_url(url.as_str()),
            None => false,
        };
        if !repository_ok {
            return Err(VendorError::InvalidRepositoryKey { name: name.to_owned() });
        }
        let files_ok = match &self.files {
            Some(files) => files.len() > 0,
            None => false,
        };
        if !files_ok {
            return Err(VendorError::InvalidFilesKey { name: name.to_owned() });
        }
        if let Some(regex) = &self.release_regex {
            if !regex.as_str().is_empty() && !regex_valid {
                return Err(VendorError::InvalidReleaseRegexKey { name: name.to_owned() });
            }
        }
        Ok(())
    }

    /// Checks the keys, and names the one that is wrong.
    pub fn validate(&self, name: &str) -> (r: Result<(), VendorError>)
        ensures
            says(
                r,
                validation(
                    self@,
                    self@.release_regex is Some && fancy_regex_valid(self@.release_regex->0),
                ),
                name@,
            ),
    {
        let regex_valid = match &self.release_regex {
            Some(regex) => regex_refusal(regex.as_str()).is_none(),
            None => false,
        };
        self.validate_with(name, regex_valid)
    }

    /// Turns a config entry into an installable [`Dependency`].
    ///
    /// `fallback_name` is the config key, which is preferred over the repository name; `name` is
    /// only consulted when the entry did not come from the dependency map.
    pub fn resolve(&self, fallback_name: &str) -> (r: Result<Dependency, VendorError>)
        ensures
            match r {
                Ok(dep) => resolved_as(self@, fallback_name@, dep),
                Err(e) => unresolved(self@, e),
            },
    {
        let repository = match &self.repository {
            Some(url) => url.clone(),
            None => {
                return Err(VendorError::InvalidGitHubUrl("undefined".to_owned()));
            },
        };
        let repo = match owner_and_name_from_repo_url(repository.as_str()) {
            Ok(repo) => repo,
            Err(e) => {
                return Err(e);
            },
        };
        let name = if !fallback_name.is_empty() {
            fallback_name.to_owned()
        } else {
            match filter_empty(&self.name) {
                Some(name) => name,
                None => repo.name.clone(),
            }
        };
        let files = match &self.files {
            Some(files) => copy_files(files),
            None => {
                let none: Vec<FileEntry> = Vec::new();
                assert(entry_views(none@) =~= Seq::empty());
                none
            },
        };
        Ok(
            Dependency {
                name,
                repo,
                repository,
                files,
                version: filter_empty(&self.version),
                hash_version_file: copy_hash(&self.hash_version_file),
                vendor_folder: copy_text(&self.vendor_folder),
                release_regex: filter_empty(&self.release_regex),
                locked: match self.locked {
                    Some(locked) => locked,
                    None => false,
                },
            },
        )
    }
}

/// The file that `hashVersionFile` tracks: `Ok(None)` for releases, `Err` with what the first
/// element is where it cannot be tracked.
pub open spec fn hash_target(hash: Option<HashView>, files: Seq<EntryView>) -> Result<
    Option<Seq<char>>,
    Option<Seq<char>>,
> {
    match hash {
        None => Ok(None),
        Some(HashView::Flag(false)) => Ok(None),
        Some(HashView::Path(path)) => if path.len() == 0 {
            Ok(None)
        } else {
            Ok(Some(path))
        },
        Some(HashView::Flag(true)) => if files.len() == 0 {
            Err(Some("undefined"@))
        } else {
            match files[0] {
                EntryView::Simple(first) => Ok(Some(first)),
                EntryView::Mapped(map) => if map.len() > 0 {
                    Ok(Some(map[0].0))
                } else {
                    Err(None)
                },
            }
        },
    }
}

impl Dependency {
    /// The `hashVersionFile` path to track, resolving `true` to the first declared file.
    ///
    /// `None` means that releases are tracked instead.
    pub fn hash_version_target(&self) -> (r: Result<Option<String>, VendorError>)
        ensures
            match hash_target(hash_view(self.hash_version_file), entry_views(self.files@)) {
                Ok(path) => r matches Ok(p) && text::text_of(p) == path,
                Err(None) => r matches Err(VendorError::InvalidHashVersionFile),
                Err(Some(what)) => r matches Err(VendorError::InvalidHashVersionFileTarget(w))
                    && w@ == what,
            },
    {
        match &self.hash_version_file {
            None => Ok(None),
            Some(HashVersionFile::Path(path)) => if path.as_str().is_empty() {
                Ok(None)
            } else {
                Ok(Some(path.clone()))
            },
            Some(HashVersionFile::Flag(flag)) => {
                if !*flag {
                    return Ok(None);
                }
                if self.files.len() == 0 {
                    return Err(VendorError::InvalidHashVersionFileTarget("undefined"));
                }
                assert(entry_views(self.files@)[0] == self.files@[0]@);
                match &self.files[0] {
                    FileEntry::Simple(first) => Ok(Some(first.clone())),
                    FileEntry::Mapped(map) => if map.len() > 0 {
                        Ok(Some(map.key_at(0).to_owned()))
                    } else {
                        Err(VendorError::InvalidHashVersionFile)
                    },
                }
            },
        }
    }
}

/// Defaults only fill keys that are absent: a key that is set stays as it is.
pub proof fn defaults_only_fill_absent_keys(raw: RawView, defaults: RawView)
    ensures
        raw.version is Some ==> with_defaults(raw, defaults).version == raw.version,
        raw.repository is Some ==> with_defaults(raw, defaults).repository == raw.repository,
        raw.files is Some ==> with_defaults(raw, defaults).files == raw.files,
        raw.hash_version_file is Some ==> with_defaults(raw, defaults).hash_version_file
            == raw.hash_version_file,
        raw.name is Some ==> with_defaults(raw, defaults).name == raw.name,
        raw.vendor_folder is Some ==> with_defaults(raw, defaults).vendor_folder
            == raw.vendor_folder,
        raw.release_regex is Some ==> with_defaults(raw, defaults).release_regex
            == raw.release_regex,
        raw.locked is Some ==> with_defaults(raw, defaults).locked == raw.locked,
        with_defaults(with_defaults(raw, defaults), defaults) == with_defaults(raw, defaults),
{
}

/// The text a value is, if it is text.
pub open spec fn text_in(value: Option<JsonView>) -> Option<Seq<char>> {
    match value {
        Some(JsonView::Text(s)) => Some(s),
        _ => None,
    }
}

/// The truth value a value is, if it is one.
pub open spec fn bool_in(value: Option<JsonView>) -> Option<bool> {
    match value {
        Some(JsonView::Bool(b)) => Some(b),
        _ => None,
    }
}

/// The target a value describes: text, a list of texts, or a map of texts.
pub open spec fn target_in(value: JsonView) -> Option<TargetView> {
    match value {
        JsonView::Text(s) => Some(TargetView::Rename(s)),
        JsonView::List(items) => if forall|i: int| 0 <= i < items.len() ==> (#[trigger] items[i]) is Text {
            Some(TargetView::ExtractList(Seq::new(items.len(), |i: int| items[i]->Text_0)))
        } else {
            None
        },
        JsonView::Table(map) => if forall|i: int|
            0 <= i < map.len() ==> (#[trigger] map[i]).1 is Text {
            Some(
                TargetView::ExtractMap(
                    Seq::new(map.len(), |i: int| (map[i].0, map[i].1->Text_0)),
                ),
            )
        } else {
            None
        },
        _ => None,
    }
}

/// The `files` element a value describes: text, or a map of targets.
pub open spec fn entry_in(value: JsonView) -> Option<EntryView> {
    match value {
        JsonView::Text(s) => Some(EntryView::Simple(s)),
        JsonView::Table(map) => if forall|i: int|
            0 <= i < map.len() ==> target_in((#[trigger] map[i]).1) is Some {
            Some(
                EntryView::Mapped(
                    Seq::new(map.len(), |i: int| (map[i].0, target_in(map[i].1)->0)),
                ),
            )
        } else {
            None
        },
        _ => None,
    }
}

/// The `files` list a value describes: a list of elements, or text for a list of one.
pub open spec fn files_in(value: Option<JsonView>) -> Option<Seq<EntryView>> {
    match value {
        Some(JsonView::Text(s)) => Some(seq![EntryView::Simple(s)]),
        Some(JsonView::List(items)) => if forall|i: int|
            0 <= i < items.len() ==> entry_in(#[trigger] items[i]) is Some {
            Some(Seq::new(items.len(), |i: int| entry_in(items[i])->0))
        } else {
            None
        },
        _ => None,
    }
}

/// The `hashVersionFile` a value describes: text, or a truth value.
pub open spec fn hash_in(value: Option<JsonView>) -> Option<HashView> {
    match value {
        Some(JsonView::Bool(b)) => Some(HashView::Flag(b)),
        Some(JsonView::Text(s)) => Some(HashView::Path(s)),
        _ => None,
    }
}

/// The keys a value sets; one of the wrong type is as good as absent.
pub open spec fn raw_in(value: JsonView) -> RawView {
    RawView {
        version: text_in(value.get("version"@)),
        repository: text_in(value.get("repository"@)),
        files: files_in(value.get("files"@)),
        hash_version_file: hash_in(value.get("hashVersionFile"@)),
        name: text_in(value.get("name"@)),
        vendor_folder: text_in(value.get("vendorFolder"@)),
        release_regex: text_in(value.get("releaseRegex"@)),
        locked: bool_in(value.get("locked"@)),
    }
}

/// The value at a position of a list, where it is that long.
pub open spec fn item_at(items: Seq<JsonView>, i: int) -> Option<JsonView> {
    if 0 <= i < items.len() {
        Some(items[i])
    } else {
        None
    }
}

/// The dependency a value describes: a table of its keys, or a list of what they hold, in the order
/// in which they are written, the last of them left out at will.
pub open spec fn dependency_in(value: JsonView) -> Option<RawView> {
    match value {
        JsonView::Table(_) => Some(raw_in(value)),
        JsonView::List(items) => if items.len() <= 8 {
            Some(
                RawView {
                    version: text_in(item_at(items, 0)),
                    repository: text_in(item_at(items, 1)),
                    files: files_in(item_at(items, 2)),
                    hash_version_file: hash_in(item_at(items, 3)),
                    name: text_in(item_at(items, 4)),
                    vendor_folder: text_in(item_at(items, 5)),
                    release_regex: text_in(item_at(items, 6)),
                    locked: bool_in(item_at(items, 7)),
                },
            )
        } else {
            None
        },
        _ => None,
    }
}

/// The value that describes a target.
pub open spec fn target_json(target: TargetView) -> JsonView {
    match target {
        TargetView::Rename(s) => JsonView::Text(s),
        TargetView::ExtractList(list) => JsonView::List(
            Seq::new(list.len(), |i: int| JsonView::Text(list[i])),
        ),
        TargetView::ExtractMap(map) => JsonView::Table(
            Seq::new(map.len(), |i: int| (map[i].0, JsonView::Text(map[i].1))),
        ),
    }
}

/// The value that describes a `files` element.
pub open spec fn entry_json(entry: EntryView) -> JsonView {
    match entry {
        EntryView::Simple(s) => JsonView::Text(s),
        EntryView::Mapped(map) => JsonView::Table(
            Seq::new(map.len(), |i: int| (map[i].0, target_json(map[i].1))),
        ),
    }
}

/// The value that describes a `files` list.
pub open spec fn files_json(files: Seq<EntryView>) -> JsonView {
    JsonView::List(Seq::new(files.len(), |i: int| entry_json(files[i])))
}

/// The value that describes a `hashVersionFile`.
pub open spec fn hash_json(hash: HashView) -> JsonView {
    match hash {
        HashView::Flag(b) => JsonView::Bool(b),
        HashView::Path(s) => JsonView::Text(s),
    }
}

/// A map with `key` behind the others, where there is a value for it.
pub open spec fn with_key(
    map: Seq<(Seq<char>, JsonView)>,
    key: Seq<char>,
    value: Option<JsonView>,
) -> Seq<(Seq<char>, JsonView)> {
    match value {
        Some(value) => map.push((key, value)),
        None => map,
    }
}

/// The value of an optional text.
pub open spec fn text_json(s: Option<Seq<char>>) -> Option<JsonView> {
    match s {
        Some(s) => Some(JsonView::Text(s)),
        None => None,
    }
}

/// The value that describes a dependency: the keys it sets, in the order they are written in.
pub open spec fn raw_json(raw: RawView) -> Seq<(Seq<char>, JsonView)> {
    let m0 = Seq::<(Seq<char>, JsonView)>::empty();
    let m1 = with_key(m0, "version"@, text_json(raw.version));
    let m2 = with_key(m1, "repository"@, text_json(raw.repository));
    let m3 = with_key(
        m2,
        "files"@,
        match raw.files {
            Some(files) => Some(files_json(files)),
            None => None,
        },
    );
    let m4 = with_key(
        m3,
        "hashVersionFile"@,
        match raw.hash_version_file {
            Some(hash) => Some(hash_json(hash)),
            None => None,
        },
    );
    let m5 = with_key(m4, "name"@, text_json(raw.name));
    let m6 = with_key(m5, "vendorFolder"@, text_json(raw.vendor_folder));
    let m7 = with_key(m6, "releaseRegex"@, text_json(raw.release_regex));
    with_key(
        m7,
        "locked"@,
        match raw.locked {
            Some(b) => Some(JsonView::Bool(b)),
            None => None,
        },
    )
}

/// An optional document, by its view.
pub open spec fn option_view(value: Option<&Json>) -> Option<JsonView> {
    match value {
        Some(value) => Some(value@),
        None => None,
    }
}

/// Reads text.
fn read_text(value: Option<&Json>) -> (r: Option<String>)
    ensures
        text::text_of(r) == text_in(option_view(value)),
{
    match value {
        Some(value) => match value.as_text() {
            Some(s) => Some(s.to_owned()),
            None => None,
        },
        None => None,
    }
}

/// Reads a truth value.
fn read_bool(value: Option<&Json>) -> (r: Option<bool>)
    ensures
        r == bool_in(option_view(value)),
{
    match value {
        Some(value) => {
            proof {
                lemma_json_view(*value);
            }
            match value {
                Json::Bool(b) => Some(*b),
                _ => None,
            }
        },
        None => None,
    }
}

/// Reads a target.
pub fn read_target(value: &Json) -> (r: Option<FileTarget>)
    ensures
        match r {
            Some(target) => target_in(value@) == Some(target@),
            None => target_in(value@) is None,
        },
{
    proof {
        lemma_json_view(*value);
    }
    match value {
        Json::Text(s) => Some(FileTarget::Rename(s.clone())),
        Json::List(items) => {
            let ghost views = list_view(items@);
            let mut list: Vec<String> = Vec::new();
            let mut i: usize = 0;
            while i < items.len()
                invariant
                    i <= items@.len(),
                    value@ == JsonView::List(views),
                    views == list_view(items@),
                    list@.len() == i,
                    forall|j: int|
                        0 <= j < i ==> (#[trigger] views[j]) is Text && list@[j]@ == views[j]->Text_0,
                decreases items@.len() - i,
            {
                assert(views[i as int] == items@[i as int]@);
                match items[i].as_text() {
                    Some(s) => {
                        list.push(s.to_owned());
                    },
                    None => {
                        assert(!(views[i as int] is Text));
                        return None;
                    },
                }
                i += 1;
            }
            assert(text::texts(list@) =~= Seq::new(views.len(), |i: int| views[i]->Text_0));
            Some(FileTarget::ExtractList(list))
        },
        Json::Table(map) => {
            let ghost views = table_view(map@);
            let n: usize = map.len();
            let mut out: OrderedMap<String> = OrderedMap::new();
            let mut i: usize = 0;
            while i < n
                invariant
                    i <= n == map@.len(),
                    keys_distinct(map@),
                    value@ == JsonView::Table(views),
                    views == table_view(map@),
                    out@.len() == i,
                    forall|j: int|
                        0 <= j < i ==> (#[trigger] views[j]).1 is Text && out@[j].0 == views[j].0
                            && out@[j].1@ == views[j].1->Text_0,
                decreases n - i,
            {
                let key = map.key_at(i);
                let item = map.value_at(i);
                assert(views[i as int] == (key@, item@));
                match item.as_text() {
                    Some(s) => {
                        let ghost before = out@;
                        let held = s.to_owned();
                        proof {
                            assert forall|j: int| 0 <= j < before.len() implies (
                            #[trigger] before[j]).0 != key@ by {
                                assert(views[j].0 == map@[j].0);
                                assert(map@[j].0 != map@[i as int].0);
                            }
                            lemma_insert_new(before, key@, held);
                        }
                        out.insert(key.to_owned(), held);
                    },
                    None => {
                        assert(!(views[i as int].1 is Text));
                        return None;
                    },
                }
                i += 1;
            }
            assert(view_map(out@) =~= Seq::new(
                views.len(),
                |i: int| (views[i].0, views[i].1->Text_0),
            ));
            Some(FileTarget::ExtractMap(out))
        },
        _ => None,
    }
}

/// Reads a `files` element.
fn read_entry(value: &Json) -> (r: Option<FileEntry>)
    ensures
        match r {
            Some(entry) => entry_in(value@) == Some(entry@),
            None => entry_in(value@) is None,
        },
{
    proof {
        lemma_json_view(*value);
    }
    match value {
        Json::Text(s) => Some(FileEntry::Simple(s.clone())),
        Json::Table(map) => {
            let ghost views = table_view(map@);
            let n: usize = map.len();
            let mut out: OrderedMap<FileTarget> = OrderedMap::new();
            let mut i: usize = 0;
            while i < n
                invariant
                    i <= n == map@.len(),
                    keys_distinct(map@),
                    value@ == JsonView::Table(views),
                    views == table_view(map@),
                    out@.len() == i,
                    forall|j: int|
                        0 <= j < i ==> target_in((#[trigger] views[j]).1) is Some && out@[j].0
                            == views[j].0 && out@[j].1@ == target_in(views[j].1)->0,
                decreases n - i,
            {
                let key = map.key_at(i);
                let item = map.value_at(i);
                assert(views[i as int] == (key@, item@));
                match read_target(item) {
                    Some(target) => {
                        let ghost before = out@;
                        proof {
                            assert forall|j: int| 0 <= j < before.len() implies (
                            #[trigger] before[j]).0 != key@ by {
                                assert(views[j].0 == map@[j].0);
                                assert(map@[j].0 != map@[i as int].0);
                            }
                            lemma_insert_new(before, key@, target);
                        }
                        out.insert(key.to_owned(), target);
                    },
                    None => {
                        assert(target_in(views[i as int].1) is None);
                        return None;
                    },
                }
                i += 1;
            }
            assert(view_map(out@) =~= Seq::new(
                views.len(),
                |i: int| (views[i].0, target_in(views[i].1)->0),
            ));
            Some(FileEntry::Mapped(out))
        },
        _ => None,
    }
}

/// Reads a `files` list.
fn read_files(value: Option<&Json>) -> (r: Option<Vec<FileEntry>>)
    ensures
        files_view(r) == files_in(option_view(value)),
{
    let held = match value {
        Some(held) => held,
        None => {
            return None;
        },
    };
    proof {
        lemma_json_view(*held);
    }
    match held {
        Json::Text(s) => {
            let r = vec![FileEntry::Simple(s.clone())];
            assert(entry_views(r@) =~= seq![EntryView::Simple(s@)]);
            Some(r)
        },
        Json::List(items) => {
            let ghost views = list_view(items@);
            let mut out: Vec<FileEntry> = Vec::new();
            let mut i: usize = 0;
            while i < items.len()
                invariant
                    i <= items@.len(),
                    value == Some(held),
                    held@ == JsonView::List(views),
                    views == list_view(items@),
                    out@.len() == i,
                    forall|j: int|
                        0 <= j < i ==> entry_in(#[trigger] views[j]) is Some && out@[j]@ == entry_in(
                            views[j],
                        )->0,
                decreases items@.len() - i,
            {
                assert(views[i as int] == items@[i as int]@);
                match read_entry(&items[i]) {
                    Some(entry) => {
                        out.push(entry);
                    },
                    None => {
                        assert(entry_in(views[i as int]) is None);
                        return None;
                    },
                }
                i += 1;
            }
            assert(entry_views(out@) =~= Seq::new(views.len(), |i: int| entry_in(views[i])->0));
            Some(out)
        },
        _ => None,
    }
}

/// Reads a `hashVersionFile`.
fn read_hash(value: Option<&Json>) -> (r: Option<HashVersionFile>)
    ensures
        hash_view(r) == hash_in(option_view(value)),
{
    match value {
        Some(value) => {
            proof {
                lemma_json_view(*value);
            }
            match value {
                Json::Bool(b) => Some(HashVersionFile::Flag(*b)),
                Json::Text(s) => Some(HashVersionFile::Path(s.clone())),
                _ => None,
            }
        },
        None => None,
    }
}

impl RawDependency {
    /// Reads a dependency as it is written in a config. A key of the wrong type counts as absent,
    /// and text stands for a `files` list of one.
    pub fn from_json(value: &Json) -> (r: Self)
        ensures
            r@ == raw_in(value@),
    {
        RawDependency {
            version: read_text(value.get("version")),
            repository: read_text(value.get("repository")),
            files: read_files(value.get("files")),
            hash_version_file: read_hash(value.get("hashVersionFile")),
            name: read_text(value.get("name")),
            vendor_folder: read_text(value.get("vendorFolder")),
            release_regex: read_text(value.get("releaseRegex")),
            locked: read_bool(value.get("locked")),
        }
    }
}

/// The value at a position of a list, where it is that long.
fn item(items: &Vec<Json>, i: usize) -> (r: Option<&Json>)
    ensures
        option_view(r) == item_at(list_view(items@), i as int),
{
    if i < items.len() {
        Some(&items[i])
    } else {
        None
    }
}

impl RawDependency {
    /// Reads a dependency from a table of its keys, or from a list of what they hold. `None` where
    /// the value is neither, or the list holds more than there are keys.
    pub fn read(value: &Json) -> (r: Option<Self>)
        ensures
            match r {
                Some(raw) => dependency_in(value@) == Some(raw@),
                None => dependency_in(value@) is None,
            },
    {
        proof {
            lemma_json_view(*value);
        }
        match value {
            Json::Table(_) => Some(RawDependency::from_json(value)),
            Json::List(items) => if items.len() <= 8 {
                Some(
                    RawDependency {
                        version: read_text(item(items, 0)),
                        repository: read_text(item(items, 1)),
                        files: read_files(item(items, 2)),
                        hash_version_file: read_hash(item(items, 3)),
                        name: read_text(item(items, 4)),
                        vendor_folder: read_text(item(items, 5)),
                        release_regex: read_text(item(items, 6)),
                        locked: read_bool(item(items, 7)),
                    },
                )
            } else {
                None
            },
            _ => None,
        }
    }
}

/// A map with `key` behind the others, where there is a value for it and no other has its name.
fn push_key(map: &mut OrderedMap<Json>, key: &str, value: Option<Json>)
    requires
        forall|i: int| 0 <= i < old(map)@.len() ==> (#[trigger] old(map)@[i]).0 != key@,
    ensures
        table_view(final(map)@) == with_key(
            table_view(old(map)@),
            key@,
            match value {
                Some(value) => Some(value@),
                None => None,
            },
        ),
        final(map)@.len() >= old(map)@.len(),
        forall|i: int|
            0 <= i < final(map)@.len() ==> (#[trigger] final(map)@[i]).0 == if i < old(map)@.len() {
                old(map)@[i].0
            } else {
                key@
            },
{
    if let Some(value) = value {
        let ghost before = map@;
        proof {
            lemma_insert_new(before, key@, value);
        }
        map.insert(key.to_owned(), value);
        assert(table_view(map@) =~= table_view(before).push((key@, value@)));
    }
}

/// Writes text.
fn write_text(s: &Option<String>) -> (r: Option<Json>)
    ensures
        match r {
            Some(value) => text_json(text::text_of(*s)) == Some(value@),
            None => *s is None,
        },
{
    match s {
        Some(s) => {
            let r = Json::Text(s.clone());
            proof {
                lemma_json_view(r);
            }
            Some(r)
        },
        None => None,
    }
}

/// Writes a target.
pub fn write_target(target: &FileTarget) -> (r: Json)
    ensures
        r@ == target_json(target@),
{
    let r = match target {
        FileTarget::Rename(s) => Json::Text(s.clone()),
        FileTarget::ExtractList(list) => {
            let mut out: Vec<Json> = Vec::new();
            let mut i: usize = 0;
            while i < list.len()
                invariant
                    i <= list@.len(),
                    out@.len() == i,
                    forall|j: int| 0 <= j < i ==> (#[trigger] out@[j])@ == JsonView::Text(list@[j]@),
                decreases list@.len() - i,
            {
                let item = Json::Text(list[i].clone());
                proof {
                    lemma_json_view(item);
                }
                out.push(item);
                i += 1;
            }
            assert(list_view(out@) =~= target_json(target@)->List_0);
            Json::List(out)
        },
        FileTarget::ExtractMap(map) => {
            let n: usize = map.len();
            let mut out: OrderedMap<Json> = OrderedMap::new();
            let mut i: usize = 0;
            while i < n
                invariant
                    i <= n == map@.len(),
                    keys_distinct(map@),
                    out@.len() == i,
                    forall|j: int|
                        0 <= j < i ==> (#[trigger] out@[j]).0 == map@[j].0 && out@[j].1@
                            == JsonView::Text(map@[j].1@),
                decreases n - i,
            {
                let key = map.key_at(i);
                let item = Json::Text(map.value_at(i).clone());
                let ghost before = out@;
                proof {
                    lemma_json_view(item);
                    assert forall|j: int| 0 <= j < before.len() implies (#[trigger] before[j]).0
                        != key@ by {
                        assert(map@[j].0 != map@[i as int].0);
                    }
                    lemma_insert_new(before, key@, item);
                }
                out.insert(key.to_owned(), item);
                i += 1;
            }
            assert(table_view(out@) =~= target_json(target@)->Table_0);
            Json::Table(out)
        },
    };
    proof {
        lemma_json_view(r);
    }
    r
}

/// Writes a `files` element.
fn write_entry(entry: &FileEntry) -> (r: Json)
    ensures
        r@ == entry_json(entry@),
{
    let r = match entry {
        FileEntry::Simple(s) => Json::Text(s.clone()),
        FileEntry::Mapped(map) => {
            let n: usize = map.len();
            let mut out: OrderedMap<Json> = OrderedMap::new();
            let mut i: usize = 0;
            while i < n
                invariant
                    i <= n == map@.len(),
                    keys_distinct(map@),
                    out@.len() == i,
                    forall|j: int|
                        0 <= j < i ==> (#[trigger] out@[j]).0 == map@[j].0 && out@[j].1@
                            == target_json(map@[j].1@),
                decreases n - i,
            {
                let key = map.key_at(i);
                let item = write_target(map.value_at(i));
                let ghost before = out@;
                proof {
                    assert forall|j: int| 0 <= j < before.len() implies (#[trigger] before[j]).0
                        != key@ by {
                        assert(map@[j].0 != map@[i as int].0);
                    }
                    lemma_insert_new(before, key@, item);
                }
                out.insert(key.to_owned(), item);
                i += 1;
            }
            assert(table_view(out@) =~= entry_json(entry@)->Table_0);
            Json::Table(out)
        },
    };
    proof {
        lemma_json_view(r);
    }
    r
}

/// Writes a `files` list.
pub fn write_files(files: &Vec<FileEntry>) -> (r: Json)
    ensures
        r@ == files_json(entry_views(files@)),
{
    let mut out: Vec<Json> = Vec::new();
    let mut i: usize = 0;
    while i < files.len()
        invariant
            i <= files@.len(),
            out@.len() == i,
            forall|j: int| 0 <= j < i ==> (#[trigger] out@[j])@ == entry_json(files@[j]@),
        decreases files@.len() - i,
    {
        out.push(write_entry(&files[i]));
        i += 1;
    }
    assert(list_view(out@) =~= files_json(entry_views(files@))->List_0);
    let r = Json::List(out);
    proof {
        lemma_json_view(r);
    }
    r
}

/// The names of a dependency's keys are eight different texts.
proof fn lemma_key_names()
    ensures
        seq![
            "version"@,
            "repository"@,
            "files"@,
            "hashVersionFile"@,
            "name"@,
            "vendorFolder"@,
            "releaseRegex"@,
            "locked"@,
        ].no_duplicates(),
{
    reveal_strlit("version");
    reveal_strlit("repository");
    reveal_strlit("files");
    reveal_strlit("hashVersionFile");
    reveal_strlit("name");
    reveal_strlit("vendorFolder");
    reveal_strlit("releaseRegex");
    reveal_strlit("locked");
    assert("version"@.len() == 7);
    assert("repository"@.len() == 10);
    assert("files"@.len() == 5);
    assert("hashVersionFile"@.len() == 15);
    assert("name"@.len() == 4);
    assert("vendorFolder"@.len() == 12);
    assert("releaseRegex"@.len() == 12);
    assert("locked"@.len() == 6);
    assert("vendorFolder"@[0] == 'v');
    assert("releaseRegex"@[0] == 'r');
}

impl RawDependency {
    /// Writes a dependency as it stands in a config: the keys it sets, in their order.
    pub fn to_json(&self) -> (r: Json)
        ensures
            r@ == JsonView::Table(raw_json(self@)),
    {
        let mut map: OrderedMap<Json> = OrderedMap::new();
        assert(table_view(map@) =~= Seq::empty());
        proof {
            lemma_key_names();
        }
        let ghost names = seq![
            "version"@,
            "repository"@,
            "files"@,
            "hashVersionFile"@,
            "name"@,
            "vendorFolder"@,
            "releaseRegex"@,
            "locked"@,
        ];
        let ghost m0 = map@;
        push_key(&mut map, "version", write_text(&self.version));
        proof {
            lemma_named_step(m0, map@, names, 0);
        }
        let ghost m1 = map@;
        push_key(&mut map, "repository", write_text(&self.repository));
        proof {
            lemma_named_step(m1, map@, names, 1);
        }
        let files = match &self.files {
            Some(files) => Some(write_files(files)),
            None => None,
        };
        let ghost m2 = map@;
        push_key(&mut map, "files", files);
        proof {
            lemma_named_step(m2, map@, names, 2);
        }
        let hash = match &self.hash_version_file {
            Some(hash) => {
                let value = match hash {
                    HashVersionFile::Flag(b) => Json::Bool(*b),
                    HashVersionFile::Path(s) => Json::Text(s.clone()),
                };
                proof {
                    lemma_json_view(value);
                }
                Some(value)
            },
            None => None,
        };
        let ghost m3 = map@;
        push_key(&mut map, "hashVersionFile", hash);
        proof {
            lemma_named_step(m3, map@, names, 3);
        }
        let ghost m4 = map@;
        push_key(&mut map, "name", write_text(&self.name));
        proof {
            lemma_named_step(m4, map@, names, 4);
        }
        let ghost m5 = map@;
        push_key(&mut map, "vendorFolder", write_text(&self.vendor_folder));
        proof {
            lemma_named_step(m5, map@, names, 5);
        }
        let ghost m6 = map@;
        push_key(&mut map, "releaseRegex", write_text(&self.release_regex));
        proof {
            lemma_named_step(m6, map@, names, 6);
        }
        let locked = match self.locked {
            Some(b) => {
                let value = Json::Bool(b);
                proof {
                    lemma_json_view(value);
                }
                Some(value)
            },
            None => None,
        };
        push_key(&mut map, "locked", locked);
        let r = Json::Table(map);
        proof {
            lemma_json_view(r);
        }
        r
    }
}

/// A map whose entries have the first `k` names, with entries of the next name behind them.
proof fn lemma_named_step(
    before: Seq<(Seq<char>, Json)>,
    after: Seq<(Seq<char>, Json)>,
    names: Seq<Seq<char>>,
    k: int,
)
    requires
        0 <= k,
        k + 1 < names.len(),
        names.no_duplicates(),
        named_below(before, names, k),
        after.len() >= before.len(),
        forall|i: int|
            0 <= i < after.len() ==> (#[trigger] after[i]).0 == if i < before.len() {
                before[i].0
            } else {
                names[k]
            },
    ensures
        named_below(after, names, k + 1),
        forall|i: int| 0 <= i < after.len() ==> (#[trigger] after[i]).0 != names[k + 1],
{
    assert forall|i: int| 0 <= i < after.len() implies one_of(
        (#[trigger] after[i]).0,
        names,
        k + 1,
    ) by {
        if i < before.len() {
            assert(one_of(before[i].0, names, k));
            let j = choose|j: int| 0 <= j < k && before[i].0 == #[trigger] names[j];
            assert(after[i].0 == names[j]);
        } else {
            assert(after[i].0 == names[k]);
        }
    }
    assert forall|i: int| 0 <= i < after.len() implies (#[trigger] after[i]).0 != names[k + 1] by {
        assert(one_of(after[i].0, names, k + 1));
        let j = choose|j: int| 0 <= j < k + 1 && after[i].0 == #[trigger] names[j];
        assert(names[j] != names[k + 1]);
    }
}

/// Every entry of a map has one of the first `n` names.
spec fn named_below(map: Seq<(Seq<char>, Json)>, names: Seq<Seq<char>>, n: int) -> bool {
    forall|i: int| 0 <= i < map.len() ==> one_of((#[trigger] map[i]).0, names, n)
}

/// A name is one of the first `n`.
spec fn one_of(name: Seq<char>, names: Seq<Seq<char>>, n: int) -> bool {
    exists|k: int| 0 <= k < n && name == #[trigger] names[k]
}

/// Reading back what `with_key` wrote, and what it left.
proof fn lemma_with_key_get(
    map: Seq<(Seq<char>, JsonView)>,
    key: Seq<char>,
    value: Option<JsonView>,
    other: Seq<char>,
)
    ensures
        key != other ==> map_get(with_key(map, key, value), other) == map_get(map, other),
        map_get(map, key) is None ==> map_get(with_key(map, key, value), key) == value,
{
    let after = with_key(map, key, value);
    lemma_key_index(map, other, 0);
    lemma_key_index(after, other, 0);
    lemma_key_index(map, key, 0);
    lemma_key_index(after, key, 0);
    if value is Some {
        assert(after[map.len() as int].0 == key);
        assert forall|i: int| 0 <= i < map.len() implies after[i] == map[i] by {}
        match (crate::value::key_index(map, other, 0), crate::value::key_index(after, other, 0)) {
            (Some(a), Some(b)) => {
                assert(after[a] == map[a]);
                if b < a {
                    assert(after[b] == map[b]);
                }
            },
            (Some(a), None) => {
                assert(after[a] == map[a]);
            },
            (None, Some(b)) => {
                if b < map.len() {
                    assert(after[b] == map[b]);
                }
            },
            (None, None) => {},
        }
        if map_get(map, key) is None {
            let k = crate::value::key_index(after, key, 0)->0;
            if k < map.len() {
                assert(after[k] == map[k]);
            }
        }
    }
}

/// What describes a target is read back as that target.
pub proof fn target_round_trip(target: TargetView)
    ensures
        target_in(target_json(target)) == Some(target),
{
    let value = target_json(target);
    match target {
        TargetView::Rename(_) => {},
        TargetView::ExtractList(list) => {
            let items = value->List_0;
            assert(Seq::new(items.len(), |i: int| items[i]->Text_0) =~= list);
        },
        TargetView::ExtractMap(map) => {
            let pairs = value->Table_0;
            assert(Seq::new(pairs.len(), |i: int| (pairs[i].0, pairs[i].1->Text_0)) =~= map);
        },
    }
}

/// What describes a `files` list is read back as that list.
proof fn lemma_files_round_trip(files: Seq<EntryView>)
    ensures
        files_in(Some(files_json(files))) == Some(files),
{
    let items = files_json(files)->List_0;
    assert forall|i: int| 0 <= i < items.len() implies entry_in(#[trigger] items[i]) == Some(
        files[i],
    ) by {
        match files[i] {
            EntryView::Simple(_) => {},
            EntryView::Mapped(map) => {
                let pairs = items[i]->Table_0;
                assert forall|j: int| 0 <= j < pairs.len() implies target_in((#[trigger] pairs[j]).1)
                    == Some(map[j].1) by {
                    target_round_trip(map[j].1);
                }
                assert(Seq::new(pairs.len(), |j: int| (pairs[j].0, target_in(pairs[j].1)->0))
                    =~= map);
            },
        }
    }
    assert(Seq::new(items.len(), |i: int| entry_in(items[i])->0) =~= files);
}

/// What is written of a dependency is read back as it was.
pub proof fn reading_undoes_writing(raw: RawView)
    ensures
        raw_in(JsonView::Table(raw_json(raw))) == raw,
{
    lemma_key_names();
    let names = seq![
        "version"@,
        "repository"@,
        "files"@,
        "hashVersionFile"@,
        "name"@,
        "vendorFolder"@,
        "releaseRegex"@,
        "locked"@,
    ];
    let m0 = Seq::<(Seq<char>, JsonView)>::empty();
    let v1 = text_json(raw.version);
    let m1 = with_key(m0, names[0], v1);
    let v2 = text_json(raw.repository);
    let m2 = with_key(m1, names[1], v2);
    let v3 = match raw.files {
        Some(files) => Some(files_json(files)),
        None => None,
    };
    let m3 = with_key(m2, names[2], v3);
    let v4 = match raw.hash_version_file {
        Some(hash) => Some(hash_json(hash)),
        None => None,
    };
    let m4 = with_key(m3, names[3], v4);
    let v5 = text_json(raw.name);
    let m5 = with_key(m4, names[4], v5);
    let v6 = text_json(raw.vendor_folder);
    let m6 = with_key(m5, names[5], v6);
    let v7 = text_json(raw.release_regex);
    let m7 = with_key(m6, names[6], v7);
    let v8 = match raw.locked {
        Some(b) => Some(JsonView::Bool(b)),
        None => None,
    };
    let m8 = with_key(m7, names[7], v8);
    assert forall|k: int| 0 <= k < 8 implies map_get(m0, #[trigger] names[k]) is None by {}
    assert forall|k: int| 0 <= k < 8 implies map_get(m8, #[trigger] names[k]) == seq![
        v1,
        v2,
        v3,
        v4,
        v5,
        v6,
        v7,
        v8,
    ][k] by {
        lemma_with_key_get(m0, names[0], v1, names[k]);
        lemma_with_key_get(m1, names[1], v2, names[k]);
        lemma_with_key_get(m2, names[2], v3, names[k]);
        lemma_with_key_get(m3, names[3], v4, names[k]);
        lemma_with_key_get(m4, names[4], v5, names[k]);
        lemma_with_key_get(m5, names[5], v6, names[k]);
        lemma_with_key_get(m6, names[6], v7, names[k]);
        lemma_with_key_get(m7, names[7], v8, names[k]);
    }
    assert(m8 == raw_json(raw));
    let value = JsonView::Table(m8);
    assert(value.get(names[0]) == v1);
    assert(value.get(names[1]) == v2);
    assert(value.get(names[2]) == v3);
    assert(value.get(names[3]) == v4);
    assert(value.get(names[4]) == v5);
    assert(value.get(names[5]) == v6);
    assert(value.get(names[6]) == v7);
    assert(value.get(names[7]) == v8);
    if raw.files is Some {
        lemma_files_round_trip(raw.files->0);
    }
    assert(raw_in(value) =~= raw);
}

/// An option, unless it says the same as another.
pub open spec fn unless_same<T>(first: Option<T>, second: Option<T>) -> Option<T> {
    if first == second {
        None
    } else {
        first
    }
}

/// A dependency without the keys that only restate the defaults.
pub open spec fn without_defaults(raw: RawView, defaults: RawView) -> RawView {
    RawView {
        version: unless_same(raw.version, defaults.version),
        repository: unless_same(raw.repository, defaults.repository),
        files: unless_same(raw.files, defaults.files),
        hash_version_file: unless_same(raw.hash_version_file, defaults.hash_version_file),
        name: unless_same(raw.name, defaults.name),
        vendor_folder: unless_same(raw.vendor_folder, defaults.vendor_folder),
        release_regex: unless_same(raw.release_regex, defaults.release_regex),
        locked: unless_same(raw.locked, defaults.locked),
    }
}

/// Whether two optional strings are the same.
pub fn same_option(a: &Option<String>, b: &Option<String>) -> (r: bool)
    ensures
        r == (text::text_of(*a) == text::text_of(*b)),
{
    match (a, b) {
        (Some(x), Some(y)) => text::equal(x.as_str(), y.as_str()),
        (None, None) => true,
        _ => false,
    }
}

/// Whether two maps of strings are the same, in the same order.
fn same_name_maps(a: &OrderedMap<String>, b: &OrderedMap<String>) -> (r: bool)
    ensures
        r == (view_map(a@) == view_map(b@)),
{
    let ghost x = view_map(a@);
    let ghost y = view_map(b@);
    let n: usize = a.len();
    if n != b.len() {
        assert(x.len() != y.len());
        return false;
    }
    let mut i: usize = 0;
    while i < n
        invariant
            i <= n == x.len() == y.len(),
            x == view_map(a@),
            y == view_map(b@),
            forall|j: int| 0 <= j < i ==> x[j] == y[j],
        decreases n - i,
    {
        if !text::equal(a.key_at(i), b.key_at(i)) || !text::equal(
            a.value_at(i).as_str(),
            b.value_at(i).as_str(),
        ) {
            assert(x[i as int] != y[i as int]);
            return false;
        }
        i += 1;
    }
    assert(x =~= y);
    true
}

/// Whether two targets are the same, in the same order.
fn same_targets(a: &FileTarget, b: &FileTarget) -> (r: bool)
    ensures
        r == (a@ == b@),
{
    match (a, b) {
        (FileTarget::Rename(x), FileTarget::Rename(y)) => text::equal(x.as_str(), y.as_str()),
        (FileTarget::ExtractList(x), FileTarget::ExtractList(y)) => crate::lockfile::same_texts(
            x,
            y,
        ),
        (FileTarget::ExtractMap(x), FileTarget::ExtractMap(y)) => same_name_maps(x, y),
        _ => false,
    }
}

/// Whether two `files` elements are the same, in the same order.
fn same_entries(a: &FileEntry, b: &FileEntry) -> (r: bool)
    ensures
        r == (a@ == b@),
{
    match (a, b) {
        (FileEntry::Simple(x), FileEntry::Simple(y)) => text::equal(x.as_str(), y.as_str()),
        (FileEntry::Mapped(p), FileEntry::Mapped(q)) => {
            let ghost x = view_map(p@);
            let ghost y = view_map(q@);
            let n: usize = p.len();
            if n != q.len() {
                assert(x.len() != y.len());
                return false;
            }
            let mut i: usize = 0;
            while i < n
                invariant
                    i <= n == x.len() == y.len(),
                    x == view_map(p@),
                    y == view_map(q@),
                    a@ == EntryView::Mapped(x),
                    b@ == EntryView::Mapped(y),
                    forall|j: int| 0 <= j < i ==> x[j] == y[j],
                decreases n - i,
            {
                if !text::equal(p.key_at(i), q.key_at(i)) || !same_targets(
                    p.value_at(i),
                    q.value_at(i),
                ) {
                    assert(x[i as int] != y[i as int]);
                    return false;
                }
                i += 1;
            }
            assert(x =~= y);
            true
        },
        _ => false,
    }
}

/// Whether two optional `files` lists are the same, in the same order.
fn same_file_lists(a: &Option<Vec<FileEntry>>, b: &Option<Vec<FileEntry>>) -> (r: bool)
    ensures
        r == (files_view(*a) == files_view(*b)),
{
    match (a, b) {
        (Some(p), Some(q)) => {
            let ghost x = entry_views(p@);
            let ghost y = entry_views(q@);
            if p.len() != q.len() {
                assert(x.len() != y.len());
                return false;
            }
            let mut i: usize = 0;
            while i < p.len()
                invariant
                    i <= p@.len() == q@.len(),
                    x == entry_views(p@),
                    y == entry_views(q@),
                    files_view(*a) == Some(x),
                    files_view(*b) == Some(y),
                    forall|j: int| 0 <= j < i ==> x[j] == y[j],
                decreases p@.len() - i,
            {
                if !same_entries(&p[i], &q[i]) {
                    assert(x[i as int] != y[i as int]);
                    return false;
                }
                i += 1;
            }
            assert(x =~= y);
            true
        },
        (None, None) => true,
        _ => false,
    }
}

/// Whether two optional `hashVersionFile` values are the same.
fn same_hashes(a: &Option<HashVersionFile>, b: &Option<HashVersionFile>) -> (r: bool)
    ensures
        r == (hash_view(*a) == hash_view(*b)),
{
    match (a, b) {
        (Some(HashVersionFile::Flag(x)), Some(HashVersionFile::Flag(y))) => *x == *y,
        (Some(HashVersionFile::Path(x)), Some(HashVersionFile::Path(y))) => text::equal(
            x.as_str(),
            y.as_str(),
        ),
        (None, None) => true,
        _ => false,
    }
}

impl RawDependency {
    /// Drops the keys that only restate the config's `default` block, so that writing an entry
    /// back does not repeat the defaults in it.
    pub fn strip_defaults(&mut self, defaults: &DefaultOptions)
        ensures
            final(self)@ == without_defaults(old(self)@, defaults@),
    {
        if same_option(&self.version, &defaults.version) {
            self.version = None;
        }
        if same_option(&self.repository, &defaults.repository) {
            self.repository = None;
        }
        if same_file_lists(&self.files, &defaults.files) {
            self.files = None;
        }
        if same_hashes(&self.hash_version_file, &defaults.hash_version_file) {
            self.hash_version_file = None;
        }
        if same_option(&self.name, &defaults.name) {
            self.name = None;
        }
        if same_option(&self.vendor_folder, &defaults.vendor_folder) {
            self.vendor_folder = None;
        }
        if same_option(&self.release_regex, &defaults.release_regex) {
            self.release_regex = None;
        }
        let same_lock = match (self.locked, defaults.locked) {
            (Some(x), Some(y)) => x == y,
            (None, None) => true,
            _ => false,
        };
        if same_lock {
            self.locked = None;
        }
    }
}

/// Dropping the defaults from an entry that had them folded in, and folding them in again, gives
/// the entry back.
pub proof fn stripped_defaults_come_back(raw: RawView, defaults: RawView)
    ensures
        ({
            let folded = with_defaults(raw, defaults);
            with_defaults(without_defaults(folded, defaults), defaults) == folded
        }),
{
}

/// A dependency has what its entry says: the repository, the files, the version, the folder, the
/// pattern of its releases. It goes by its key, and is locked only where the entry says so.
pub proof fn a_dependency_has_what_its_entry_says(raw: RawView, key: Seq<char>, dep: Dependency)
    requires
        resolved_as(raw, key, dep),
    ensures
        Some(dep.repository@) == raw.repository,
        key.len() > 0 ==> dep.name@ == key,
        key.len() == 0 && raw.name is Some && raw.name->0.len() > 0 ==> dep.name@ == raw.name->0,
        key.len() == 0 && raw.name is None ==> dep.name@ == dep.repo.name@,
        raw.files is Some ==> entry_views(dep.files@) == raw.files->0,
        raw.files is None ==> dep.files@.len() == 0,
        raw.version is Some && raw.version->0.len() > 0 ==> text::text_of(dep.version)
            == raw.version,
        raw.version is None || raw.version->0.len() == 0 ==> dep.version is None,
        raw.release_regex is Some && raw.release_regex->0.len() > 0 ==> text::text_of(
            dep.release_regex,
        ) == raw.release_regex,
        raw.release_regex is None || raw.release_regex->0.len() == 0 ==> dep.release_regex is None,
        text::text_of(dep.vendor_folder) == raw.vendor_folder,
        raw.locked == Some(true) <==> dep.locked,
        hash_view(dep.hash_version_file) == raw.hash_version_file,
{
    assert(entry_views(dep.files@).len() == dep.files@.len());
}

/// An entry is fine exactly where it has a GitHub repository, at least one file, and no pattern of
/// releases that is no regular expression. What is missing first is what is said.
pub proof fn an_entry_needs_a_repository_and_files(raw: RawView, regex_valid: bool)
    ensures
        validation(raw, regex_valid) is Fine <==> (raw.repository is Some && github_url(
            raw.repository->0,
        ) && raw.files is Some && raw.files->0.len() > 0 && (regex_valid || raw.release_regex is None
            || raw.release_regex->0.len() == 0)),
        validation(raw, regex_valid) is BadRepository <==> (raw.repository is None || !github_url(
            raw.repository->0,
        )),
        validation(raw, regex_valid) is BadFiles ==> raw.files is None || raw.files->0.len() == 0,
        validation(raw, regex_valid) is BadRegex ==> !regex_valid && raw.release_regex is Some
            && raw.release_regex->0.len() > 0,
{
}

/// An entry reads its keys, each under its own name; a key that is absent is not set.
pub proof fn an_entry_reads_its_keys(value: JsonView, s: Seq<char>, b: bool)
    requires
        value is Table,
    ensures
        dependency_in(value) == Some(raw_in(value)),
        value.get("version"@) == Some(JsonView::Text(s)) ==> raw_in(value).version == Some(s),
        value.get("repository"@) == Some(JsonView::Text(s)) ==> raw_in(value).repository == Some(s),
        value.get("name"@) == Some(JsonView::Text(s)) ==> raw_in(value).name == Some(s),
        value.get("vendorFolder"@) == Some(JsonView::Text(s)) ==> raw_in(value).vendor_folder
            == Some(s),
        value.get("releaseRegex"@) == Some(JsonView::Text(s)) ==> raw_in(value).release_regex
            == Some(s),
        value.get("locked"@) == Some(JsonView::Bool(b)) ==> raw_in(value).locked == Some(b),
        value.get("hashVersionFile"@) == Some(JsonView::Bool(b)) ==> raw_in(value).hash_version_file
            == Some(HashView::Flag(b)),
        value.get("hashVersionFile"@) == Some(JsonView::Text(s)) ==> raw_in(value).hash_version_file
            == Some(HashView::Path(s)),
        value.get("files"@) == Some(JsonView::Text(s)) ==> raw_in(value).files == Some(
            seq![EntryView::Simple(s)],
        ),
        value.get("version"@) is None ==> raw_in(value).version is None,
        value.get("repository"@) is None ==> raw_in(value).repository is None,
        value.get("name"@) is None ==> raw_in(value).name is None,
        value.get("vendorFolder"@) is None ==> raw_in(value).vendor_folder is None,
        value.get("releaseRegex"@) is None ==> raw_in(value).release_regex is None,
        value.get("locked"@) is None ==> raw_in(value).locked is None,
        value.get("hashVersionFile"@) is None ==> raw_in(value).hash_version_file is None,
        value.get("files"@) is None ==> raw_in(value).files is None,
{
}

/// A list of files is read element by element, in order: a text is a path, and a table maps paths to
/// what becomes of them. A text renames, a list takes members out under their own names, and a table
/// under the names it gives them.
pub proof fn files_are_read_in_order(items: Seq<JsonView>, i: int)
    requires
        0 <= i < items.len(),
        files_in(Some(JsonView::List(items))) is Some,
    ensures
        ({
            let files = files_in(Some(JsonView::List(items)))->0;
            &&& files.len() == items.len()
            &&& items[i] matches JsonView::Text(s) ==> files[i] == EntryView::Simple(s)
            &&& items[i] matches JsonView::Table(map) ==> (files[i] matches EntryView::Mapped(pairs)
                && pairs.len() == map.len() && forall|j: int|
                0 <= j < map.len() ==> (#[trigger] pairs[j]).0 == map[j].0 && (match map[j].1 {
                    JsonView::Text(s) => pairs[j].1 == TargetView::Rename(s),
                    JsonView::List(list) => pairs[j].1 matches TargetView::ExtractList(names)
                        && names.len() == list.len() && forall|k: int|
                        0 <= k < list.len() ==> JsonView::Text(#[trigger] names[k]) == list[k],
                    JsonView::Table(inner) => pairs[j].1 matches TargetView::ExtractMap(names)
                        && names.len() == inner.len() && forall|k: int|
                        0 <= k < inner.len() ==> (#[trigger] names[k]).0 == inner[k].0
                            && JsonView::Text(names[k].1) == inner[k].1,
                    _ => false,
                }))
            &&& items[i] is Text || items[i] is Table
        }),
{
    assert(entry_in(items[i]) is Some);
    if let JsonView::Table(map) = items[i] {
        assert forall|j: int| 0 <= j < map.len() implies target_in((#[trigger] map[j]).1) is Some by {
        }
    }
}

/// What the elements of a `files` list stand for follows their order: a path is saved under its last
/// component, and a map stands for its own pairs.
pub proof fn a_files_list_is_flattened_in_order(windows: bool, files: Seq<EntryView>, n: int)
    requires
        0 < n <= files.len(),
    ensures
        ({
            let before = flat_pairs(windows, files, n - 1);
            let after = flat_pairs(windows, files, n);
            &&& after.take(before.len() as int) == before
            &&& files[n - 1] matches EntryView::Simple(path) ==> after.len() == before.len() + 1
                && after.last() == (path, TargetView::Rename(basename_spec(windows, path)))
            &&& files[n - 1] matches EntryView::Mapped(map) ==> after.len() == before.len()
                + map.len() && after.skip(before.len() as int) == map
            &&& flat_pairs(windows, files, 0).len() == 0
        }),
{
    let before = flat_pairs(windows, files, n - 1);
    let after = flat_pairs(windows, files, n);
    assert(after.take(before.len() as int) =~= before);
    if let EntryView::Mapped(map) = files[n - 1] {
        assert(after.skip(before.len() as int) =~= map);
    }
}

/// The file whose commit is the version: the one named, or with a bare flag the first that is
/// declared. Without the key, with the flag off or with an empty name, releases are what counts.
pub proof fn the_tracked_file_is_the_one_named(files: Seq<EntryView>, path: Seq<char>)
    ensures
        hash_target(None, files) == Ok::<Option<Seq<char>>, Option<Seq<char>>>(None),
        hash_target(Some(HashView::Flag(false)), files) == Ok::<
            Option<Seq<char>>,
            Option<Seq<char>>,
        >(None),
        hash_target(Some(HashView::Path(path)), files) == Ok::<
            Option<Seq<char>>,
            Option<Seq<char>>,
        >(
            if path.len() > 0 {
                Some(path)
            } else {
                None
            },
        ),
        files.len() > 0 && files[0] == EntryView::Simple(path) ==> hash_target(
            Some(HashView::Flag(true)),
            files,
        ) == Ok::<Option<Seq<char>>, Option<Seq<char>>>(Some(path)),
        files.len() > 0 ==> (files[0] matches EntryView::Mapped(map) ==> (map.len() > 0 && map[0].0
            == path ==> hash_target(Some(HashView::Flag(true)), files) == Ok::<
            Option<Seq<char>>,
            Option<Seq<char>>,
        >(Some(path)))),
        files.len() == 0 ==> hash_target(Some(HashView::Flag(true)), files) is Err,
{
}

/// Defaults fill what is absent, with what they say of that very key.
pub proof fn an_absent_key_is_the_defaults(raw: RawView, defaults: RawView)
    ensures
        ({
            let filled = with_defaults(raw, defaults);
            &&& raw.version is None ==> filled.version == defaults.version
            &&& raw.repository is None ==> filled.repository == defaults.repository
            &&& raw.files is None ==> filled.files == defaults.files
            &&& raw.hash_version_file is None ==> filled.hash_version_file
                == defaults.hash_version_file
            &&& raw.name is None ==> filled.name == defaults.name
            &&& raw.vendor_folder is None ==> filled.vendor_folder == defaults.vendor_folder
            &&& raw.release_regex is None ==> filled.release_regex == defaults.release_regex
            &&& raw.locked is None ==> filled.locked == defaults.locked
        }),
{
}

/// What an entry says otherwise than the defaults is kept, and what only restates them is dropped.
pub proof fn only_what_restates_the_defaults_is_dropped(raw: RawView, defaults: RawView)
    ensures
        ({
            let kept = without_defaults(raw, defaults);
            &&& raw.version != defaults.version ==> kept.version == raw.version
            &&& raw.version == defaults.version ==> kept.version is None
            &&& raw.repository != defaults.repository ==> kept.repository == raw.repository
            &&& raw.repository == defaults.repository ==> kept.repository is None
            &&& raw.files != defaults.files ==> kept.files == raw.files
            &&& raw.files == defaults.files ==> kept.files is None
            &&& raw.hash_version_file != defaults.hash_version_file ==> kept.hash_version_file
                == raw.hash_version_file
            &&& raw.hash_version_file == defaults.hash_version_file ==> kept.hash_version_file
                is None
            &&& raw.name != defaults.name ==> kept.name == raw.name
            &&& raw.name == defaults.name ==> kept.name is None
            &&& raw.vendor_folder != defaults.vendor_folder ==> kept.vendor_folder
                == raw.vendor_folder
            &&& raw.vendor_folder == defaults.vendor_folder ==> kept.vendor_folder is None
            &&& raw.release_regex != defaults.release_regex ==> kept.release_regex
                == raw.release_regex
            &&& raw.release_regex == defaults.release_regex ==> kept.release_regex is None
            &&& raw.locked != defaults.locked ==> kept.locked == raw.locked
            &&& raw.locked == defaults.locked ==> kept.locked is None
        }),
{
}

/// A verdict is answered with the error it stands for, which names the entry; only a fine entry is
/// answered with none.
pub proof fn a_verdict_names_the_entry(r: Result<(), VendorError>, verdict: Verdict, name: Seq<char>)
    requires
        says(r, verdict, name),
    ensures
        r is Ok <==> verdict is Fine,
        verdict is BadRepository ==> (r matches Err(VendorError::InvalidRepositoryKey { name: n })
            && n@ == name),
        verdict is BadFiles ==> (r matches Err(VendorError::InvalidFilesKey { name: n }) && n@
            == name),
        verdict is BadRegex ==> (r matches Err(VendorError::InvalidReleaseRegexKey { name: n }) && n@
            == name),
{
}

/// An entry may be a list of what its keys hold, in the order in which they are written: the version,
/// the repository, the files, and so on. What is left out at the end is not set, and no more may stand
/// there than there are keys.
pub proof fn a_list_is_read_by_position(items: Seq<JsonView>, s: Seq<char>, b: bool)
    ensures
        items.len() > 8 ==> dependency_in(JsonView::List(items)) is None,
        items.len() <= 8 ==> (dependency_in(JsonView::List(items)) matches Some(raw) && {
            &&& items.len() > 0 && items[0] == JsonView::Text(s) ==> raw.version == Some(s)
            &&& items.len() > 1 && items[1] == JsonView::Text(s) ==> raw.repository == Some(s)
            &&& items.len() > 2 && items[2] == JsonView::Text(s) ==> raw.files == Some(
                seq![EntryView::Simple(s)],
            )
            &&& items.len() > 3 && items[3] == JsonView::Bool(b) ==> raw.hash_version_file == Some(
                HashView::Flag(b),
            )
            &&& items.len() > 4 && items[4] == JsonView::Text(s) ==> raw.name == Some(s)
            &&& items.len() > 5 && items[5] == JsonView::Text(s) ==> raw.vendor_folder == Some(s)
            &&& items.len() > 6 && items[6] == JsonView::Text(s) ==> raw.release_regex == Some(s)
            &&& items.len() > 7 && items[7] == JsonView::Bool(b) ==> raw.locked == Some(b)
            &&& items.len() <= 1 ==> raw.repository is None && raw.files is None
            &&& items.len() <= 7 ==> raw.locked is None
            &&& items.len() == 0 ==> raw.version is None
        }),
        dependency_in(JsonView::Text(s)) is None,
        dependency_in(JsonView::Null) is None,
{
}

/// What is no repository is answered with the URL as it is, and `undefined` where there is none.
pub proof fn an_unresolved_entry_shows_its_url(raw: RawView, e: VendorError)
    requires
        unresolved(raw, e),
    ensures
        e matches VendorError::InvalidGitHubUrl(url) && (raw.repository is Some ==> url@
            == raw.repository->0 && repo_from(url@, 0) is None) && (raw.repository is None ==> url@
            == "undefined"@),
{
}

} // verus!
