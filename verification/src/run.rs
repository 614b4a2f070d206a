//! What each command does: the layer between parsed arguments and the operations.

use vstd::prelude::*;
use crate::codec::{json_document, json_writing, to_json_text, wordy};
use crate::config::document::lemma_raw_is_wordy;
use crate::error::{lowered, to_lower, VendorError};
use crate::known::Known;
use crate::model::{
    copy_files, copy_files_option, copy_text, entry_views, files_view, non_empty, or_else,
    raw_json, resolved_as, unresolved, with_defaults, DefaultOptions, Dependency, EntryView,
    FileEntry, HashVersionFile, HashView, RawDependency, RawView,
};
use crate::ops::install::InstallOptions;
use crate::ops::sync::SyncOptions;
use crate::ops::Session;
use crate::registry::resolve::{Entry, ResolvedView};
use crate::source::{bare_version, looks_like_bare_version};
use crate::template::{
    github_url, is_github_url, is_owner_repo_shorthand, owner_and_name_from_repo_url, owner_repo,
    repo_from,
};
use crate::text;
use crate::ui;
use crate::value::{
    lemma_json_view, lemma_key_index, lemma_view_map_index, map_get, table_view, view_map, Json,
    JsonView, OrderedMap,
};

verus! {

/// What a new entry takes from a neighbour: an entry under a different name that already vendors
/// the same repository.
///
/// The whole neighbour is the base of the new entry. Only two of its fields are worth naming,
/// because only they change what the command visibly does: its files, where the command was given
/// none and the neighbour has some, and its version, always.
#[derive(Debug, Clone, Copy, PartialEq, Eq, Structural)]
pub struct Inherited {
    /// Whether its files come from the neighbour.
    pub files: bool,
    /// Whether its version does.
    pub version: bool,
}

/// What is said of an inheritance, if anything.
pub open spec fn warning_spec(
    inherited: Inherited,
    neighbour: Seq<char>,
    name: Seq<char>,
    repository: Seq<char>,
) -> Option<Seq<char>> {
    let start = "'"@ + neighbour + "' already vendors "@ + repository + ", so '"@ + name
        + "' inherits "@;
    if inherited.files && inherited.version {
        Some(
            start + "its files and version"@ + "."@ + (" Pass --files to give '"@ + name
                + "' its own files; the version comes from '"@ + neighbour + "' either way."@),
        )
    } else if inherited.files {
        Some(
            start + "its files"@ + "."@ + (" Pass --files to describe '"@ + name
                + "' separately."@),
        )
    } else if inherited.version {
        Some(start + "its version"@ + "."@)
    } else {
        None
    }
}

/// What a neighbour hands over, given whether the command supplied files of its own.
pub open spec fn inherited_from(neighbour: RawView, files_given: bool) -> Inherited {
    Inherited {
        files: !files_given && neighbour.files is Some && neighbour.files->0.len() > 0,
        version: non_empty(neighbour.version) is Some,
    }
}

impl Inherited {
    /// What `neighbour` hands over, given whether the command supplied files of its own.
    pub fn from_neighbour(neighbour: &RawDependency, files_given: bool) -> (r: Self)
        ensures
            r == inherited_from(neighbour@, files_given),
    {
        let has_files = match &neighbour.files {
            Some(files) => files.len() > 0,
            None => false,
        };
        let has_version = match &neighbour.version {
            Some(version) => !version.as_str().is_empty(),
            None => false,
        };
        Inherited { files: !files_given && has_files, version: has_version }
    }

    /// What to warn about, or `None` when nothing came from the neighbour.
    ///
    /// Files given on the command line replace the files and only the files, so the advice never
    /// promises that they describe the whole entry.
    pub fn warning(self, neighbour: &str, name: &str, repository: &str) -> (r: Option<String>)
        ensures
            text::text_of(r) == warning_spec(self, neighbour@, name@, repository@),
    {
        if !self.files && !self.version {
            return None;
        }
        let mut r = "'".to_owned();
        r.append(neighbour);
        r.append("' already vendors ");
        r.append(repository);
        r.append(", so '");
        r.append(name);
        r.append("' inherits ");
        if self.files && self.version {
            r.append("its files and version");
            r.append(".");
            let mut advice = " Pass --files to give '".to_owned();
            advice.append(name);
            advice.append("' its own files; the version comes from '");
            advice.append(neighbour);
            advice.append("' either way.");
            r.append(advice.as_str());
        } else if self.files {
            r.append("its files");
            r.append(".");
            let mut advice = " Pass --files to describe '".to_owned();
            advice.append(name);
            advice.append("' separately.");
            r.append(advice.as_str());
        } else {
            r.append("its version");
            r.append(".");
        }
        Some(r)
    }
}

/// An entry to install: what is there already, with the files chosen and the defaults folded in.
pub open spec fn merged(
    existing: RawView,
    defaults: RawView,
    repository: Seq<char>,
    files: Option<Seq<EntryView>>,
) -> RawView {
    with_defaults(
        RawView {
            repository: or_else(existing.repository, Some(repository)),
            files,
            ..existing
        },
        defaults,
    )
}

/// An entry to install: what is there already, with the files chosen and the defaults folded in.
///
/// An entry already in the config keeps its own URL; rewriting a user's URL from a shorthand would
/// be rude.
pub fn merge_install_entry(
    existing: RawDependency,
    defaults: &DefaultOptions,
    repository: String,
    files: Option<Vec<FileEntry>>,
) -> (r: RawDependency)
    ensures
        r@ == merged(existing@, defaults@, repository@, files_view(files)),
{
    let mut entry = RawDependency {
        version: existing.version,
        repository: match existing.repository {
            Some(kept) => Some(kept),
            None => Some(repository),
        },
        files,
        hash_version_file: existing.hash_version_file,
        name: existing.name,
        vendor_folder: existing.vendor_folder,
        release_regex: existing.release_regex,
        locked: existing.locked,
    };
    entry.apply_defaults(defaults);
    entry
}

/// What `update` of one name comes to: the dependency to install anew, or what is wrong with it.
pub open spec fn upgrades(
    r: Result<Dependency, VendorError>,
    entry: Option<RawView>,
    name: Seq<char>,
) -> bool {
    match entry {
        None => r matches Err(VendorError::NoDependencyNamed(n)) && n@ == name,
        Some(raw) => if raw.repository is None {
            r matches Err(VendorError::NoRepositoryForDependency(n)) && n@ == name
        } else if raw.files is None || raw.files->0.len() == 0 {
            r matches Err(VendorError::NoFilesForDependency(n)) && n@ == name
        } else if raw.locked == Some(true) {
            r matches Err(VendorError::DependencyLocked(n)) && n@ == name
        } else {
            match r {
                Ok(dependency) => resolved_as(raw, name, dependency),
                Err(error) => unresolved(raw, error),
            }
        },
    }
}

impl Session {
    /// The dependency that `update` of one name installs anew. It has to be in the config with a
    /// repository and files, and must not be locked.
    pub fn upgrade_target(&self, name: &str) -> (r: Result<Dependency, VendorError>)
        ensures
            upgrades(r, map_get(view_map(self.workspace.dependencies@), name@), name@),
    {
        proof {
            lemma_view_map_index(self.workspace.dependencies@, name@, 0);
            lemma_key_index(self.workspace.dependencies@, name@, 0);
        }
        let entry = match self.workspace.dependencies.get(name) {
            Some(entry) => entry,
            None => {
                return Err(VendorError::NoDependencyNamed(name.to_owned()));
            },
        };
        if entry.repository.is_none() {
            return Err(VendorError::NoRepositoryForDependency(name.to_owned()));
        }
        let has_files = match &entry.files {
            Some(files) => files.len() > 0,
            None => false,
        };
        if !has_files {
            return Err(VendorError::NoFilesForDependency(name.to_owned()));
        }
        if let Some(true) = entry.locked {
            return Err(VendorError::DependencyLocked(name.to_owned()));
        }
        entry.resolve(name)
    }
}

/// Whether a source is looked up in the registry: a bare name that is not known, described by no
/// files of the command.
pub fn wants_registry(source: &str, files_given: bool, known: bool) -> (r: bool)
    ensures
        r == (!files_given && !known && !github_url(source@) && !owner_repo(source@)),
{
    !files_given && !known && !is_github_url(source) && !is_owner_repo_shorthand(source)
}

/// What a source turned out to name.
#[derive(Debug)]
pub struct Source {
    /// The URL that config entries are compared against: a shorthand `owner/repo` becomes
    /// `https://www.github.com/owner/repo`.
    pub lookup: String,
    /// The same repository without the `www.`, as it is stored.
    pub stored: String,
    /// A name this tool knows.
    pub known: Option<Known>,
    /// A name the registry describes.
    pub listed: Option<Entry>,
}

/// The two URLs of a source; `None` where it has to be searched for.
pub open spec fn source_urls_spec(
    source: Seq<char>,
    known: Option<Seq<char>>,
    listed: Option<Seq<char>>,
) -> Option<(Seq<char>, Seq<char>)> {
    if known is Some {
        Some((known->0, known->0))
    } else if listed is Some {
        Some((listed->0, listed->0))
    } else if github_url(source) {
        Some((source, source))
    } else if owner_repo(source) {
        Some(("https://www.github.com/"@ + source, "https://github.com/"@ + source))
    } else {
        None
    }
}

/// The repository of an optional known name.
pub open spec fn known_repository(known: Option<Known>) -> Option<Seq<char>> {
    match known {
        Some(known) => Some(known.repository@),
        None => None,
    }
}

/// The repository of an optional registry entry.
pub open spec fn listed_repository(listed: Option<Entry>) -> Option<Seq<char>> {
    match listed {
        Some(entry) => Some(entry.repository@),
        None => None,
    }
}

/// The two URLs of a source: that of a name this tool or the registry knows, a GitHub URL itself,
/// or one made of a shorthand. `None` where it has to be searched for.
pub fn source_urls(source: &str, known: &Option<Known>, listed: &Option<Entry>) -> (r: Option<
    (String, String),
>)
    ensures
        text::pair_of(r) == source_urls_spec(
            source@,
            known_repository(*known),
            listed_repository(*listed),
        ),
{
    if let Some(known) = known {
        return Some((known.repository.to_owned(), known.repository.to_owned()));
    }
    if let Some(entry) = listed {
        return Some((entry.repository.clone(), entry.repository.clone()));
    }
    if is_github_url(source) {
        return Some((source.to_owned(), source.to_owned()));
    }
    if is_owner_repo_shorthand(source) {
        let mut lookup = "https://www.github.com/".to_owned();
        lookup.append(source);
        let mut stored = "https://github.com/".to_owned();
        stored.append(source);
        return Some((lookup, stored));
    }
    None
}

/// The position at or after `from` of the first entry that vendors a repository.
pub open spec fn vendor_index(
    dependencies: Seq<(Seq<char>, RawView)>,
    repository: Seq<char>,
    from: int,
) -> Option<int>
    decreases dependencies.len() - from,
{
    if from < 0 || from >= dependencies.len() {
        None
    } else if dependencies[from].1.repository == Some(repository) {
        Some(from)
    } else {
        vendor_index(dependencies, repository, from + 1)
    }
}

/// The position of a neighbour: the first entry that vendors the repository, where there is no
/// entry under the name itself.
pub open spec fn neighbour_of(
    dependencies: Seq<(Seq<char>, RawView)>,
    name: Seq<char>,
    repository: Seq<char>,
) -> Option<int> {
    if map_get(dependencies, name) is Some {
        None
    } else {
        vendor_index(dependencies, repository, 0)
    }
}

/// An entry of which nothing is said.
pub open spec fn blank() -> RawView {
    RawView {
        version: None,
        repository: None,
        files: None,
        hash_version_file: None,
        name: None,
        vendor_folder: None,
        release_regex: None,
        locked: None,
    }
}

/// What a new entry starts out from: the entry under its name, else a neighbour, else nothing.
pub open spec fn base_of(
    dependencies: Seq<(Seq<char>, RawView)>,
    name: Seq<char>,
    repository: Seq<char>,
) -> RawView {
    match (map_get(dependencies, name), neighbour_of(dependencies, name, repository)) {
        (Some(raw), _) => raw,
        (None, Some(i)) => dependencies[i].1,
        (None, None) => blank(),
    }
}

/// Each path as a `files` element of its own.
pub open spec fn simple_entries(paths: Seq<Seq<char>>) -> Seq<EntryView> {
    Seq::new(paths.len(), |i: int| EntryView::Simple(paths[i]))
}

/// The files to install: those given, else those the entry has, else those a known name or the
/// registry describes.
pub open spec fn files_chosen(
    given: Option<Seq<Seq<char>>>,
    existing: Option<Seq<EntryView>>,
    known: Option<Known>,
    listed: Option<ResolvedView>,
) -> Option<Seq<EntryView>> {
    if given is Some {
        Some(simple_entries(given->0))
    } else if existing is Some {
        existing
    } else if known is Some {
        Some(entry_views(known->0.files@))
    } else if listed is Some {
        Some(listed->0.files)
    } else {
        None
    }
}

/// An entry with what a known name or the registry adds: a folder, an expression for releases, and
/// whether to track by commit, each where the entry says nothing of it.
pub open spec fn completed(
    entry: RawView,
    known: Option<Known>,
    listed: Option<ResolvedView>,
) -> RawView {
    RawView {
        vendor_folder: if entry.vendor_folder is None && known is Some {
            text::text_of(known->0.folder)
        } else {
            entry.vendor_folder
        },
        release_regex: if entry.release_regex is None && listed is Some {
            listed->0.release_regex
        } else {
            entry.release_regex
        },
        hash_version_file: if entry.hash_version_file is None && listed is Some
            && listed->0.hash_version_file == Some(true) {
            Some(HashView::Flag(true))
        } else {
            entry.hash_version_file
        },
        ..entry
    }
}

/// The view of an optional registry entry.
pub open spec fn listed_view(listed: Option<Entry>) -> Option<ResolvedView> {
    match listed {
        Some(entry) => Some(entry@),
        None => None,
    }
}

/// The name of a new entry: the one given, else the one the registry has, else the repository's;
/// `None` where the URL names no repository.
pub open spec fn chosen_name(
    given: Option<Seq<char>>,
    listed: Option<ResolvedView>,
    lookup: Seq<char>,
) -> Option<Seq<char>> {
    if non_empty(given) is Some {
        given
    } else if listed is Some {
        Some(listed->0.name)
    } else {
        match repo_from(lookup, 0) {
            Some((_, name)) => Some(name),
            None => None,
        }
    }
}

/// An entry that is about to be installed.
#[derive(Debug)]
pub struct NewEntry {
    /// The name it goes by.
    pub name: String,
    /// The entry as the config would have it.
    pub entry: RawDependency,
    /// The dependency it describes.
    pub dependency: Dependency,
    /// What is said of an inheritance from a neighbour, if anything.
    pub warning: Option<String>,
}

/// What an install of a resolved source comes to, given the config's dependencies and defaults.
pub open spec fn installs(
    r: Result<NewEntry, VendorError>,
    dependencies: Seq<(Seq<char>, RawView)>,
    defaults: RawView,
    source: Source,
    name: Option<Seq<char>>,
    files: Option<Seq<Seq<char>>>,
) -> bool {
    let lookup = source.lookup@;
    let listed = listed_view(source.listed);
    if !github_url(lookup) {
        r matches Err(VendorError::InvalidGitHubUrlQuoted(url)) && url@ == lookup
    } else {
        match chosen_name(name, listed, lookup) {
            None => r matches Err(VendorError::InvalidGitHubUrl(url)) && url@ == lookup,
            Some(key) => {
                let existing = base_of(dependencies, key, lookup);
                let chosen = files_chosen(files, existing.files, source.known, listed);
                let entry = completed(
                    merged(existing, defaults, source.stored@, chosen),
                    source.known,
                    listed,
                );
                if chosen is None || chosen->0.len() == 0 {
                    r matches Err(VendorError::MissingFilesOption)
                } else {
                    match r {
                        Ok(new) => new.name@ == key && new.entry@ == entry && resolved_as(
                            entry,
                            key,
                            new.dependency,
                        ) && text::text_of(new.warning) == match neighbour_of(
                            dependencies,
                            key,
                            lookup,
                        ) {
                            Some(i) => warning_spec(
                                inherited_from(dependencies[i].1, files is Some),
                                dependencies[i].0,
                                key,
                                lookup,
                            ),
                            None => None,
                        },
                        Err(error) => unresolved(entry, error),
                    }
                }
            },
        }
    }
}

/// The paths given on the command line, if any.
pub open spec fn given_paths(files: Option<Vec<String>>) -> Option<Seq<Seq<char>>> {
    match files {
        Some(files) => Some(text::texts(files@)),
        None => None,
    }
}

/// Each path as a `files` element of its own.
fn simple_files(paths: &Vec<String>) -> (r: Vec<FileEntry>)
    ensures
        entry_views(r@) == simple_entries(text::texts(paths@)),
{
    let mut r: Vec<FileEntry> = Vec::new();
    let mut i: usize = 0;
    while i < paths.len()
        invariant
            i <= paths@.len(),
            r@.len() == i,
            forall|j: int| 0 <= j < i ==> (#[trigger] r@[j])@ == EntryView::Simple(paths@[j]@),
        decreases paths@.len() - i,
    {
        r.push(FileEntry::Simple(paths[i].clone()));
        i += 1;
    }
    assert(entry_views(r@) =~= simple_entries(text::texts(paths@)));
    r
}

/// The files to install.
fn choose_files(
    given: &Option<Vec<String>>,
    existing: &Option<Vec<FileEntry>>,
    source: &Source,
) -> (r: Option<Vec<FileEntry>>)
    ensures
        files_view(r) == files_chosen(
            given_paths(*given),
            files_view(*existing),
            source.known,
            listed_view(source.listed),
        ),
{
    if let Some(paths) = given {
        return Some(simple_files(paths));
    }
    if existing.is_some() {
        return copy_files_option(existing);
    }
    if let Some(known) = &source.known {
        return Some(copy_files(&known.files));
    }
    if let Some(entry) = &source.listed {
        return Some(copy_files(&entry.files));
    }
    None
}

impl Session {
    /// Where the first entry stands that vendors a repository.
    fn vendored_at(&self, repository: &str) -> (r: Option<usize>)
        ensures
            match r {
                Some(i) => i < self.workspace.dependencies@.len() && vendor_index(
                    view_map(self.workspace.dependencies@),
                    repository@,
                    0,
                ) == Some(i as int),
                None => vendor_index(
                    view_map(self.workspace.dependencies@),
                    repository@,
                    0,
                ) is None,
            },
    {
        let ghost dependencies = view_map(self.workspace.dependencies@);
        let n: usize = self.workspace.dependencies.len();
        let mut i: usize = 0;
        while i < n
            invariant
                i <= n == dependencies.len(),
                dependencies == view_map(self.workspace.dependencies@),
                vendor_index(dependencies, repository@, 0) == vendor_index(
                    dependencies,
                    repository@,
                    i as int,
                ),
            decreases n - i,
        {
            let raw = self.workspace.dependencies.value_at(i);
            assert(dependencies[i as int].1 == raw@);
            if let Some(url) = &raw.repository {
                if text::equal(url.as_str(), repository) {
                    return Some(i);
                }
            }
            i += 1;
        }
        None
    }

    /// The entry an install of a resolved source adds, the dependency it describes, and what is
    /// said of an inheritance.
    ///
    /// Files may be inherited from an entry under the same name, or from any entry that points at
    /// the same repository. What comes from an entry the user did not name is warned of.
    pub fn install_entry(
        &self,
        source: &Source,
        name: Option<&str>,
        files: &Option<Vec<String>>,
    ) -> (r: Result<NewEntry, VendorError>)
        ensures
            installs(
                r,
                view_map(self.workspace.dependencies@),
                self.workspace.defaults@,
                *source,
                text::str_of(name),
                given_paths(*files),
            ),
    {
        let ghost dependencies = view_map(self.workspace.dependencies@);
        let lookup = source.lookup.as_str();
        if !is_github_url(lookup) {
            return Err(VendorError::InvalidGitHubUrlQuoted(source.lookup.clone()));
        }
        let given = match name {
            Some(name) => !name.is_empty(),
            None => false,
        };
        let key = match (given, name) {
            (true, Some(name)) => name.to_owned(),
            _ => match &source.listed {
                Some(entry) => entry.name.clone(),
                None => match owner_and_name_from_repo_url(lookup) {
                    Ok(repo) => repo.name,
                    Err(error) => {
                        return Err(error);
                    },
                },
            },
        };
        proof {
            lemma_view_map_index(self.workspace.dependencies@, key@, 0);
            lemma_key_index(self.workspace.dependencies@, key@, 0);
        }
        let mut warning: Option<String> = None;
        let existing = match self.workspace.dependencies.get(key.as_str()) {
            Some(raw) => raw.copy(),
            None => match self.vendored_at(lookup) {
                Some(i) => {
                    let neighbour = self.workspace.dependencies.key_at(i);
                    let raw = self.workspace.dependencies.value_at(i);
                    assert(dependencies[i as int] == (neighbour@, raw@));
                    warning = Inherited::from_neighbour(raw, files.is_some()).warning(
                        neighbour,
                        key.as_str(),
                        lookup,
                    );
                    raw.copy()
                },
                None => {
                    let empty = RawDependency::empty();
                    assert(empty@ =~= blank());
                    empty
                },
            },
        };
        assert(existing@ == base_of(dependencies, key@, lookup@));
        let chosen = choose_files(files, &existing.files, source);
        let has_files = match &chosen {
            Some(chosen) => chosen.len() > 0,
            None => false,
        };
        if !has_files {
            return Err(VendorError::MissingFilesOption);
        }
        let mut entry = merge_install_entry(
            existing,
            &self.workspace.defaults,
            source.stored.clone(),
            chosen,
        );
        // Where a known dependency belongs, unless the config already says.
        if entry.vendor_folder.is_none() {
            if let Some(known) = &source.known {
                entry.vendor_folder = copy_text(&known.folder);
            }
        }
        // What a registry entry knows about the repository that the config does not yet.
        if let Some(listed) = &source.listed {
            if entry.release_regex.is_none() {
                entry.release_regex = copy_text(&listed.release_regex);
            }
            if entry.hash_version_file.is_none() {
                if let Some(true) = listed.hash_version_file {
                    entry.hash_version_file = Some(HashVersionFile::Flag(true));
                }
            }
        }
        match entry.resolve(key.as_str()) {
            Ok(dependency) => Ok(NewEntry { name: key, entry, dependency, warning }),
            Err(error) => Err(error),
        }
    }
}

/// What a dry run prints of an entry: the entry under its name, at the version asked for.
pub open spec fn preview_json(name: Seq<char>, entry: RawView, version: Option<Seq<char>>) -> JsonView {
    let shown = RawView { version: or_else(version, entry.version), ..entry };
    JsonView::Table(seq![(name, JsonView::Table(raw_json(shown)))])
}

/// What a dry run prints of an entry: the entry under its name, at the version asked for.
///
/// Nothing is asked of GitHub and nothing is written, so the version that an install would find is
/// left out.
pub fn preview(name: &str, entry: &RawDependency, version: Option<&str>) -> (r: Result<
    String,
    VendorError,
>)
    ensures
        r matches Ok(out) && json_writing(
            preview_json(name@, entry@, text::str_of(version)),
            "  "@,
        ) == Ok::<Seq<char>, Seq<char>>(out@) && json_document(out@) == Some(
            preview_json(name@, entry@, text::str_of(version)),
        ),
{
    let mut shown = entry.copy();
    if let Some(version) = version {
        shown.version = Some(version.to_owned());
    }
    let value = shown.to_json();
    let mut map: OrderedMap<Json> = OrderedMap::new();
    map.insert(name.to_owned(), value);
    let wrapper = Json::Table(map);
    proof {
        lemma_json_view(wrapper);
        assert(table_view(map@) =~= seq![(name@, value@)]);
        let expected = RawView {
            version: or_else(text::str_of(version), entry@.version),
            ..entry@
        };
        assert(shown@ =~= expected);
        lemma_raw_is_wordy(expected);
        assert(wordy(wrapper@, 100));
        reveal_strlit("  ");
    }
    match to_json_text(&wrapper, "  ") {
        Ok(out) => Ok(out),
        Err(message) => Err(VendorError::SerializeConfig { path: name.to_owned(), message }),
    }
}

/// What stands in front of the previewed entry.
pub fn preview_heading(name: &str) -> (r: String)
    ensures
        r@ == name@ + " would be added as:"@,
{
    let mut r = name.to_owned();
    r.append(" would be added as:");
    r
}

/// Where the files of the previewed entry would go.
pub fn preview_folder(folder: &str) -> (r: String)
    ensures
        r@ == "files would be written to "@ + folder@,
{
    let mut r = "files would be written to ".to_owned();
    r.append(folder);
    r
}

/// What stands behind the previewed entry.
pub const PREVIEW_END: &'static str = "nothing was downloaded or written";

/// The position at or after `from` of an operand that is a version and not a source. The first
/// operand is left to the search.
pub open spec fn version_operand(sources: Seq<Seq<char>>, from: int) -> Option<int>
    decreases sources.len() - from,
{
    if from < 1 || from >= sources.len() {
        None
    } else if bare_version(sources[from]) {
        Some(from)
    } else {
        version_operand(sources, from + 1)
    }
}

/// Checks the operands of `install`: a version is no source, and options that describe one
/// dependency cannot stand beside several.
pub fn check_sources(sources: &Vec<String>, name_given: bool, files_given: bool) -> (r: Result<
    (),
    VendorError,
>)
    ensures
        ({
            let views = text::texts(sources@);
            match version_operand(views, 1) {
                Some(i) => r matches Err(VendorError::VersionAsSource { version, suggestion })
                    && version@ == views[i] && suggestion@ == views[i - 1] + "@"@ + views[i],
                None => if sources@.len() > 1 && name_given {
                    r matches Err(VendorError::SingleSourceOption(what)) && what@
                        == "-n or --name"@
                } else if sources@.len() > 1 && files_given {
                    r matches Err(VendorError::SingleSourceOption(what)) && what@
                        == "-f or --files"@
                } else {
                    r is Ok
                },
            }
        }),
{
    let ghost views = text::texts(sources@);
    let mut i: usize = 1;
    while i < sources.len()
        invariant
            1 <= i,
            i <= sources@.len() || sources@.len() <= 1,
            views == text::texts(sources@),
            version_operand(views, 1) == version_operand(views, i as int),
        decreases sources@.len() - i,
    {
        let operand = sources[i].as_str();
        assert(views[i as int] == operand@);
        assert(views[i - 1] == sources@[i - 1]@);
        if looks_like_bare_version(operand) {
            let mut suggestion = sources[i - 1].clone();
            suggestion.append("@");
            suggestion.append(operand);
            return Err(
                VendorError::VersionAsSource { version: operand.to_owned(), suggestion },
            );
        }
        i += 1;
    }
    if sources.len() > 1 && name_given {
        return Err(VendorError::SingleSourceOption("-n or --name"));
    }
    if sources.len() > 1 && files_given {
        return Err(VendorError::SingleSourceOption("-f or --files"));
    }
    Ok(())
}

/// What a command line asks for.
#[derive(Debug, Clone, PartialEq, Eq)]
pub enum Command {
    /// Sync all dependencies in the config file.
    Sync {
        /// Reinstall everything.
        force: bool,
    },
    /// Update all or selected dependencies to their latest version.
    Update {
        /// The selected ones; all where there are none.
        names: Vec<String>,
        /// Print the summary of a pull request.
        pr: bool,
    },
    /// List outdated dependencies.
    Outdated,
    /// Install dependencies.
    Install {
        /// What to install.
        sources: Vec<String>,
        /// The name option, whose value may be missing.
        name: Option<Option<String>>,
        /// The files to take.
        files: Option<Vec<String>>,
        /// Re-check the registry rather than trusting the cached copy.
        refresh: bool,
        /// Resolve and report, but download nothing and write nothing.
        dry_run: bool,
    },
    /// Uninstall selected dependencies.
    Uninstall {
        /// The selected ones.
        names: Vec<String>,
    },
    /// Log in to GitHub.
    Login {
        /// A token to use.
        token: Option<String>,
    },
    /// List the dependencies in the config file.
    List,
    /// Print the path of the config file.
    ShowConfig,
    /// Open the config file in an editor.
    EditConfig {
        /// The editor to use.
        editor: Option<String>,
    },
    /// Print a shell completion script.
    Completions {
        /// The shell.
        shell: String,
    },
}

/// What is needed before a command can run.
#[derive(Debug, Clone, Copy, PartialEq, Eq, Structural)]
pub enum Needs {
    /// Nothing: authenticating and completing have nothing to do with a project.
    Nothing,
    /// Where the config file is, whether or not it can be read.
    Path,
    /// The config, but nothing of GitHub.
    Config,
    /// The config and a client.
    Session,
}

/// What a command needs before it can run.
pub fn needs(command: &Command) -> (r: Needs)
    ensures
        r == match command {
            Command::Login { .. } | Command::Completions { .. } => Needs::Nothing,
            Command::ShowConfig | Command::EditConfig { .. } => Needs::Path,
            Command::List => Needs::Config,
            _ => Needs::Session,
        },
{
    match command {
        Command::Login { .. } => Needs::Nothing,
        Command::Completions { .. } => Needs::Nothing,
        Command::ShowConfig => Needs::Path,
        Command::EditConfig { .. } => Needs::Path,
        Command::List => Needs::Config,
        _ => Needs::Session,
    }
}

/// Whether stdout is the summary of a pull request, so that nothing is animated. Only an update of
/// everything has one.
pub fn pr_mode(command: &Command) -> (r: bool)
    ensures
        r == (command matches Command::Update { names, pr } && names@.len() == 0 && *pr),
{
    match command {
        Command::Update { names, pr } => names.len() == 0 && *pr,
        _ => false,
    }
}

/// How a command traverses every dependency, if it does.
pub fn sync_options(command: &Command) -> (r: Option<SyncOptions>)
    ensures
        match command {
            Command::Sync { force } => r == Some(
                SyncOptions { should_update: false, force: *force, show_outdated_only: false },
            ),
            Command::Update { names, .. } => if names@.len() == 0 {
                r == Some(
                    SyncOptions { should_update: true, force: false, show_outdated_only: false },
                )
            } else {
                r is None
            },
            Command::Outdated => r == Some(
                SyncOptions { should_update: true, force: false, show_outdated_only: true },
            ),
            _ => r is None,
        },
{
    match command {
        Command::Sync { force } => Some(
            SyncOptions { should_update: false, force: *force, show_outdated_only: false },
        ),
        Command::Update { names, .. } => if names.len() == 0 {
            Some(SyncOptions { should_update: true, force: false, show_outdated_only: false })
        } else {
            None
        },
        Command::Outdated => Some(
            SyncOptions { should_update: true, force: false, show_outdated_only: true },
        ),
        _ => None,
    }
}

/// What a command does, one step at a time.
#[derive(Debug, Clone, PartialEq, Eq)]
pub enum Action {
    /// Write a completion script.
    Complete(Shell),
    /// Log in, with this token where there is one.
    Login(Option<String>),
    /// List the dependencies.
    List,
    /// Print the path of the config file.
    ShowConfig,
    /// Open the config file in an editor.
    EditConfig(Option<String>),
    /// Traverse every dependency.
    Sync(SyncOptions),
    /// Update this one.
    Upgrade(String),
    /// Install this source, at this version where it carries one.
    Install {
        /// What to install.
        source: String,
        /// The version it carries.
        version: Option<String>,
    },
    /// Say what an install of this source would add, and write nothing.
    Preview {
        /// What would be installed.
        source: String,
        /// The version it carries.
        version: Option<String>,
    },
    /// Uninstall this one.
    Uninstall(String),
}

/// An action, as text.
pub ghost enum ActionView {
    Complete(Shell),
    Login(Option<Seq<char>>),
    List,
    ShowConfig,
    EditConfig(Option<Seq<char>>),
    Sync(SyncOptions),
    Upgrade(Seq<char>),
    Install(Seq<char>, Option<Seq<char>>),
    Preview(Seq<char>, Option<Seq<char>>),
    Uninstall(Seq<char>),
}

impl View for Action {
    type V = ActionView;

    open spec fn view(&self) -> ActionView {
        match self {
            Action::Complete(shell) => ActionView::Complete(*shell),
            Action::Login(token) => ActionView::Login(text::text_of(*token)),
            Action::List => ActionView::List,
            Action::ShowConfig => ActionView::ShowConfig,
            Action::EditConfig(editor) => ActionView::EditConfig(text::text_of(*editor)),
            Action::Sync(options) => ActionView::Sync(*options),
            Action::Upgrade(name) => ActionView::Upgrade(name@),
            Action::Install { source, version } => ActionView::Install(
                source@,
                text::text_of(*version),
            ),
            Action::Preview { source, version } => ActionView::Preview(
                source@,
                text::text_of(*version),
            ),
            Action::Uninstall(name) => ActionView::Uninstall(name@),
        }
    }
}

impl ActionView {
    /// Nothing is downloaded, and neither the config nor a dependency's folder is written.
    pub open spec fn leaves_the_project(self) -> bool {
        match self {
            ActionView::Sync(options) => options.show_outdated_only,
            ActionView::Upgrade(_) => false,
            ActionView::Install(_, _) => false,
            ActionView::Uninstall(_) => false,
            _ => true,
        }
    }
}

impl Action {
    /// How the install of an action should behave, where it has one: an update looks for the latest
    /// version, and so does an install that carries none.
    pub fn install_options(&self) -> (r: Option<InstallOptions>)
        ensures
            match self@ {
                ActionView::Upgrade(_) => r matches Some(options) && options.should_update
                    && options.new_version is None && !options.force && !options.show_outdated_only,
                ActionView::Install(_, version) => r matches Some(options) && options.should_update
                    == (version is None) && text::text_of(options.new_version) == version
                    && !options.force && !options.show_outdated_only,
                _ => r is None,
            },
    {
        match self {
            Action::Upgrade(_) => Some(
                InstallOptions {
                    should_update: true,
                    force: false,
                    new_version: None,
                    show_outdated_only: false,
                },
            ),
            Action::Install { version, .. } => Some(
                InstallOptions {
                    should_update: version.is_none(),
                    force: false,
                    new_version: copy_text(version),
                    show_outdated_only: false,
                },
            ),
            _ => None,
        }
    }
}

/// Actions, as text.
pub open spec fn action_views(actions: Seq<Action>) -> Seq<ActionView> {
    Seq::new(actions.len(), |i: int| actions[i]@)
}

/// What a command does, in order.
pub open spec fn actions_of(command: Command) -> Seq<ActionView> {
    match command {
        Command::Sync { force } => seq![
            ActionView::Sync(
                SyncOptions { should_update: false, force, show_outdated_only: false },
            ),
        ],
        Command::Update { names, .. } => if names@.len() == 0 {
            seq![
                ActionView::Sync(
                    SyncOptions { should_update: true, force: false, show_outdated_only: false },
                ),
            ]
        } else {
            Seq::new(names@.len(), |i: int| ActionView::Upgrade(names@[i]@))
        },
        Command::Outdated => seq![
            ActionView::Sync(
                SyncOptions { should_update: true, force: false, show_outdated_only: true },
            ),
        ],
        Command::Install { sources, dry_run, .. } => Seq::new(
            sources@.len(),
            |i: int|
                {
                    let (source, version) = crate::source::split_spec(sources@[i]@);
                    if dry_run {
                        ActionView::Preview(source, version)
                    } else {
                        ActionView::Install(source, version)
                    }
                },
        ),
        Command::Uninstall { names } => Seq::new(
            names@.len(),
            |i: int| ActionView::Uninstall(names@[i]@),
        ),
        Command::Login { token } => seq![ActionView::Login(text::text_of(token))],
        Command::List => seq![ActionView::List],
        Command::ShowConfig => seq![ActionView::ShowConfig],
        Command::EditConfig { editor } => seq![ActionView::EditConfig(text::text_of(editor))],
        Command::Completions { shell } => match shell_of(shell@) {
            Some(shell) => seq![ActionView::Complete(shell)],
            None => Seq::empty(),
        },
    }
}

/// What a command ends with when it cannot be done.
#[derive(Debug)]
pub enum Failure {
    /// One of the tool's errors.
    Vendor(VendorError),
    /// A message that stands on its own.
    Plain(String),
}

impl Failure {
    /// What is said of the failure.
    pub open spec fn message(&self) -> Seq<char> {
        match self {
            Failure::Vendor(error) => error.message(),
            Failure::Plain(message) => message@,
        }
    }

    /// What is said of the failure.
    pub fn to_text(&self) -> (r: String)
        ensures
            r@ == self.message(),
    {
        match self {
            Failure::Vendor(error) => error.to_text(),
            Failure::Plain(message) => message.clone(),
        }
    }
}

/// A command line is refused with this before anything is done.
pub open spec fn refused_for(command: Command, failure: Failure) -> bool {
    match (command, failure) {
        (Command::Install { sources, name, files, .. }, Failure::Vendor(error)) => {
            let views = text::texts(sources@);
            match version_operand(views, 1) {
                Some(i) => error matches VendorError::VersionAsSource { version, suggestion }
                    && version@ == views[i] && suggestion@ == views[i - 1] + "@"@ + views[i],
                None => sources@.len() > 1 && (if name is Some {
                    error matches VendorError::SingleSourceOption(what) && what@
                        == "-n or --name"@
                } else {
                    files is Some && (error matches VendorError::SingleSourceOption(what) && what@
                        == "-f or --files"@)
                }),
            }
        },
        (Command::Uninstall { names }, Failure::Vendor(error)) => names@.len() == 0
            && error is NoPackageNames,
        (Command::Completions { shell }, Failure::Plain(message)) => shell_of(shell@) is None
            && message@ == unknown_shell(shell@),
        _ => false,
    }
}

/// A command line that is done rather than refused.
pub open spec fn accepted(command: Command) -> bool {
    match command {
        Command::Install { sources, name, files, .. } => version_operand(
            text::texts(sources@),
            1,
        ) is None && (sources@.len() > 1 ==> name is None && files is None),
        Command::Uninstall { names } => names@.len() > 0,
        Command::Completions { shell } => shell_of(shell@) is Some,
        _ => true,
    }
}

/// What a command does, in order; a command line that makes no sense is refused first.
pub fn dispatch(command: &Command) -> (r: Result<Vec<Action>, Failure>)
    ensures
        r is Ok == accepted(*command),
        r matches Ok(actions) ==> action_views(actions@) == actions_of(*command),
        r matches Err(failure) ==> refused_for(*command, failure),
{
    let mut actions: Vec<Action> = Vec::new();
    if let Some(options) = sync_options(command) {
        actions.push(Action::Sync(options));
        assert(action_views(actions@) =~= actions_of(*command));
        return Ok(actions);
    }
    match command {
        Command::Update { names, .. } => {
            let mut i: usize = 0;
            while i < names.len()
                invariant
                    i <= names@.len(),
                    actions@.len() == i,
                    forall|j: int|
                        0 <= j < i ==> (#[trigger] actions@[j])@ == ActionView::Upgrade(
                            names@[j]@,
                        ),
                decreases names@.len() - i,
            {
                actions.push(Action::Upgrade(names[i].clone()));
                i += 1;
            }
        },
        Command::Install { sources, name, files, dry_run, .. } => {
            if let Err(error) = check_sources(sources, name.is_some(), files.is_some()) {
                return Err(Failure::Vendor(error));
            }
            let mut i: usize = 0;
            while i < sources.len()
                invariant
                    i <= sources@.len(),
                    actions@.len() == i,
                    forall|j: int|
                        0 <= j < i ==> (#[trigger] actions@[j])@ == if *dry_run {
                            ActionView::Preview(
                                crate::source::split_spec(sources@[j]@).0,
                                crate::source::split_spec(sources@[j]@).1,
                            )
                        } else {
                            ActionView::Install(
                                crate::source::split_spec(sources@[j]@).0,
                                crate::source::split_spec(sources@[j]@).1,
                            )
                        },
                decreases sources@.len() - i,
            {
                let (source, version) = crate::source::split(sources[i].as_str());
                let version = match version {
                    Some(version) => Some(version.to_owned()),
                    None => None,
                };
                let source = source.to_owned();
                actions.push(
                    if *dry_run {
                        Action::Preview { source, version }
                    } else {
                        Action::Install { source, version }
                    },
                );
                i += 1;
            }
        },
        Command::Uninstall { names } => {
            if names.len() == 0 {
                return Err(Failure::Vendor(VendorError::NoPackageNames));
            }
            let mut i: usize = 0;
            while i < names.len()
                invariant
                    i <= names@.len(),
                    actions@.len() == i,
                    forall|j: int|
                        0 <= j < i ==> (#[trigger] actions@[j])@ == ActionView::Uninstall(
                            names@[j]@,
                        ),
                decreases names@.len() - i,
            {
                actions.push(Action::Uninstall(names[i].clone()));
                i += 1;
            }
        },
        Command::Login { token } => {
            actions.push(Action::Login(copy_text(token)));
        },
        Command::List => {
            actions.push(Action::List);
        },
        Command::ShowConfig => {
            actions.push(Action::ShowConfig);
        },
        Command::EditConfig { editor } => {
            actions.push(Action::EditConfig(copy_text(editor)));
        },
        Command::Completions { shell } => match self::shell(shell.as_str()) {
            Ok(shell) => {
                actions.push(Action::Complete(shell));
            },
            Err(message) => {
                return Err(Failure::Plain(message));
            },
        },
        _ => {},
    }
    assert(action_views(actions@) =~= actions_of(*command));
    Ok(actions)
}

/// A dry run downloads nothing and writes nothing: all that it does is preview.
pub proof fn a_dry_run_only_previews(command: Command, i: int)
    requires
        command matches Command::Install { dry_run, .. } && dry_run,
        0 <= i < actions_of(command).len(),
    ensures
        actions_of(command)[i] is Preview,
        actions_of(command)[i].leaves_the_project(),
{
}

/// A shell that a completion script can be written for.
#[derive(Debug, Clone, Copy, PartialEq, Eq, Structural)]
pub enum Shell {
    Bash,
    Elvish,
    Fish,
    PowerShell,
    Zsh,
}

/// The shell of a name, whatever its case.
pub open spec fn shell_of(name: Seq<char>) -> Option<Shell> {
    let wanted = lowered(name);
    if wanted == "bash"@ {
        Some(Shell::Bash)
    } else if wanted == "elvish"@ {
        Some(Shell::Elvish)
    } else if wanted == "fish"@ {
        Some(Shell::Fish)
    } else if wanted == "powershell"@ {
        Some(Shell::PowerShell)
    } else if wanted == "zsh"@ {
        Some(Shell::Zsh)
    } else {
        None
    }
}

/// What is said of a name that is no shell.
pub open spec fn unknown_shell(name: Seq<char>) -> Seq<char> {
    "unknown shell '"@ + name + "'. Expected one of bash, elvish, fish, powershell, zsh"@
}

/// The shell of a name, whatever its case; a name that is none is answered with those that are.
pub fn shell(name: &str) -> (r: Result<Shell, String>)
    ensures
        match shell_of(name@) {
            Some(shell) => r == Ok::<Shell, String>(shell),
            None => r matches Err(message) && message@ == unknown_shell(name@),
        },
{
    let wanted = to_lower(name);
    let wanted = wanted.as_str();
    if text::equal(wanted, "bash") {
        Ok(Shell::Bash)
    } else if text::equal(wanted, "elvish") {
        Ok(Shell::Elvish)
    } else if text::equal(wanted, "fish") {
        Ok(Shell::Fish)
    } else if text::equal(wanted, "powershell") {
        Ok(Shell::PowerShell)
    } else if text::equal(wanted, "zsh") {
        Ok(Shell::Zsh)
    } else {
        let mut message = "unknown shell '".to_owned();
        message.append(name);
        message.append("'. Expected one of bash, elvish, fish, powershell, zsh");
        Err(message)
    }
}

/// A cell of the listing: the text, or a dash where there is none.
pub open spec fn cell(s: Option<Seq<char>>) -> Seq<char> {
    match non_empty(s) {
        Some(s) => s,
        None => "-"@,
    }
}

/// The three cells of a dependency: its name, its version, its repository.
pub open spec fn cells(dependency: (Seq<char>, RawView)) -> (Seq<char>, Seq<char>, Seq<char>) {
    (dependency.0, cell(dependency.1.version), cell(dependency.1.repository))
}

/// The larger of two lengths.
pub open spec fn wider(a: int, b: int) -> int {
    if a >= b {
        a
    } else {
        b
    }
}

/// How wide the name column is, for the first `n` dependencies.
pub open spec fn name_width(dependencies: Seq<(Seq<char>, RawView)>, n: int) -> int
    decreases n,
{
    if n <= 0 {
        4
    } else {
        wider(name_width(dependencies, n - 1), cells(dependencies[n - 1]).0.len() as int)
    }
}

/// How wide the version column is, for the first `n` dependencies.
pub open spec fn version_width(dependencies: Seq<(Seq<char>, RawView)>, n: int) -> int
    decreases n,
{
    if n <= 0 {
        7
    } else {
        wider(version_width(dependencies, n - 1), cells(dependencies[n - 1]).1.len() as int)
    }
}

/// A text with spaces behind it up to a width.
pub open spec fn padded(s: Seq<char>, width: int) -> Seq<char> {
    if s.len() < width {
        s + text::repeated(' ', (width - s.len()) as nat)
    } else {
        s
    }
}

/// A line of the listing.
pub open spec fn row_of(row: (Seq<char>, Seq<char>, Seq<char>), names: int, versions: int) -> Seq<
    char,
> {
    padded(row.0, names) + "  "@ + padded(row.1, versions) + "  "@ + row.2
}

/// The listing of dependencies: a coloured heading, and a line for each in config order.
pub open spec fn listing(dependencies: Seq<(Seq<char>, RawView)>) -> Seq<Seq<char>> {
    let n = dependencies.len() as int;
    let names = name_width(dependencies, n);
    let versions = version_width(dependencies, n);
    seq![ui::painted("36"@, row_of(("NAME"@, "VERSION"@, "REPOSITORY"@), names, versions))]
        + Seq::new(dependencies.len(), |i: int| row_of(cells(dependencies[i]), names, versions))
}

/// A text with spaces behind it up to a width.
fn pad(s: &str, width: usize) -> (r: String)
    ensures
        r@ == padded(s@, width as int),
{
    let n: usize = text::chars_of(s).len();
    let mut r = s.to_owned();
    if n < width {
        r.append(text::repeat(' ', width - n).as_str());
    }
    r
}

/// A line of the listing.
fn row(name: &str, version: &str, repository: &str, names: usize, versions: usize) -> (r: String)
    ensures
        r@ == row_of((name@, version@, repository@), names as int, versions as int),
{
    let mut r = pad(name, names);
    r.append("  ");
    r.append(pad(version, versions).as_str());
    r.append("  ");
    r.append(repository);
    r
}

/// A cell of the listing.
fn cell_of(s: &Option<String>) -> (r: String)
    ensures
        r@ == cell(text::text_of(*s)),
{
    match s {
        Some(s) => if s.as_str().is_empty() {
            "-".to_owned()
        } else {
            s.clone()
        },
        None => "-".to_owned(),
    }
}

impl Session {
    /// The listing of the config's dependencies: a column for each field, in config order.
    pub fn list(&self) -> (r: Vec<String>)
        ensures
            text::texts(r@) == listing(view_map(self.workspace.dependencies@)),
    {
        let ghost dependencies = view_map(self.workspace.dependencies@);
        let n: usize = self.workspace.dependencies.len();
        let mut names: usize = 4;
        let mut versions: usize = 7;
        let mut i: usize = 0;
        while i < n
            invariant
                i <= n == dependencies.len(),
                dependencies == view_map(self.workspace.dependencies@),
                names == name_width(dependencies, i as int),
                versions == version_width(dependencies, i as int),
            decreases n - i,
        {
            let raw = self.workspace.dependencies.value_at(i);
            let key = self.workspace.dependencies.key_at(i);
            assert(dependencies[i as int] == (key@, raw@));
            let wide: usize = text::chars_of(key).len();
            if wide > names {
                names = wide;
            }
            let wide: usize = text::chars_of(cell_of(&raw.version).as_str()).len();
            if wide > versions {
                versions = wide;
            }
            i += 1;
        }
        let mut r: Vec<String> = Vec::new();
        r.push(ui::cyan(row("NAME", "VERSION", "REPOSITORY", names, versions).as_str()));
        let ghost wanted = listing(dependencies);
        let mut j: usize = 0;
        while j < n
            invariant
                j <= n == dependencies.len(),
                dependencies == view_map(self.workspace.dependencies@),
                names == name_width(dependencies, n as int),
                versions == version_width(dependencies, n as int),
                wanted == listing(dependencies),
                r@.len() == j + 1,
                forall|k: int| 0 <= k <= j ==> (#[trigger] r@[k])@ == wanted[k],
            decreases n - j,
        {
            let raw = self.workspace.dependencies.value_at(j);
            let key = self.workspace.dependencies.key_at(j);
            assert(dependencies[j as int] == (key@, raw@));
            let version = cell_of(&raw.version);
            let repository = cell_of(&raw.repository);
            r.push(row(key, version.as_str(), repository.as_str(), names, versions));
            j += 1;
        }
        assert(text::texts(r@) =~= wanted);
        r
    }
}

/// What is said of a config that lists nothing.
pub fn nothing_listed(path: &str) -> (r: String)
    ensures
        r@ == "no dependencies in "@ + path@,
{
    let mut r = "no dependencies in ".to_owned();
    r.append(path);
    r
}

/// An editor that `config edit` can try.
#[derive(Debug, Clone, PartialEq, Eq)]
pub enum Editor {
    /// The one named on the command line.
    Given(String),
    /// The one the environment names.
    Variable(String),
    /// Whatever the system opens such a file with.
    System,
}

/// An editor, by the text that names it.
pub enum EditorView {
    Given(Seq<char>),
    Variable(Seq<char>),
    System,
}

impl View for Editor {
    type V = EditorView;

    open spec fn view(&self) -> EditorView {
        match self {
            Editor::Given(name) => EditorView::Given(name@),
            Editor::Variable(name) => EditorView::Variable(name@),
            Editor::System => EditorView::System,
        }
    }
}

/// The views of editors.
pub open spec fn editor_views(editors: Seq<Editor>) -> Seq<EditorView> {
    Seq::new(editors.len(), |i: int| editors[i]@)
}

/// The editors to try, in order: one that was asked for by name is the only one.
pub open spec fn editors_spec(given: Option<Seq<char>>, variable: Option<Seq<char>>) -> Seq<
    EditorView,
> {
    if non_empty(given) is Some {
        seq![EditorView::Given(given->0)]
    } else if non_empty(variable) is Some {
        seq![EditorView::Variable(variable->0), EditorView::System]
    } else {
        seq![EditorView::System]
    }
}

/// The editors to try, in order, given the one on the command line and the one in the environment.
pub fn editors(given: Option<&str>, variable: Option<&str>) -> (r: Vec<Editor>)
    ensures
        editor_views(r@) == editors_spec(text::str_of(given), text::str_of(variable)),
{
    let mut r: Vec<Editor> = Vec::new();
    if let Some(name) = given {
        if !name.is_empty() {
            r.push(Editor::Given(name.to_owned()));
            assert(editor_views(r@) =~= editors_spec(text::str_of(given), text::str_of(variable)));
            return r;
        }
    }
    if let Some(name) = variable {
        if !name.is_empty() {
            r.push(Editor::Variable(name.to_owned()));
        }
    }
    r.push(Editor::System);
    assert(editor_views(r@) =~= editors_spec(text::str_of(given), text::str_of(variable)));
    r
}

/// How an editor ended.
#[derive(Debug, Clone, Copy, PartialEq, Eq, Structural)]
pub enum Ran {
    /// It ran, and was closed.
    Closed,
    /// It ran, and reported failure.
    Refused,
    /// It could not be started.
    Unstarted,
}

/// What follows an editor.
#[derive(Debug, Clone, PartialEq, Eq)]
pub enum AfterEditor {
    /// The file has been edited.
    Done,
    /// Say this, and try the next one.
    Next(String),
    /// Fail with this.
    Stop(String),
}

/// What is said of an editor that would not do it.
pub open spec fn editor_failure(editor: EditorView) -> Seq<char> {
    match editor {
        EditorView::Given(name) => "could not run the editor given ("@ + name + ")"@,
        EditorView::Variable(name) => "could not run $EDITOR ("@ + name + ")"@,
        EditorView::System => "could not open the config file in an editor"@,
    }
}

/// What follows an editor. One that runs and refuses has had the file, so nothing else is tried;
/// one that the environment names and that does not start is passed over.
pub fn after_editor(editor: &Editor, ran: Ran) -> (r: AfterEditor)
    ensures
        match r {
            AfterEditor::Done => ran == Ran::Closed,
            AfterEditor::Next(said) => ran == Ran::Unstarted && editor is Variable && said@
                == editor_failure(editor@),
            AfterEditor::Stop(said) => ran != Ran::Closed && !(ran == Ran::Unstarted
                && editor is Variable) && said@ == editor_failure(editor@),
        },
{
    if ran == Ran::Closed {
        return AfterEditor::Done;
    }
    match editor {
        Editor::Given(name) => {
            let mut said = "could not run the editor given (".to_owned();
            said.append(name.as_str());
            said.append(")");
            AfterEditor::Stop(said)
        },
        Editor::Variable(name) => {
            let mut said = "could not run $EDITOR (".to_owned();
            said.append(name.as_str());
            said.append(")");
            if ran == Ran::Unstarted {
                AfterEditor::Next(said)
            } else {
                AfterEditor::Stop(said)
            }
        },
        Editor::System => AfterEditor::Stop(
            "could not open the config file in an editor".to_owned(),
        ),
    }
}

/// Files given on the command line are what is installed, whatever the config or the registry says.
pub proof fn given_files_win(
    given: Seq<Seq<char>>,
    existing: Option<Seq<EntryView>>,
    known: Option<Known>,
    listed: Option<ResolvedView>,
)
    ensures
        files_chosen(Some(given), existing, known, listed) == Some(simple_entries(given)),
{
}

/// An entry already in the config keeps its own URL, and every key it sets.
pub proof fn an_existing_entry_keeps_its_keys(
    existing: RawView,
    defaults: RawView,
    repository: Seq<char>,
    files: Option<Seq<EntryView>>,
)
    ensures
        existing.repository is Some ==> merged(existing, defaults, repository, files).repository
            == existing.repository,
        existing.vendor_folder is Some ==> merged(
            existing,
            defaults,
            repository,
            files,
        ).vendor_folder == existing.vendor_folder,
        existing.version is Some ==> merged(existing, defaults, repository, files).version
            == existing.version,
{
}

/// Installing again what an install has written resolves to the same entry: folding the defaults
/// into an entry that has them folded in changes nothing.
pub proof fn a_second_install_is_the_same(
    existing: RawView,
    defaults: RawView,
    repository: Seq<char>,
    files: Option<Seq<EntryView>>,
)
    ensures
        ({
            let first = merged(existing, defaults, repository, files);
            merged(first, defaults, repository, first.files) == first
        }),
{
}

/// Nothing is said of a neighbour that hands over nothing.
pub proof fn nothing_borrowed_is_not_mentioned(
    neighbour: RawView,
    files_given: bool,
    key: Seq<char>,
    name: Seq<char>,
    repository: Seq<char>,
)
    requires
        non_empty(neighbour.version) is None,
        files_given || neighbour.files is None || neighbour.files->0.len() == 0,
    ensures
        warning_spec(inherited_from(neighbour, files_given), key, name, repository) is None,
{
}

/// What an install comes to goes by the right name: the one given, else the one the registry has,
/// else the repository's own. It has files, and a repository on GitHub.
pub proof fn an_install_goes_by_the_name_it_is_given(
    r: Result<NewEntry, VendorError>,
    dependencies: Seq<(Seq<char>, RawView)>,
    defaults: RawView,
    source: Source,
    name: Option<Seq<char>>,
    files: Option<Seq<Seq<char>>>,
)
    requires
        installs(r, dependencies, defaults, source, name, files),
        r is Ok,
    ensures
        ({
            let new = r->Ok_0;
            let given = name is Some && name->0.len() > 0;
            &&& github_url(source.lookup@)
            &&& given ==> new.name@ == name->0
            &&& !given && source.listed is Some ==> new.name@ == source.listed->0.name@
            &&& !given && source.listed is None ==> (repo_from(source.lookup@, 0) matches Some(repo)
                && repo.1 == new.name@)
            &&& new.entry@.files is Some && new.entry@.files->0.len() > 0
            &&& Some(new.dependency.repository@) == new.entry@.repository
            &&& entry_views(new.dependency.files@) == new.entry@.files->0
            &&& new.name@.len() > 0 ==> new.dependency.name@ == new.name@
        }),
{
}

/// The files of an install are those given, each as it is; where none are given, those of the entry
/// it starts out from; where that has none, those a name that is known comes with, else those the
/// registry lists. Without any there is nothing to install.
pub proof fn an_install_takes_the_files_it_is_given(
    r: Result<NewEntry, VendorError>,
    dependencies: Seq<(Seq<char>, RawView)>,
    defaults: RawView,
    source: Source,
    name: Option<Seq<char>>,
    files: Option<Seq<Seq<char>>>,
)
    requires
        installs(r, dependencies, defaults, source, name, files),
        r is Ok,
    ensures
        ({
            let new = r->Ok_0;
            let taken = new.entry@.files->0;
            &&& files is Some ==> taken.len() == files->0.len() && forall|i: int|
                0 <= i < taken.len() ==> #[trigger] taken[i] == EntryView::Simple(files->0[i])
            &&& files is None ==> match map_get(dependencies, new.name@) {
                Some(raw) => raw.files is Some ==> taken == raw.files->0,
                None => (forall|i: int|
                    0 <= i < dependencies.len() ==> (#[trigger] dependencies[i]).1.repository
                        != Some(source.lookup@)) ==> {
                    &&& source.known is Some ==> taken == entry_views(source.known->0.files@)
                    &&& source.known is None ==> source.listed is Some && taken == entry_views(
                        source.listed->0.files@,
                    )
                },
            }
        }),
{
    let new = r->Ok_0;
    the_first_entry_that_vendors_it_counts(dependencies, source.lookup@, 0);
    assert(new.entry@.files->0 == files_chosen(
        files,
        base_of(dependencies, new.name@, source.lookup@).files,
        source.known,
        listed_view(source.listed),
    )->0);
}

/// Nothing to take is an error, and the only reason for that error.
pub proof fn an_install_without_files_is_refused(
    r: Result<NewEntry, VendorError>,
    dependencies: Seq<(Seq<char>, RawView)>,
    defaults: RawView,
    source: Source,
    name: Option<Seq<char>>,
    files: Option<Seq<Seq<char>>>,
)
    requires
        installs(r, dependencies, defaults, source, name, files),
        github_url(source.lookup@),
        name is Some && name->0.len() > 0,
        files is None,
        source.known is None,
        source.listed is None,
        map_get(dependencies, name->0) is None,
        forall|i: int|
            0 <= i < dependencies.len() ==> (#[trigger] dependencies[i]).1.repository != Some(
                source.lookup@,
            ),
    ensures
        r matches Err(VendorError::MissingFilesOption),
{
    the_first_entry_that_vendors_it_counts(dependencies, source.lookup@, 0);
}

/// The first entry that vendors a repository is the one that counts.
pub proof fn the_first_entry_that_vendors_it_counts(
    dependencies: Seq<(Seq<char>, RawView)>,
    repository: Seq<char>,
    from: int,
)
    requires
        0 <= from <= dependencies.len(),
    ensures
        match vendor_index(dependencies, repository, from) {
            Some(i) => from <= i < dependencies.len() && dependencies[i].1.repository == Some(
                repository,
            ) && forall|j: int|
                from <= j < i ==> (#[trigger] dependencies[j]).1.repository != Some(repository),
            None => forall|j: int|
                from <= j < dependencies.len() ==> (#[trigger] dependencies[j]).1.repository
                    != Some(repository),
        },
    decreases dependencies.len() - from,
{
    if from < dependencies.len() && dependencies[from].1.repository != Some(repository) {
        the_first_entry_that_vendors_it_counts(dependencies, repository, from + 1);
    }
}

/// Installing what is in the config already keeps every key the entry sets, its files too unless
/// others are given, and borrows nothing from another entry.
pub proof fn an_entry_in_the_config_keeps_what_it_says(
    r: Result<NewEntry, VendorError>,
    dependencies: Seq<(Seq<char>, RawView)>,
    defaults: RawView,
    source: Source,
    name: Option<Seq<char>>,
    files: Option<Seq<Seq<char>>>,
    raw: RawView,
)
    requires
        installs(r, dependencies, defaults, source, name, files),
        r is Ok,
        map_get(dependencies, r->Ok_0.name@) == Some(raw),
    ensures
        ({
            let entry = r->Ok_0.entry@;
            &&& r->Ok_0.warning is None
            &&& raw.repository is Some ==> entry.repository == raw.repository
            &&& raw.repository is None ==> entry.repository == Some(source.stored@)
            &&& raw.version is Some ==> entry.version == raw.version
            &&& raw.version is None ==> entry.version == defaults.version
            &&& raw.vendor_folder is Some ==> entry.vendor_folder == raw.vendor_folder
            &&& raw.release_regex is Some ==> entry.release_regex == raw.release_regex
            &&& raw.hash_version_file is Some ==> entry.hash_version_file == raw.hash_version_file
            &&& raw.locked is Some ==> entry.locked == raw.locked
            &&& raw.name is Some ==> entry.name == raw.name
        }),
{
}

/// A name that is new to a config that does not vendor its repository starts out from nothing: its
/// repository is the one that was named, its version and lock those of the defaults. What the
/// defaults leave open, a known name or the registry may say.
pub proof fn a_new_name_starts_from_nothing(
    r: Result<NewEntry, VendorError>,
    dependencies: Seq<(Seq<char>, RawView)>,
    defaults: RawView,
    source: Source,
    name: Option<Seq<char>>,
    files: Option<Seq<Seq<char>>>,
)
    requires
        installs(r, dependencies, defaults, source, name, files),
        r is Ok,
        map_get(dependencies, r->Ok_0.name@) is None,
        forall|i: int|
            0 <= i < dependencies.len() ==> (#[trigger] dependencies[i]).1.repository != Some(
                source.lookup@,
            ),
    ensures
        ({
            let entry = r->Ok_0.entry@;
            &&& r->Ok_0.warning is None
            &&& entry.repository == Some(source.stored@)
            &&& entry.version == defaults.version
            &&& entry.locked == defaults.locked
            &&& entry.name == defaults.name
            &&& defaults.vendor_folder is Some ==> entry.vendor_folder == defaults.vendor_folder
            &&& defaults.vendor_folder is None && source.known is Some ==> entry.vendor_folder
                == text::text_of(source.known->0.folder)
            &&& defaults.vendor_folder is None && source.known is None ==> entry.vendor_folder
                is None
            &&& defaults.release_regex is Some ==> entry.release_regex == defaults.release_regex
            &&& defaults.release_regex is None && source.listed is Some ==> entry.release_regex
                == text::text_of(source.listed->0.release_regex)
            &&& defaults.release_regex is None && source.listed is None ==> entry.release_regex
                is None
            &&& defaults.hash_version_file is Some ==> entry.hash_version_file
                == defaults.hash_version_file
            &&& defaults.hash_version_file is None && source.listed is Some
                && source.listed->0.hash_version_file == Some(true) ==> entry.hash_version_file
                == Some(HashView::Flag(true))
            &&& defaults.hash_version_file is None && (source.listed is None
                || source.listed->0.hash_version_file != Some(true)) ==> entry.hash_version_file
                is None
        }),
{
    the_first_entry_that_vendors_it_counts(dependencies, source.lookup@, 0);
}

/// A new name for a repository that another entry vendors starts out from the first such entry. What
/// it takes over is warned of: the version wherever there is one, the files where none are given.
pub proof fn a_new_name_borrows_from_the_first_neighbour(
    r: Result<NewEntry, VendorError>,
    dependencies: Seq<(Seq<char>, RawView)>,
    defaults: RawView,
    source: Source,
    name: Option<Seq<char>>,
    files: Option<Seq<Seq<char>>>,
    i: int,
)
    requires
        installs(r, dependencies, defaults, source, name, files),
        r is Ok,
        map_get(dependencies, r->Ok_0.name@) is None,
        0 <= i < dependencies.len(),
        dependencies[i].1.repository == Some(source.lookup@),
        forall|j: int|
            0 <= j < i ==> (#[trigger] dependencies[j]).1.repository != Some(source.lookup@),
    ensures
        ({
            let entry = r->Ok_0.entry@;
            let neighbour = dependencies[i].1;
            let version = neighbour.version is Some && neighbour.version->0.len() > 0;
            let taken = files is None && neighbour.files is Some && neighbour.files->0.len() > 0;
            &&& entry.repository == Some(source.lookup@)
            &&& neighbour.version is Some ==> entry.version == neighbour.version
            &&& files is None && neighbour.files is Some ==> entry.files == neighbour.files
            &&& neighbour.vendor_folder is Some ==> entry.vendor_folder == neighbour.vendor_folder
            &&& neighbour.locked is Some ==> entry.locked == neighbour.locked
            &&& r->Ok_0.warning is Some <==> version || taken
        }),
{
    the_first_entry_that_vendors_it_counts(dependencies, source.lookup@, 0);
    let found = vendor_index(dependencies, source.lookup@, 0)->0;
    assert(found == i) by {
        if found < i {
            assert(dependencies[found].1.repository != Some(source.lookup@));
        } else if found > i {
            assert(dependencies[i].1.repository != Some(source.lookup@));
        }
    }
}

/// What is said of an inheritance names both entries and the repository, and says exactly what is
/// taken over; advice to give files follows only where files are.
pub proof fn a_warning_says_what_is_taken_over(
    inherited: Inherited,
    neighbour: Seq<char>,
    name: Seq<char>,
    repository: Seq<char>,
)
    ensures
        ({
            let start = "'"@ + neighbour + "' already vendors "@ + repository + ", so '"@ + name
                + "' inherits "@;
            match warning_spec(inherited, neighbour, name, repository) {
                Some(said) => {
                    &&& start.is_prefix_of(said)
                    &&& inherited.files ==> (start + "its files"@).is_prefix_of(said)
                    &&& inherited.files && inherited.version ==> (start
                        + "its files and version."@).is_prefix_of(said)
                    &&& inherited.files && !inherited.version ==> (start
                        + "its files."@).is_prefix_of(said)
                    &&& !inherited.files ==> said == start + "its version."@
                },
                None => !inherited.files && !inherited.version,
            }
        }),
{
    reveal_strlit("its files");
    reveal_strlit("its files and version");
    reveal_strlit("its files and version.");
    reveal_strlit("its files.");
    reveal_strlit("its version");
    reveal_strlit("its version.");
    reveal_strlit(".");
    let start = "'"@ + neighbour + "' already vendors "@ + repository + ", so '"@ + name
        + "' inherits "@;
    assert("its files and version"@ + "."@ =~= "its files and version."@);
    assert("its files"@ + "."@ =~= "its files."@);
    assert("its version"@ + "."@ =~= "its version."@);
    if let Some(said) = warning_spec(inherited, neighbour, name, repository) {
        let n = start.len() as int;
        assert(said.subrange(0, n) =~= start);
        if inherited.files {
            assert(said.subrange(0, n + 9) =~= start + "its files"@);
            if inherited.version {
                assert(said.subrange(0, n + 22) =~= start + "its files and version."@);
            } else {
                assert(said.subrange(0, n + 10) =~= start + "its files."@);
            }
        } else {
            assert(said =~= start + "its version."@);
        }
    }
}

/// A dependency that is locked is not upgraded, nor is one that is not there or says too little; any
/// other is what its entry says.
pub proof fn a_locked_dependency_is_not_upgraded(
    r: Result<Dependency, VendorError>,
    entry: Option<RawView>,
    name: Seq<char>,
)
    requires
        upgrades(r, entry, name),
    ensures
        entry is None <==> r matches Err(VendorError::NoDependencyNamed(_)),
        r matches Err(VendorError::DependencyLocked(_)) ==> entry->0.locked == Some(true),
        r matches Ok(dependency) ==> entry is Some && entry->0.locked != Some(true) && Some(
            dependency.repository@,
        ) == entry->0.repository && Some(entry_views(dependency.files@)) == entry->0.files
            && dependency.files@.len() > 0 && !dependency.locked && (name.len() > 0
            ==> dependency.name@ == name),
        entry is Some && entry->0.locked == Some(true) ==> r is Err,
{
    if let Ok(dependency) = r {
        assert(entry_views(dependency.files@).len() == dependency.files@.len());
    }
}

/// Where a source is: a name this tool knows has its repository, then one the registry lists; a URL
/// is itself, and a shorthand is looked up with `www.` and stored without.
pub proof fn a_source_has_its_urls(
    source: Seq<char>,
    known: Option<Seq<char>>,
    listed: Option<Seq<char>>,
)
    ensures
        known is Some ==> source_urls_spec(source, known, listed) == Some((known->0, known->0)),
        known is None && listed is Some ==> source_urls_spec(source, known, listed) == Some(
            (listed->0, listed->0),
        ),
        known is None && listed is None && github_url(source) ==> source_urls_spec(
            source,
            known,
            listed,
        ) == Some((source, source)),
        known is None && listed is None && !github_url(source) && owner_repo(source)
            ==> source_urls_spec(source, known, listed) == Some(
            ("https://www.github.com/"@ + source, "https://github.com/"@ + source),
        ),
        source_urls_spec(source, known, listed) is None ==> known is None && listed is None
            && !github_url(source) && !owner_repo(source),
{
}

/// A preview at a version is that of the entry with the version written into it; without one it is
/// that of the entry as it stands.
pub proof fn a_preview_shows_the_version_asked_for(name: Seq<char>, entry: RawView, version: Seq<char>)
    ensures
        preview_json(name, entry, Some(version)) == preview_json(
            name,
            RawView { version: Some(version), ..entry },
            None,
        ),
        preview_json(name, entry, None) == JsonView::Table(
            seq![(name, JsonView::Table(raw_json(entry)))],
        ),
{
    assert(RawView { version: entry.version, ..entry } == entry);
}

/// The operand that counts as a misplaced version is the first that is a version, and never the
/// first operand.
pub proof fn the_first_misplaced_version_counts(sources: Seq<Seq<char>>, from: int)
    requires
        1 <= from,
    ensures
        match version_operand(sources, from) {
            Some(i) => from <= i < sources.len() && bare_version(sources[i]) && forall|j: int|
                from <= j < i ==> !bare_version(#[trigger] sources[j]),
            None => forall|j: int| from <= j < sources.len() ==> !bare_version(#[trigger] sources[j]),
        },
    decreases sources.len() - from,
{
    if from < sources.len() && !bare_version(sources[from]) {
        the_first_misplaced_version_counts(sources, from + 1);
    }
}

/// One source may have a name and files of its own; several may not, and none of those behind the
/// first may be a version. Uninstalling needs a name.
pub proof fn what_is_accepted(command: Command)
    ensures
        match command {
            Command::Install { sources, name, files, .. } => {
                &&& sources@.len() == 1 ==> accepted(command)
                &&& sources@.len() > 1 && (name is Some || files is Some) ==> !accepted(command)
                &&& (exists|i: int|
                    1 <= i < sources@.len() && bare_version((#[trigger] sources@[i])@))
                    ==> !accepted(command)
                &&& name is None && files is None && (forall|i: int|
                    1 <= i < sources@.len() ==> !bare_version((#[trigger] sources@[i])@))
                    ==> accepted(command)
            },
            Command::Uninstall { names } => accepted(command) == (names@.len() > 0),
            Command::Completions { .. } => true,
            _ => accepted(command),
        },
{
    if let Command::Install { sources, .. } = command {
        let views = text::texts(sources@);
        the_first_misplaced_version_counts(views, 1);
        assert forall|i: int| 1 <= i < sources@.len() implies views[i] == (#[trigger] sources@[i])@ by {}
    }
}

/// Each command does what it says: a sync never looks for newer versions, an update always does,
/// and `outdated` looks for them and writes nothing. Names and sources are taken one by one, in
/// order.
pub proof fn each_command_does_what_it_says(command: Command)
    ensures
        match command {
            Command::Sync { force } => actions_of(command).len() == 1 && (actions_of(
                command,
            )[0] matches ActionView::Sync(options) && !options.should_update && options.force
                == force && !options.show_outdated_only),
            Command::Update { names, .. } => {
                &&& names@.len() == 0 ==> actions_of(command).len() == 1 && (actions_of(
                    command,
                )[0] matches ActionView::Sync(options) && options.should_update && !options.force
                    && !options.show_outdated_only)
                &&& names@.len() > 0 ==> actions_of(command).len() == names@.len() && forall|i: int|
                    0 <= i < names@.len() ==> #[trigger] actions_of(command)[i]
                        == ActionView::Upgrade(names@[i]@)
            },
            Command::Outdated => actions_of(command).len() == 1 && (actions_of(
                command,
            )[0] matches ActionView::Sync(options) && options.should_update
                && options.show_outdated_only),
            Command::Install { sources, dry_run, .. } => actions_of(command).len() == sources@.len()
                && forall|i: int|
                0 <= i < sources@.len() ==> match #[trigger] actions_of(command)[i] {
                    ActionView::Install(source, version) => !dry_run && match version {
                        Some(version) => source.push('@') + version == sources@[i]@,
                        None => source == sources@[i]@ || source.push('@') == sources@[i]@,
                    },
                    ActionView::Preview(source, version) => dry_run && match version {
                        Some(version) => source.push('@') + version == sources@[i]@,
                        None => source == sources@[i]@ || source.push('@') == sources@[i]@,
                    },
                    _ => false,
                },
            Command::Uninstall { names } => actions_of(command).len() == names@.len() && forall|
                i: int,
            |
                0 <= i < names@.len() ==> #[trigger] actions_of(command)[i]
                    == ActionView::Uninstall(names@[i]@),
            Command::Login { token } => actions_of(command) == seq![
                ActionView::Login(text::text_of(token)),
            ],
            Command::List => actions_of(command) == seq![ActionView::List],
            Command::ShowConfig => actions_of(command) == seq![ActionView::ShowConfig],
            Command::EditConfig { editor } => actions_of(command) == seq![
                ActionView::EditConfig(text::text_of(editor)),
            ],
            Command::Completions { .. } => actions_of(command).len() <= 1,
        },
{
    if let Command::Install { sources, .. } = command {
        assert forall|i: int| 0 <= i < sources@.len() implies match crate::source::split_spec(
            (#[trigger] sources@[i])@,
        ) {
            (source, Some(version)) => source.push('@') + version == sources@[i]@,
            (source, None) => source == sources@[i]@ || source.push('@') == sources@[i]@,
        } by {
            crate::source::the_halves_make_up_the_operand(sources@[i]@);
        }
    }
}

/// Only reporting, listing, previewing and the like leave a project as it is.
pub proof fn what_leaves_the_project(action: ActionView)
    ensures
        action is Install || action is Upgrade || action is Uninstall
            ==> !action.leaves_the_project(),
        action is Preview || action is List || action is ShowConfig || action is Complete
            ==> action.leaves_the_project(),
        action matches ActionView::Sync(options) ==> action.leaves_the_project()
            == options.show_outdated_only,
{
}

/// The shells there are, each by its own name whatever the case; no other name is one.
pub proof fn a_shell_goes_by_its_name(name: Seq<char>)
    ensures
        shell_of(name) == Some(Shell::Bash) <==> lowered(name) == "bash"@,
        shell_of(name) == Some(Shell::Elvish) <==> lowered(name) == "elvish"@,
        shell_of(name) == Some(Shell::Fish) <==> lowered(name) == "fish"@,
        shell_of(name) == Some(Shell::PowerShell) <==> lowered(name) == "powershell"@,
        shell_of(name) == Some(Shell::Zsh) <==> lowered(name) == "zsh"@,
{
    reveal_strlit("bash");
    reveal_strlit("elvish");
    reveal_strlit("fish");
    reveal_strlit("powershell");
    reveal_strlit("zsh");
    assert("bash"@[0] == 'b' && "elvish"@[0] == 'e' && "fish"@[0] == 'f' && "powershell"@[0] == 'p'
        && "zsh"@[0] == 'z');
}

/// What a cell shows: the text, or a dash where there is none.
pub open spec fn shows(cell: Seq<char>, s: Option<Seq<char>>) -> bool {
    &&& s is Some && s->0.len() > 0 ==> cell == s->0
    &&& s is None || s->0.len() == 0 ==> cell == "-"@
}

/// A column is as wide as its widest cell needs, heading included, and no wider.
proof fn lemma_columns(dependencies: Seq<(Seq<char>, RawView)>, n: int)
    requires
        0 <= n <= dependencies.len(),
    ensures
        name_width(dependencies, n) >= 4,
        version_width(dependencies, n) >= 7,
        forall|i: int|
            0 <= i < n ==> (#[trigger] dependencies[i]).0.len() <= name_width(dependencies, n)
                && cell(dependencies[i].1.version).len() <= version_width(dependencies, n),
        name_width(dependencies, n) == 4 || exists|i: int|
            0 <= i < n && (#[trigger] dependencies[i]).0.len() == name_width(dependencies, n),
        version_width(dependencies, n) == 7 || exists|i: int|
            0 <= i < n && cell((#[trigger] dependencies[i]).1.version).len() == version_width(
                dependencies,
                n,
            ),
    decreases n,
{
    if n > 0 {
        lemma_columns(dependencies, n - 1);
        assert(cells(dependencies[n - 1]).0 == dependencies[n - 1].0);
        if name_width(dependencies, n) != 4 && name_width(dependencies, n) == name_width(
            dependencies,
            n - 1,
        ) {
            let i = choose|i: int|
                0 <= i < n - 1 && (#[trigger] dependencies[i]).0.len() == name_width(
                    dependencies,
                    n - 1,
                );
            assert(dependencies[i].0.len() == name_width(dependencies, n));
        }
        if version_width(dependencies, n) != 7 && version_width(dependencies, n) == version_width(
            dependencies,
            n - 1,
        ) {
            let i = choose|i: int|
                0 <= i < n - 1 && cell((#[trigger] dependencies[i]).1.version).len()
                    == version_width(dependencies, n - 1);
            assert(cell(dependencies[i].1.version).len() == version_width(dependencies, n));
        }
    }
}

/// The listing has a line for each dependency, in config order, below a heading. Names, versions and
/// repositories stand in columns of their own: each begins at the same place in every line.
pub proof fn the_listing_is_in_columns(dependencies: Seq<(Seq<char>, RawView)>)
    ensures
        listing(dependencies).len() == dependencies.len() + 1,
        exists|second: int, third: int|
            #![trigger listing(dependencies)[0].skip(second), listing(dependencies)[0].skip(third)]
            6 <= second && second + 9 <= third && forall|i: int|
                0 <= i < dependencies.len() ==> {
                    let (name, raw) = #[trigger] dependencies[i];
                    let line = listing(dependencies)[i + 1];
                    exists|version: Seq<char>, repository: Seq<char>|
                        {
                            &&& #[trigger] shows(version, raw.version)
                            &&& #[trigger] shows(repository, raw.repository)
                            &&& name.len() + 2 <= second
                            &&& second + version.len() + 2 <= third
                            &&& line.take(name.len() as int) == name
                            &&& line.subrange(second, second + version.len()) == version
                            &&& line.skip(third) == repository
                        }
                },
{
    let n = dependencies.len() as int;
    let names = name_width(dependencies, n);
    let versions = version_width(dependencies, n);
    let second = names + 2;
    let third = second + versions + 2;
    lemma_columns(dependencies, n);
    reveal_strlit("  ");
    let _ = listing(dependencies)[0].skip(second);
    let _ = listing(dependencies)[0].skip(third);
    assert forall|i: int| 0 <= i < dependencies.len() implies {
        let (name, raw) = #[trigger] dependencies[i];
        let line = listing(dependencies)[i + 1];
        exists|version: Seq<char>, repository: Seq<char>|
            {
                &&& #[trigger] shows(version, raw.version)
                &&& #[trigger] shows(repository, raw.repository)
                &&& name.len() + 2 <= second
                &&& second + version.len() + 2 <= third
                &&& line.take(name.len() as int) == name
                &&& line.subrange(second, second + version.len()) == version
                &&& line.skip(third) == repository
            }
    } by {
        let (name, raw) = dependencies[i];
        let version = cell(raw.version);
        let repository = cell(raw.repository);
        let line = listing(dependencies)[i + 1];
        assert(line == row_of((name, version, repository), names, versions));
        assert(padded(name, names).len() == names);
        assert(padded(version, versions).len() == versions);
        assert(shows(version, raw.version) && shows(repository, raw.repository));
        assert(line.take(name.len() as int) =~= name);
        assert(line.subrange(second, second + version.len()) =~= version);
        assert(line.skip(third) =~= repository);
    }
}

/// The editor that was asked for is the only one tried; without one, the environment's comes before
/// the system's, and the system's is always the last resort.
pub proof fn the_editor_asked_for_is_the_only_one(
    given: Option<Seq<char>>,
    variable: Option<Seq<char>>,
)
    ensures
        ({
            let asked = given is Some && given->0.len() > 0;
            let named = variable is Some && variable->0.len() > 0;
            let tried = editors_spec(given, variable);
            &&& asked ==> tried == seq![EditorView::Given(given->0)]
            &&& !asked ==> tried.last() is System && tried.len() == (if named {
                2int
            } else {
                1int
            })
            &&& !asked && named ==> tried[0] == EditorView::Variable(variable->0)
        }),
{
}

/// A dependency that is there, has a repository and files and is not locked is upgraded; what it lacks
/// is what is said of any other.
pub proof fn a_sound_dependency_is_upgraded(
    r: Result<Dependency, VendorError>,
    raw: RawView,
    name: Seq<char>,
)
    requires
        upgrades(r, Some(raw), name),
    ensures
        raw.repository is Some && repo_from(raw.repository->0, 0) is Some && raw.files is Some
            && raw.files->0.len() > 0 && raw.locked != Some(true) ==> r is Ok,
        raw.repository is None ==> (r matches Err(VendorError::NoRepositoryForDependency(n)) && n@
            == name),
        raw.repository is Some && (raw.files is None || raw.files->0.len() == 0) ==> (r matches Err(
            VendorError::NoFilesForDependency(n),
        ) && n@ == name),
        raw.repository is Some && raw.files is Some && raw.files->0.len() > 0 && raw.locked == Some(
            true,
        ) ==> (r matches Err(VendorError::DependencyLocked(n)) && n@ == name),
{
}

/// A command line is refused for what is wrong with it: a version that stands where a source belongs,
/// with the source before it as what was meant; an option that describes one source beside several; no
/// name to uninstall; a shell that is none.
pub proof fn a_refusal_says_what_is_wrong(command: Command, failure: Failure)
    requires
        refused_for(command, failure),
    ensures
        match command {
            Command::Install { sources, name, files, .. } => match failure {
                Failure::Vendor(VendorError::VersionAsSource { version, suggestion }) => exists|i: int|
                    1 <= i < sources@.len() && version@ == (#[trigger] sources@[i])@ && bare_version(
                        version@,
                    ) && suggestion@ == sources@[i - 1]@ + "@"@ + version@,
                Failure::Vendor(VendorError::SingleSourceOption(what)) => sources@.len() > 1 && (
                what@ == "-n or --name"@ && name is Some || what@ == "-f or --files"@
                    && files is Some),
                _ => false,
            },
            Command::Uninstall { names } => names@.len() == 0 && failure
                matches Failure::Vendor(VendorError::NoPackageNames),
            Command::Completions { shell } => failure matches Failure::Plain(message) && message@
                == "unknown shell '"@ + shell@
                + "'. Expected one of bash, elvish, fish, powershell, zsh"@,
            _ => false,
        },
{
    if let Command::Install { sources, .. } = command {
        let views = text::texts(sources@);
        the_first_misplaced_version_counts(views, 1);
        if let Some(i) = version_operand(views, 1) {
            assert(views[i] == sources@[i]@ && views[i - 1] == sources@[i - 1]@);
        }
    }
}

} // verus!
