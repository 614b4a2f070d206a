//! Deciding which version a dependency should be at, and whether anything must change.

use vstd::prelude::*;
use crate::config::{dependency_folder_spec, Workspace};
use crate::error::VendorError;
use crate::fsx;
use crate::lockfile::{
    config_files_to_lock_files, flat_files, flat_outputs, locked_pairs, same_files,
    same_files_spec, same_lookups, same_target, target_filled, versioned_target, writes, LockView,
    Lockfile,
};
use crate::model::{
    entry_views, filter_empty, flat_pairs, hash_target, hash_view, non_empty, Dependency, EntryView,
    FileEntry, RawDependency, RawView, TargetView,
};
use crate::template::version_token_spec;
use crate::text;
use crate::value::{
    key_index, keys_distinct, lemma_key_index, lemma_view_map_index, lemma_view_map_insert,
    map_get, map_insert, view_map, OrderedMap,
};
use super::install::InstallOptions;
use super::Session;

verus! {

/// The version that is known without a lookup: the one asked for, or the configured one where no
/// newer one is wanted.
pub open spec fn known_version(
    asked: Option<Seq<char>>,
    configured: Option<Seq<char>>,
    should_update: bool,
) -> Option<Seq<char>> {
    if non_empty(asked) is Some {
        asked
    } else if should_update {
        None
    } else {
        non_empty(configured)
    }
}

/// Picks the version to install: the explicit one, the configured one, or none, which asks for a
/// fresh lookup.
pub fn decide_version(dependency: &Dependency, options: &InstallOptions) -> (r: Option<String>)
    ensures
        text::text_of(r) == known_version(
            text::text_of(options.new_version),
            text::text_of(dependency.version),
            options.should_update,
        ),
{
    if let Some(version) = filter_empty(&options.new_version) {
        return Some(version);
    }
    if options.should_update {
        return None;
    }
    filter_empty(&dependency.version)
}

/// Where a version is looked up.
#[derive(Debug, Clone, PartialEq, Eq)]
pub enum VersionSource {
    /// The latest commit that touches this file.
    Commit(String),
    /// The latest release.
    Release,
}

/// Where a dependency's version is looked up: with `hashVersionFile` the tracked file's latest
/// commit, else the latest release.
pub fn version_source(dependency: &Dependency) -> (r: Result<VersionSource, VendorError>)
    ensures
        match hash_target(
            hash_view(dependency.hash_version_file),
            entry_views(dependency.files@),
        ) {
            Ok(Some(path)) => r matches Ok(VersionSource::Commit(p)) && p@ == path,
            Ok(None) => r matches Ok(VersionSource::Release),
            Err(None) => r matches Err(VendorError::InvalidHashVersionFile),
            Err(Some(what)) => r matches Err(VendorError::InvalidHashVersionFileTarget(w)) && w@
                == what,
        },
{
    match dependency.hash_version_target() {
        Ok(Some(path)) => Ok(VersionSource::Commit(path)),
        Ok(None) => Ok(VersionSource::Release),
        Err(error) => Err(error),
    }
}

/// What the lookup of a commit comes to.
pub fn commit_version(path: &str, found: Result<String, VendorError>) -> (r: Result<
    String,
    VendorError,
>)
    ensures
        match found {
            Ok(sha) => r == Ok::<String, VendorError>(sha),
            Err(error) => r matches Err(VendorError::CommitShaLookup { path: p, source }) && p@
                == path@ && *source == error,
        },
{
    match found {
        Ok(sha) => Ok(sha),
        Err(error) => Err(
            VendorError::CommitShaLookup { path: path.to_owned(), source: Box::new(error) },
        ),
    }
}

/// What the lookup of a release comes to: its tag. A repository with no usable release yields an
/// empty version, except where only the outdated are asked for: there it is an error.
pub fn release_version(
    name: &str,
    found: Result<String, VendorError>,
    show_outdated_only: bool,
) -> (r: Result<String, VendorError>)
    ensures
        match found {
            Ok(tag) => r == Ok::<String, VendorError>(tag),
            Err(_) => if show_outdated_only {
                r matches Err(VendorError::NoVersionFound(n)) && n@ == name@
            } else {
                r matches Ok(version) && version@.len() == 0
            },
        },
{
    match found {
        Ok(tag) => Ok(tag),
        Err(_) => if show_outdated_only {
            Err(VendorError::NoVersionFound(name.to_owned()))
        } else {
            Ok(String::new())
        },
    }
}

/// What a `files` list locks at a version.
pub open spec fn locked_of(windows: bool, files: Seq<EntryView>, version: Seq<char>) -> Seq<
    (Seq<char>, TargetView),
> {
    let pairs = flat_pairs(windows, files, files.len() as int);
    locked_pairs(pairs, version, pairs.len() as int)
}

/// A version, empty where there is none.
pub open spec fn or_empty(version: Option<Seq<char>>) -> Seq<char> {
    match version {
        Some(version) => version,
        None => Seq::empty(),
    }
}

/// The names, below its folder, of the files a dependency has on disk by its config.
pub open spec fn declared_outputs(windows: bool, raw: RawView) -> Seq<Seq<char>> {
    match raw.files {
        Some(files) => {
            let locked = locked_of(windows, files, or_empty(raw.version));
            flat_outputs(locked, locked.len() as int)
        },
        None => Seq::empty(),
    }
}

/// A map with the first `n` of some files put into it, all of them owned by `name`.
pub open spec fn with_owned(
    windows: bool,
    map: Seq<(Seq<char>, Seq<char>)>,
    folder: Seq<char>,
    files: Seq<Seq<char>>,
    name: Seq<char>,
    n: int,
) -> Seq<(Seq<char>, Seq<char>)>
    decreases n,
{
    if n <= 0 {
        map
    } else {
        map_insert(
            with_owned(windows, map, folder, files, name, n - 1),
            fsx::anchored(windows, folder, files[n - 1]),
            name,
        )
    }
}

/// The folder of a dependency, by its own name where it has one, else by its key.
pub open spec fn folder_of(
    windows: bool,
    vendor_folder: Seq<char>,
    config_path: Seq<char>,
    raw: RawView,
    key: Seq<char>,
) -> Seq<char> {
    dependency_folder_spec(
        windows,
        vendor_folder,
        config_path,
        raw.vendor_folder,
        match non_empty(raw.name) {
            Some(name) => name,
            None => key,
        },
    )
}

/// Every path the first `n` dependencies expect on disk, with the one that owns it.
pub open spec fn owned_paths(
    windows: bool,
    vendor_folder: Seq<char>,
    config_path: Seq<char>,
    dependencies: Seq<(Seq<char>, RawView)>,
    n: int,
) -> Seq<(Seq<char>, Seq<char>)>
    decreases n,
{
    if n <= 0 {
        Seq::empty()
    } else {
        let (key, raw) = dependencies[n - 1];
        let files = declared_outputs(windows, raw);
        with_owned(
            windows,
            owned_paths(windows, vendor_folder, config_path, dependencies, n - 1),
            folder_of(windows, vendor_folder, config_path, raw, key),
            files,
            key,
            files.len() as int,
        )
    }
}

/// Every path a workspace expects on disk, with the dependency that owns it.
pub open spec fn workspace_paths(workspace: Workspace) -> Seq<(Seq<char>, Seq<char>)> {
    let dependencies = view_map(workspace.dependencies@);
    owned_paths(
        workspace.windows,
        workspace.config.vendor_folder@,
        workspace.file.settings.path@,
        dependencies,
        dependencies.len() as int,
    )
}

/// The paths, among the first `n`, that one dependency owns.
pub open spec fn paths_of(owners: Seq<(Seq<char>, Seq<char>)>, name: Seq<char>, n: int) -> Seq<
    Seq<char>,
>
    decreases n,
{
    if n <= 0 {
        Seq::empty()
    } else if owners[n - 1].1 == name {
        paths_of(owners, name, n - 1).push(owners[n - 1].0)
    } else {
        paths_of(owners, name, n - 1)
    }
}

/// Puts a list of files, all of them owned by `name`, into a map.
fn own_files(
    windows: bool,
    map: &mut OrderedMap<String>,
    folder: &str,
    files: &Vec<String>,
    name: &str,
)
    ensures
        view_map(final(map)@) == with_owned(
            windows,
            view_map(old(map)@),
            folder@,
            text::texts(files@),
            name@,
            files@.len() as int,
        ),
{
    let ghost before = view_map(map@);
    let ghost views = text::texts(files@);
    let mut i: usize = 0;
    while i < files.len()
        invariant
            i <= files@.len(),
            views == text::texts(files@),
            view_map(map@) == with_owned(windows, before, folder@, views, name@, i as int),
        decreases files@.len() - i,
    {
        let path = fsx::anchor(windows, folder, files[i].as_str());
        assert(path@ == fsx::anchored(windows, folder@, views[i as int]));
        let owner = name.to_owned();
        proof {
            lemma_view_map_insert(map@, path@, owner);
        }
        map.insert(path, owner);
        i += 1;
    }
}

/// What a dependency's `files` lock at its own version.
fn locked_files(windows: bool, files: &Vec<FileEntry>, version: &Option<String>) -> (r: OrderedMap<
    crate::model::FileTarget,
>)
    ensures
        view_map(r@) == locked_of(windows, entry_views(files@), or_empty(text::text_of(*version))),
{
    match version {
        Some(version) => config_files_to_lock_files(windows, files.as_slice(), version.as_str()),
        None => {
            let none = String::new();
            assert(none@ =~= Seq::empty());
            config_files_to_lock_files(windows, files.as_slice(), none.as_str())
        },
    }
}

/// The names, below its folder, of the files a dependency has on disk by its config.
pub fn declared_files(windows: bool, raw: &RawDependency) -> (r: Vec<String>)
    ensures
        text::texts(r@) == declared_outputs(windows, raw@),
{
    match &raw.files {
        Some(files) => flat_files(&locked_files(windows, files, &raw.version)),
        None => {
            let none: Vec<String> = Vec::new();
            assert(text::texts(none@) =~= Seq::empty());
            none
        },
    }
}

/// A dependency folder is out of step with the config: no readable lockfile, no entry in it, a
/// version that drifted, a file that vanished, or a changed `files` declaration.
pub open spec fn is_stale(
    windows: bool,
    lockfile: Option<Seq<(Seq<char>, LockView)>>,
    dependencies: Seq<(Seq<char>, RawView)>,
    name: Seq<char>,
    new_version: Seq<char>,
    all_present: bool,
) -> bool {
    match lockfile {
        None => true,
        Some(lockfile) => match map_get(lockfile, name) {
            None => true,
            Some(locked) => locked.version != new_version || !all_present || match map_get(
                dependencies,
                name,
            ) {
                None => true,
                Some(raw) => match raw.files {
                    None => true,
                    Some(files) => !same_files_spec(
                        locked_of(windows, files, or_empty(raw.version)),
                        locked.files,
                    ),
                },
            },
        },
    }
}

/// The entries of a lockfile that may not be readable.
pub open spec fn lockfile_view(lockfile: Option<&Lockfile>) -> Option<Seq<(Seq<char>, LockView)>> {
    match lockfile {
        Some(lockfile) => Some(view_map(lockfile@)),
        None => None,
    }
}

impl Session {
    /// Every path the config expects on disk, mapped to the dependency that owns it. Where two
    /// expect the same path, the later one owns it.
    pub fn files_from_config(&self) -> (r: OrderedMap<String>)
        ensures
            view_map(r@) == workspace_paths(self.workspace),
    {
        let ghost dependencies = view_map(self.workspace.dependencies@);
        let n: usize = self.workspace.dependencies.len();
        let mut map: OrderedMap<String> = OrderedMap::new();
        let mut i: usize = 0;
        assert(view_map(map@) =~= Seq::empty());
        while i < n
            invariant
                i <= n == dependencies.len(),
                dependencies == view_map(self.workspace.dependencies@),
                view_map(map@) == owned_paths(
                    self.workspace.windows,
                    self.workspace.config.vendor_folder@,
                    self.workspace.file.settings.path@,
                    dependencies,
                    i as int,
                ),
            decreases n - i,
        {
            let key = self.workspace.dependencies.key_at(i);
            let raw = self.workspace.dependencies.value_at(i);
            assert(dependencies[i as int] == (key@, raw@));
            let files = declared_files(self.workspace.windows, raw);
            let own = filter_empty(&raw.name);
            let name = match &own {
                Some(name) => name.as_str(),
                None => key,
            };
            let vendor_folder = match &raw.vendor_folder {
                Some(folder) => Some(folder.as_str()),
                None => None,
            };
            let folder = self.workspace.dependency_folder(vendor_folder, name);
            own_files(self.workspace.windows, &mut map, folder.as_str(), &files, key);
            i += 1;
        }
        map
    }

    /// The paths the config expects on disk of one dependency.
    pub fn expected_files(&self, name: &str) -> (r: Vec<String>)
        ensures
            ({
                let owners = workspace_paths(self.workspace);
                text::texts(r@) == paths_of(owners, name@, owners.len() as int)
            }),
    {
        let map = self.files_from_config();
        let ghost owners = view_map(map@);
        let n: usize = map.len();
        let mut r: Vec<String> = Vec::new();
        let mut i: usize = 0;
        assert(text::texts(r@) =~= Seq::empty());
        while i < n
            invariant
                i <= n == owners.len(),
                owners == view_map(map@),
                text::texts(r@) == paths_of(owners, name@, i as int),
            decreases n - i,
        {
            assert(owners[i as int] == (map@[i as int].0, map@[i as int].1@));
            if text::equal(map.value_at(i).as_str(), name) {
                let ghost before = r@;
                let path = map.key_at(i).to_owned();
                r.push(path);
                assert(text::texts(r@) =~= text::texts(before).push(path@));
            }
            i += 1;
        }
        r
    }

    /// Whether the dependency folder is out of step with the config, given its lockfile, which is
    /// absent where it cannot be read, and whether all of its expected files are there.
    pub fn needs_update(
        &self,
        name: &str,
        lockfile: Option<&Lockfile>,
        new_version: &str,
        all_present: bool,
    ) -> (r: bool)
        ensures
            r == is_stale(
                self.workspace.windows,
                lockfile_view(lockfile),
                view_map(self.workspace.dependencies@),
                name@,
                new_version@,
                all_present,
            ),
    {
        let lockfile = match lockfile {
            Some(lockfile) => lockfile,
            None => {
                return true;
            },
        };
        proof {
            lemma_view_map_index(lockfile@, name@, 0);
            lemma_key_index(lockfile@, name@, 0);
            lemma_view_map_index(self.workspace.dependencies@, name@, 0);
            lemma_key_index(self.workspace.dependencies@, name@, 0);
        }
        let locked = match lockfile.get(name) {
            Some(locked) => locked,
            None => {
                return true;
            },
        };
        if !text::equal(locked.version.as_str(), new_version) || !all_present {
            return true;
        }
        match self.workspace.dependencies.get(name) {
            Some(configured) => match &configured.files {
                Some(files) => !same_files(
                    &locked_files(self.workspace.windows, files, &configured.version),
                    &locked.files,
                ),
                None => true,
            },
            None => true,
        }
    }
}

/// A dependency is up to date only where its lockfile says so and nothing is missing: an
/// unreadable lockfile, another version or a vanished file each make it stale.
pub proof fn any_inconsistency_is_stale(
    windows: bool,
    lockfile: Option<Seq<(Seq<char>, LockView)>>,
    dependencies: Seq<(Seq<char>, RawView)>,
    name: Seq<char>,
    new_version: Seq<char>,
    all_present: bool,
)
    requires
        !is_stale(windows, lockfile, dependencies, name, new_version, all_present),
    ensures
        all_present,
        lockfile matches Some(held) && map_get(held, name) matches Some(locked) && locked.version
            == new_version,
        map_get(dependencies, name) is Some,
{
}

/// No archive member is listed twice in a target.
pub open spec fn members_distinct(target: TargetView) -> bool {
    target matches TargetView::ExtractMap(map) ==> keys_distinct(map)
}

/// Setting a name keeps the names apart.
proof fn lemma_insert_keeps_distinct<T>(map: Seq<(Seq<char>, T)>, key: Seq<char>, value: T)
    requires
        keys_distinct(map),
    ensures
        keys_distinct(map_insert(map, key, value)),
{
    lemma_key_index(map, key, 0);
    let after = map_insert(map, key, value);
    assert forall|i: int, j: int| 0 <= i < j < after.len() implies (#[trigger] after[i]).0 != (
    #[trigger] after[j]).0 by {
        if j < map.len() {
            assert(map[i].0 != map[j].0);
        }
    }
}

/// What is found under a name that stands once is what stands there.
proof fn lemma_found_at<T>(map: Seq<(Seq<char>, T)>, i: int)
    requires
        keys_distinct(map),
        0 <= i < map.len(),
    ensures
        map_get(map, map[i].0) == Some(map[i].1),
{
    lemma_key_index(map, map[i].0, 0);
    let k = key_index(map, map[i].0, 0)->0;
    if k < i {
        assert(map[k].0 != map[i].0);
    }
}

/// What pairs lock has each input once, and each target with its members apart.
proof fn lemma_locked_distinct(pairs: Seq<(Seq<char>, TargetView)>, version: Seq<char>, n: int)
    requires
        0 <= n <= pairs.len(),
        forall|i: int| 0 <= i < pairs.len() ==> members_distinct((#[trigger] pairs[i]).1),
    ensures
        keys_distinct(locked_pairs(pairs, version, n)),
        forall|i: int|
            0 <= i < locked_pairs(pairs, version, n).len() ==> members_distinct(
                (#[trigger] locked_pairs(pairs, version, n)[i]).1,
            ),
    decreases n,
{
    if n > 0 {
        lemma_locked_distinct(pairs, version, n - 1);
        let before = locked_pairs(pairs, version, n - 1);
        let target = versioned_target(pairs[n - 1].1, version);
        lemma_insert_keeps_distinct(before, pairs[n - 1].0, target);
        lemma_key_index(before, pairs[n - 1].0, 0);
        let after = locked_pairs(pairs, version, n);
        assert(members_distinct(target)) by {
            assert(members_distinct(pairs[n - 1].1));
            if let TargetView::ExtractMap(map) = pairs[n - 1].1 {
                let outputs = target->ExtractMap_0;
                assert forall|i: int, j: int| 0 <= i < j < outputs.len() implies (
                #[trigger] outputs[i]).0 != (#[trigger] outputs[j]).0 by {
                    assert(map[i].0 != map[j].0);
                }
            }
        }
        assert forall|i: int| 0 <= i < after.len() implies members_distinct(
            (#[trigger] after[i]).1,
        ) by {
            if i < before.len() && after[i] == before[i] {
                assert(members_distinct(before[i].1));
            }
        }
    }
}

/// A dependency that was just installed is up to date: once its lock entry is written and the
/// config is at its version, with its files in place, nothing is stale.
pub proof fn an_installed_dependency_is_up_to_date(
    windows: bool,
    lockfile: Seq<(Seq<char>, LockView)>,
    dependencies: Seq<(Seq<char>, RawView)>,
    name: Seq<char>,
    raw: RawView,
    repository: Seq<char>,
)
    requires
        map_get(dependencies, name) == Some(raw),
        raw.files is Some,
        raw.version is Some,
        ({
            let pairs = flat_pairs(windows, raw.files->0, raw.files->0.len() as int);
            forall|i: int| 0 <= i < pairs.len() ==> members_distinct((#[trigger] pairs[i]).1)
        }),
    ensures
        ({
            let lock = LockView {
                repository,
                version: raw.version->0,
                files: locked_of(windows, raw.files->0, raw.version->0),
            };
            !is_stale(
                windows,
                Some(map_insert(lockfile, name, lock)),
                dependencies,
                name,
                raw.version->0,
                true,
            )
        }),
{
    let files = raw.files->0;
    let version = raw.version->0;
    let locked = locked_of(windows, files, version);
    let lock = LockView { repository, version, files: locked };
    crate::value::get_after_insert(lockfile, name, lock);
    let pairs = flat_pairs(windows, files, files.len() as int);
    lemma_locked_distinct(pairs, version, pairs.len() as int);
    assert forall|i: int| 0 <= i < locked.len() implies map_get(locked, (#[trigger] locked[i]).0)
        is Some && same_target(locked[i].1, map_get(locked, locked[i].0)->0) by {
        lemma_found_at(locked, i);
        assert(members_distinct(locked[i].1));
        if let TargetView::ExtractMap(map) = locked[i].1 {
            assert forall|j: int| 0 <= j < map.len() implies map_get(map, (#[trigger] map[j]).0)
                == Some(map[j].1) by {
                lemma_found_at(map, j);
            }
        }
    }
}

/// Two locked targets agree: they are one and the same, or take the same members out under the same
/// names.
pub open spec fn agree(a: TargetView, b: TargetView) -> bool {
    match (a, b) {
        (TargetView::ExtractMap(x), TargetView::ExtractMap(y)) => same_lookups(x, y),
        _ => a == b,
    }
}

/// A dependency that is up to date has exactly the files it declares in its lockfile: each input it
/// declares is locked, with the target it locks at the configured version, and nothing else is.
pub proof fn what_is_up_to_date_has_its_files_locked(
    windows: bool,
    lockfile: Seq<(Seq<char>, LockView)>,
    dependencies: Seq<(Seq<char>, RawView)>,
    name: Seq<char>,
    new_version: Seq<char>,
    locked: LockView,
    raw: RawView,
)
    requires
        !is_stale(windows, Some(lockfile), dependencies, name, new_version, true),
        map_get(lockfile, name) == Some(locked),
        map_get(dependencies, name) == Some(raw),
        keys_distinct(locked.files),
        forall|j: int| 0 <= j < locked.files.len() ==> members_distinct((#[trigger] locked.files[j]).1),
        raw.files matches Some(files) ==> ({
            let pairs = flat_pairs(windows, files, files.len() as int);
            forall|i: int| 0 <= i < pairs.len() ==> members_distinct((#[trigger] pairs[i]).1)
        }),
    ensures
        locked.version == new_version,
        raw.files is Some,
        ({
            let files = raw.files->0;
            let pairs = flat_pairs(windows, files, files.len() as int);
            let declared = locked_pairs(pairs, or_empty(raw.version), pairs.len() as int);
            &&& forall|i: int|
                0 <= i < pairs.len() ==> map_get(locked.files, (#[trigger] pairs[i]).0) is Some
                    && map_get(declared, pairs[i].0) is Some && agree(
                    map_get(declared, pairs[i].0)->0,
                    map_get(locked.files, pairs[i].0)->0,
                )
            &&& forall|j: int|
                0 <= j < locked.files.len() ==> exists|i: int|
                    0 <= i < pairs.len() && (#[trigger] pairs[i]).0 == (
                    #[trigger] locked.files[j]).0
        }),
{
    let files = raw.files->0;
    let pairs = flat_pairs(windows, files, files.len() as int);
    let n = pairs.len() as int;
    let declared = locked_pairs(pairs, or_empty(raw.version), n);
    lemma_locked_distinct(pairs, or_empty(raw.version), n);
    crate::lockfile::only_declared_files_are_locked(pairs, or_empty(raw.version), n);
    assert(same_files_spec(declared, locked.files));
    crate::value::names_that_fit_are_all_of_them(declared, locked.files);
    assert forall|i: int| 0 <= i < n implies map_get(locked.files, (#[trigger] pairs[i]).0) is Some
        && map_get(declared, pairs[i].0) is Some && agree(
        map_get(declared, pairs[i].0)->0,
        map_get(locked.files, pairs[i].0)->0,
    ) by {
        lemma_input_is_locked(pairs, or_empty(raw.version), n, i);
        lemma_key_index(declared, pairs[i].0, 0);
        let k = key_index(declared, pairs[i].0, 0)->0;
        assert(declared[k].0 == pairs[i].0);
        lemma_key_index(locked.files, pairs[i].0, 0);
        let j = key_index(locked.files, pairs[i].0, 0)->0;
        assert(members_distinct(locked.files[j].1) && members_distinct(declared[k].1));
        crate::lockfile::targets_that_are_the_same_write_the_same(
            declared[k].1,
            locked.files[j].1,
        );
    }
    assert forall|j: int| 0 <= j < locked.files.len() implies exists|i: int|
        0 <= i < pairs.len() && (#[trigger] pairs[i]).0 == (#[trigger] locked.files[j]).0 by {
        lemma_key_index(declared, locked.files[j].0, 0);
        assert(map_get(declared, locked.files[j].0) is Some);
        let k = key_index(declared, locked.files[j].0, 0)->0;
        assert(declared[k].0 == locked.files[j].0);
        let i = choose|i: int| 0 <= i < n && (#[trigger] pairs[i]).0 == declared[k].0;
        assert(pairs[i].0 == locked.files[j].0);
    }
}

/// Every declared input is locked.
proof fn lemma_input_is_locked(
    pairs: Seq<(Seq<char>, TargetView)>,
    version: Seq<char>,
    n: int,
    i: int,
)
    requires
        0 <= i < n <= pairs.len(),
    ensures
        map_get(locked_pairs(pairs, version, n), pairs[i].0) is Some,
    decreases n,
{
    let before = locked_pairs(pairs, version, n - 1);
    let target = versioned_target(pairs[n - 1].1, version);
    crate::value::get_after_insert(before, pairs[n - 1].0, target);
    if i < n - 1 && pairs[i].0 != pairs[n - 1].0 {
        lemma_input_is_locked(pairs, version, n - 1, i);
        crate::value::insert_keeps_the_others(before, pairs[n - 1].0, target, pairs[i].0);
    }
}

/// A declared file that the lockfile does not have, or has with another target, makes a dependency
/// stale, and so does a locked file that is no longer declared.
pub proof fn a_changed_declaration_is_stale(
    windows: bool,
    lockfile: Seq<(Seq<char>, LockView)>,
    dependencies: Seq<(Seq<char>, RawView)>,
    name: Seq<char>,
    new_version: Seq<char>,
    locked: LockView,
    raw: RawView,
    input: Seq<char>,
)
    requires
        map_get(lockfile, name) == Some(locked),
        map_get(dependencies, name) == Some(raw),
        raw.files is Some,
        keys_distinct(locked.files),
        ({
            let declared = locked_of(windows, raw.files->0, or_empty(raw.version));
            map_get(declared, input) is Some != map_get(locked.files, input) is Some || (map_get(
                declared,
                input,
            ) is Some && !same_target(map_get(declared, input)->0, map_get(locked.files, input)->0))
        }),
    ensures
        is_stale(windows, Some(lockfile), dependencies, name, new_version, true),
{
    let pairs = flat_pairs(windows, raw.files->0, raw.files->0.len() as int);
    let declared = locked_of(windows, raw.files->0, or_empty(raw.version));
    crate::lockfile::only_declared_files_are_locked(
        pairs,
        or_empty(raw.version),
        pairs.len() as int,
    );
    if same_files_spec(declared, locked.files) {
        crate::value::names_that_fit_are_all_of_them(declared, locked.files);
        lemma_key_index(declared, input, 0);
        lemma_key_index(locked.files, input, 0);
        if let Some(k) = key_index(declared, input, 0) {
            assert(declared[k].0 == input);
        }
        if let Some(j) = key_index(locked.files, input, 0) {
            assert(locked.files[j].0 == input);
        }
    }
}

/// A version that was asked for is the one; without one, what the config says counts as long as no
/// newer one is wanted, and where one is wanted it is looked up.
pub proof fn an_asked_version_is_the_one(
    asked: Seq<char>,
    configured: Option<Seq<char>>,
    should_update: bool,
)
    ensures
        asked.len() > 0 ==> known_version(Some(asked), configured, should_update) == Some(asked),
        known_version(None, configured, true) is None,
        configured is Some && configured->0.len() > 0 ==> known_version(None, configured, false)
            == configured,
        known_version(None, None, false) is None,
        known_version(None, Some(Seq::empty()), false) is None,
        known_version(Some(Seq::empty()), configured, should_update) == known_version(
            None,
            configured,
            should_update,
        ),
{
}

/// What an entry declares on disk is what its files write at its own version: of each input the
/// last that is declared, with the version filled in.
pub proof fn an_entry_declares_what_its_files_write(
    windows: bool,
    raw: RawView,
    i: int,
    target: TargetView,
    output: Seq<char>,
)
    requires
        raw.files is Some,
        ({
            let pairs = flat_pairs(windows, raw.files->0, raw.files->0.len() as int);
            &&& 0 <= i < pairs.len()
            &&& forall|j: int| i < j < pairs.len() ==> (#[trigger] pairs[j]).0 != pairs[i].0
            &&& map_get(locked_of(windows, raw.files->0, or_empty(raw.version)), pairs[i].0) == Some(
                target,
            )
        }),
        writes(target, output),
    ensures
        declared_outputs(windows, raw).contains(output),
        ({
            let pairs = flat_pairs(windows, raw.files->0, raw.files->0.len() as int);
            target_filled(pairs[i].1, version_token_spec(or_empty(raw.version)), target)
        }),
{
    let files = raw.files->0;
    let pairs = flat_pairs(windows, files, files.len() as int);
    let n = pairs.len() as int;
    let locked = locked_of(windows, files, or_empty(raw.version));
    crate::lockfile::every_declared_file_is_locked(pairs, or_empty(raw.version), n, i);
    lemma_key_index(locked, pairs[i].0, 0);
    let k = key_index(locked, pairs[i].0, 0)->0;
    assert(writes(locked[k].1, output));
    crate::lockfile::the_files_are_what_the_targets_write(locked, output, locked.len() as int);
}

/// Every file that a dependency declares is expected on disk, where it lands below the dependency's
/// own folder.
pub proof fn every_declared_file_is_expected(
    windows: bool,
    vendor_folder: Seq<char>,
    config_path: Seq<char>,
    dependencies: Seq<(Seq<char>, RawView)>,
    n: int,
    k: int,
    f: int,
)
    requires
        0 <= k < n <= dependencies.len(),
        0 <= f < declared_outputs(windows, dependencies[k].1).len(),
    ensures
        ({
            let (key, raw) = dependencies[k];
            let folder = dependency_folder_spec(
                windows,
                vendor_folder,
                config_path,
                raw.vendor_folder,
                if raw.name is Some && raw.name->0.len() > 0 {
                    raw.name->0
                } else {
                    key
                },
            );
            map_get(
                owned_paths(windows, vendor_folder, config_path, dependencies, n),
                fsx::anchored(windows, folder, declared_outputs(windows, raw)[f]),
            ) is Some
        }),
    decreases n,
{
    let (key, raw) = dependencies[n - 1];
    let files = declared_outputs(windows, raw);
    let folder = folder_of(windows, vendor_folder, config_path, raw, key);
    let before = owned_paths(windows, vendor_folder, config_path, dependencies, n - 1);
    let (own_key, own) = dependencies[k];
    let path = fsx::anchored(
        windows,
        folder_of(windows, vendor_folder, config_path, own, own_key),
        declared_outputs(windows, own)[f],
    );
    if k < n - 1 {
        every_declared_file_is_expected(
            windows,
            vendor_folder,
            config_path,
            dependencies,
            n - 1,
            k,
            f,
        );
        lemma_owned_stays(windows, before, folder, files, key, files.len() as int, path);
    } else {
        lemma_owned_holds(windows, before, folder, files, key, files.len() as int, f);
    }
}

/// What is expected stays expected, whoever owns it.
proof fn lemma_owned_stays(
    windows: bool,
    map: Seq<(Seq<char>, Seq<char>)>,
    folder: Seq<char>,
    files: Seq<Seq<char>>,
    name: Seq<char>,
    n: int,
    path: Seq<char>,
)
    requires
        0 <= n <= files.len(),
        map_get(map, path) is Some,
    ensures
        map_get(with_owned(windows, map, folder, files, name, n), path) is Some,
    decreases n,
{
    if n > 0 {
        lemma_owned_stays(windows, map, folder, files, name, n - 1, path);
        let before = with_owned(windows, map, folder, files, name, n - 1);
        let new = fsx::anchored(windows, folder, files[n - 1]);
        crate::value::get_after_insert(before, new, name);
        if new != path {
            crate::value::insert_keeps_the_others(before, new, name, path);
        }
    }
}

/// Each file of a list is put where it lands, under its owner.
proof fn lemma_owned_holds(
    windows: bool,
    map: Seq<(Seq<char>, Seq<char>)>,
    folder: Seq<char>,
    files: Seq<Seq<char>>,
    name: Seq<char>,
    n: int,
    f: int,
)
    requires
        0 <= f < n <= files.len(),
    ensures
        map_get(
            with_owned(windows, map, folder, files, name, n),
            fsx::anchored(windows, folder, files[f]),
        ) == Some(name),
    decreases n,
{
    let before = with_owned(windows, map, folder, files, name, n - 1);
    let new = fsx::anchored(windows, folder, files[n - 1]);
    let path = fsx::anchored(windows, folder, files[f]);
    crate::value::get_after_insert(before, new, name);
    if path != new {
        lemma_owned_holds(windows, map, folder, files, name, n - 1, f);
        crate::value::insert_keeps_the_others(before, new, name, path);
    }
}

/// The paths of one dependency are those that it owns, and no others.
pub proof fn a_dependency_expects_what_it_owns(
    owners: Seq<(Seq<char>, Seq<char>)>,
    name: Seq<char>,
    path: Seq<char>,
    n: int,
)
    requires
        0 <= n <= owners.len(),
    ensures
        paths_of(owners, name, n).contains(path) <==> exists|i: int|
            0 <= i < n && #[trigger] owners[i] == (path, name),
    decreases n,
{
    if n > 0 {
        a_dependency_expects_what_it_owns(owners, name, path, n - 1);
        let before = paths_of(owners, name, n - 1);
        let after = paths_of(owners, name, n);
        if after.contains(path) {
            let k = after.index_of(path);
            if k < before.len() {
                assert(before[k] == path);
                let i = choose|i: int| 0 <= i < n - 1 && #[trigger] owners[i] == (path, name);
                assert(owners[i] == (path, name));
            } else {
                assert(owners[n - 1] == (path, name));
            }
        }
        if exists|i: int| 0 <= i < n && #[trigger] owners[i] == (path, name) {
            let i = choose|i: int| 0 <= i < n && #[trigger] owners[i] == (path, name);
            if i < n - 1 {
                assert(before.contains(path));
                assert(after[before.index_of(path)] == path);
            } else {
                assert(after[before.len() as int] == path);
            }
        }
    }
}

/// Files put into a map leave what is at other paths as it is.
proof fn lemma_owned_keeps(
    windows: bool,
    map: Seq<(Seq<char>, Seq<char>)>,
    folder: Seq<char>,
    files: Seq<Seq<char>>,
    name: Seq<char>,
    n: int,
    path: Seq<char>,
)
    requires
        0 <= n <= files.len(),
        forall|f: int| 0 <= f < n ==> fsx::anchored(windows, folder, #[trigger] files[f]) != path,
    ensures
        map_get(with_owned(windows, map, folder, files, name, n), path) == map_get(map, path),
    decreases n,
{
    if n > 0 {
        lemma_owned_keeps(windows, map, folder, files, name, n - 1, path);
        let before = with_owned(windows, map, folder, files, name, n - 1);
        let new = fsx::anchored(windows, folder, files[n - 1]);
        crate::value::insert_keeps_the_others(before, new, name, path);
    }
}

/// A dependency declares a path: one of its files lands there, below its own folder.
pub open spec fn declares(
    windows: bool,
    vendor_folder: Seq<char>,
    config_path: Seq<char>,
    dependency: (Seq<char>, RawView),
    path: Seq<char>,
) -> bool {
    exists|f: int|
        0 <= f < declared_outputs(windows, dependency.1).len() && path == fsx::anchored(
            windows,
            folder_of(windows, vendor_folder, config_path, dependency.1, dependency.0),
            #[trigger] declared_outputs(windows, dependency.1)[f],
        )
}

/// A path that dependencies declare belongs to the last of them, by its key in the config.
pub proof fn the_last_to_declare_a_file_owns_it(
    windows: bool,
    vendor_folder: Seq<char>,
    config_path: Seq<char>,
    dependencies: Seq<(Seq<char>, RawView)>,
    n: int,
    k: int,
    path: Seq<char>,
)
    requires
        0 <= k < n <= dependencies.len(),
        declares(windows, vendor_folder, config_path, dependencies[k], path),
        forall|j: int|
            k < j < n ==> !declares(
                windows,
                vendor_folder,
                config_path,
                #[trigger] dependencies[j],
                path,
            ),
    ensures
        map_get(owned_paths(windows, vendor_folder, config_path, dependencies, n), path) == Some(
            dependencies[k].0,
        ),
    decreases n,
{
    if k < n - 1 {
        the_last_to_declare_a_file_owns_it(
            windows,
            vendor_folder,
            config_path,
            dependencies,
            n - 1,
            k,
            path,
        );
        lemma_undeclared_stays(windows, vendor_folder, config_path, dependencies, n, path);
    } else {
        let (key, raw) = dependencies[k];
        let files = declared_outputs(windows, raw);
        let folder = folder_of(windows, vendor_folder, config_path, raw, key);
        let f = choose|f: int|
            0 <= f < files.len() && path == fsx::anchored(windows, folder, #[trigger] files[f]);
        lemma_owned_holds(
            windows,
            owned_paths(windows, vendor_folder, config_path, dependencies, k),
            folder,
            files,
            key,
            files.len() as int,
            f,
        );
    }
}

/// A dependency changes nothing about a path that it does not declare.
proof fn lemma_undeclared_stays(
    windows: bool,
    vendor_folder: Seq<char>,
    config_path: Seq<char>,
    dependencies: Seq<(Seq<char>, RawView)>,
    n: int,
    path: Seq<char>,
)
    requires
        0 < n <= dependencies.len(),
        !declares(windows, vendor_folder, config_path, dependencies[n - 1], path),
    ensures
        map_get(owned_paths(windows, vendor_folder, config_path, dependencies, n), path) == map_get(
            owned_paths(windows, vendor_folder, config_path, dependencies, n - 1),
            path,
        ),
{
    let (key, raw) = dependencies[n - 1];
    let files = declared_outputs(windows, raw);
    let folder = folder_of(windows, vendor_folder, config_path, raw, key);
    assert forall|f: int| 0 <= f < files.len() implies fsx::anchored(
        windows,
        folder,
        #[trigger] files[f],
    ) != path by {
        if fsx::anchored(windows, folder, files[f]) == path {
            assert(declares(windows, vendor_folder, config_path, dependencies[n - 1], path));
        }
    }
    lemma_owned_keeps(
        windows,
        owned_paths(windows, vendor_folder, config_path, dependencies, n - 1),
        folder,
        files,
        key,
        files.len() as int,
        path,
    );
}

/// A path that no dependency declares is not expected on disk.
pub proof fn what_none_declares_is_not_expected(
    windows: bool,
    vendor_folder: Seq<char>,
    config_path: Seq<char>,
    dependencies: Seq<(Seq<char>, RawView)>,
    n: int,
    path: Seq<char>,
)
    requires
        0 <= n <= dependencies.len(),
        forall|j: int|
            0 <= j < n ==> !declares(
                windows,
                vendor_folder,
                config_path,
                #[trigger] dependencies[j],
                path,
            ),
    ensures
        map_get(owned_paths(windows, vendor_folder, config_path, dependencies, n), path) is None,
    decreases n,
{
    if n > 0 {
        what_none_declares_is_not_expected(
            windows,
            vendor_folder,
            config_path,
            dependencies,
            n - 1,
            path,
        );
        lemma_undeclared_stays(windows, vendor_folder, config_path, dependencies, n, path);
    }
}

} // verus!
