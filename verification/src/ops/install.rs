//! `install`: resolve a version, refresh the dependency folder, update config and lockfile.
//!
//! An install is split into stages: deciding what is stale, fetching, and committing. What is
//! decided in each of them is here; the fetching and the writing are the caller's.

use vstd::prelude::*;
use vstd::utf8::is_ascii_chars;
use crate::codec;
use crate::config::document::{bumped, unwritten, upsert_refusal, upserted};
use crate::config::dependency_folder_spec;
use crate::error::VendorError;
use crate::fsx;
use crate::lockfile::{config_files_to_lock_files, versioned, LockView, Lockfile, VendorLock};
use crate::model::{
    copy_files, copy_hash, copy_text, entry_views, flat_pairs, flatten_files, hash_view,
    pair_views, pairs_of, spec_views, target_json, without_defaults, write_target,
    Dependency, FileSpec, FileTarget, RawDependency, RawView, TargetView,
};
use crate::template::{
    a_placeholder_is_filled, a_release_asset_is_what_follows_the_marker, fills, is_release_path,
    release_path, replace_version, semver_from, strip_release_prefix, token_of, version_token,
    version_token_spec, without_release,
};
use crate::text;
use crate::ui;
use crate::value::{
    lemma_json_view, lemma_key_index, lemma_view_map_index, lemma_view_map_insert, list_view,
    map_get, map_insert, view_map, Json, JsonView,
};
use super::version::{is_stale, locked_of, lockfile_view};
use super::{Session, VersionDecision, LOCKFILE};

verus! {

/// How an install should behave.
#[derive(Debug, Clone)]
pub struct InstallOptions {
    /// Resolve the latest version rather than trusting the configured one.
    pub should_update: bool,
    /// Reinstall even when the lockfile says everything is in place.
    pub force: bool,
    /// Install this exact version.
    pub new_version: Option<String>,
    /// Report what would change and stop.
    pub show_outdated_only: bool,
}

impl Default for InstallOptions {
    fn default() -> (r: Self)
        ensures
            !r.should_update && !r.force && r.new_version is None && !r.show_outdated_only,
    {
        InstallOptions {
            should_update: false,
            force: false,
            new_version: None,
            show_outdated_only: false,
        }
    }
}

/// A dependency with its version decided and its staleness known.
#[derive(Debug)]
pub struct Prepared {
    /// The dependency.
    pub dependency: Dependency,
    /// How its install should behave.
    pub options: InstallOptions,
    /// The folder its files go to.
    pub folder: String,
    /// Where its lockfile is.
    pub lockfile_path: String,
    /// The version to install.
    pub version: String,
    /// Whether anything needs to be written.
    pub needs_update: bool,
}

impl Prepared {
    /// Whether the download stage has any work to do.
    pub fn has_work(&self) -> (r: bool)
        ensures
            r == (self.needs_update && !self.options.show_outdated_only),
    {
        self.needs_update && !self.options.show_outdated_only
    }
}

/// Settles whether anything needs to be written: where it is forced, and where something is stale.
pub fn decide(version: String, force: bool, stale: bool) -> (r: VersionDecision)
    ensures
        r == (VersionDecision { version, needs_update: force || stale }),
{
    VersionDecision { version, needs_update: force || stale }
}

/// The line for one outdated dependency: its name, and the change where there is one.
pub open spec fn outdated_spec(
    name: Seq<char>,
    before: Option<Seq<char>>,
    after: Seq<char>,
) -> Seq<char> {
    if before is Some && before->0 != after {
        name + " "@ + ui::painted("31"@, before->0) + " -> "@ + ui::painted("32"@, after)
    } else {
        name + " "@ + after
    }
}

/// One line of `vendor outdated` output.
pub fn report_outdated(dependency: &Dependency, new_version: &str) -> (r: String)
    ensures
        r@ == outdated_spec(
            dependency.name@,
            text::text_of(dependency.version),
            new_version@,
        ),
{
    let mut r = dependency.name.clone();
    r.append(" ");
    if let Some(before) = &dependency.version {
        if !text::equal(before.as_str(), new_version) {
            r.append(ui::red(before.as_str()).as_str());
            r.append(" -> ");
            r.append(ui::green(new_version).as_str());
            return r;
        }
    }
    r.append(new_version);
    r
}

/// What committing a prepared dependency does.
#[derive(Debug)]
pub enum Commit {
    /// Nothing is written; this line is printed where something is outdated.
    Report(Option<String>),
    /// Nothing needed doing.
    UpToDate,
    /// The lockfile is written, and the config too where the version changed.
    Write {
        /// The entry the lockfile gets.
        lock: VendorLock,
        /// Whether the version is written to the config.
        record: bool,
        /// The version it is said to be updated from; installed, where there is none.
        updated_from: Option<String>,
        /// The version that is handed back, where newer ones were looked for.
        result: Option<String>,
    },
}

/// What committing a prepared dependency does.
pub open spec fn commits(windows: bool, commit: Commit, prepared: Prepared) -> bool {
    let dependency = prepared.dependency;
    let before = text::text_of(dependency.version);
    let after = prepared.version@;
    if prepared.options.show_outdated_only {
        commit matches Commit::Report(line) && text::text_of(line) == if prepared.needs_update {
            Some(outdated_spec(dependency.name@, before, after))
        } else {
            None
        }
    } else if !prepared.needs_update {
        commit is UpToDate
    } else {
        commit matches Commit::Write { lock, record, updated_from, result } && lock@ == (LockView {
            repository: dependency.repository@,
            version: after,
            files: locked_of(windows, entry_views(dependency.files@), after),
        }) && record == (before != Some(after)) && text::text_of(updated_from)
            == if prepared.options.should_update {
            before
        } else {
            None
        } && text::text_of(result) == if prepared.options.should_update {
            Some(after)
        } else {
            None
        }
    }
}

impl Session {
    /// The folder of a dependency and its lockfile.
    pub fn place(&self, dependency: &Dependency) -> (r: (String, String))
        ensures
            r.0@ == dependency_folder_spec(
                self.workspace.windows,
                self.workspace.config.vendor_folder@,
                self.workspace.file.settings.path@,
                text::text_of(dependency.vendor_folder),
                dependency.name@,
            ),
            r.1@ == fsx::appended(self.workspace.windows, r.0@, LOCKFILE@),
    {
        let own = match &dependency.vendor_folder {
            Some(folder) => Some(folder.as_str()),
            None => None,
        };
        let folder = self.workspace.dependency_folder(own, dependency.name.as_str());
        let lockfile_path = Self::lockfile_path(self.workspace.windows, folder.as_str());
        (folder, lockfile_path)
    }

    /// Works out where the dependency lives and whether it is stale, given its lockfile, which is
    /// absent where it cannot be read, and whether all of its expected files are there.
    pub fn prepare(
        &self,
        dependency: Dependency,
        options: InstallOptions,
        version: String,
        lockfile: Option<&Lockfile>,
        all_present: bool,
    ) -> (r: Prepared)
        ensures
            r.dependency == dependency,
            r.options == options,
            r.version == version,
            r.folder@ == dependency_folder_spec(
                self.workspace.windows,
                self.workspace.config.vendor_folder@,
                self.workspace.file.settings.path@,
                text::text_of(dependency.vendor_folder),
                dependency.name@,
            ),
            r.lockfile_path@ == fsx::appended(self.workspace.windows, r.folder@, LOCKFILE@),
            r.needs_update == (options.force || is_stale(
                self.workspace.windows,
                lockfile_view(lockfile),
                view_map(self.workspace.dependencies@),
                dependency.name@,
                version@,
                all_present,
            )),
    {
        let (folder, lockfile_path) = self.place(&dependency);
        let stale = self.needs_update(
            dependency.name.as_str(),
            lockfile,
            version.as_str(),
            all_present,
        );
        let decision = decide(version, options.force, stale);
        Prepared {
            dependency,
            options,
            folder,
            lockfile_path,
            version: decision.version,
            needs_update: decision.needs_update,
        }
    }

    /// What committing a prepared dependency does: report it, leave it, or write its lockfile and,
    /// where its version changed, the config.
    ///
    /// A dependency with no previous version is installed, not updated.
    pub fn commit(&self, prepared: &Prepared) -> (r: Commit)
        ensures
            commits(self.workspace.windows, r, *prepared),
    {
        let dependency = &prepared.dependency;
        let version = prepared.version.as_str();
        if prepared.options.show_outdated_only {
            return Commit::Report(
                if prepared.needs_update {
                    Some(report_outdated(dependency, version))
                } else {
                    None
                },
            );
        }
        if !prepared.needs_update {
            return Commit::UpToDate;
        }
        let lock = VendorLock {
            repository: dependency.repository.clone(),
            version: prepared.version.clone(),
            files: config_files_to_lock_files(
                self.workspace.windows,
                dependency.files.as_slice(),
                version,
            ),
        };
        let record = match &dependency.version {
            Some(before) => !text::equal(before.as_str(), version),
            None => true,
        };
        if prepared.options.should_update {
            Commit::Write {
                lock,
                record,
                updated_from: copy_text(&dependency.version),
                result: Some(prepared.version.clone()),
            }
        } else {
            Commit::Write { lock, record, updated_from: None, result: None }
        }
    }
}

/// The config entry of a dependency that was just installed.
pub open spec fn new_entry(dependency: Dependency, version: Seq<char>) -> RawView {
    RawView {
        version: Some(version),
        repository: Some(dependency.repository@),
        files: Some(entry_views(dependency.files@)),
        hash_version_file: hash_view(dependency.hash_version_file),
        name: None,
        vendor_folder: text::text_of(dependency.vendor_folder),
        release_regex: text::text_of(dependency.release_regex),
        locked: if dependency.locked {
            Some(true)
        } else {
            None
        },
    }
}

impl Session {
    /// Puts the new version into the config, adding the dependency if it is new.
    ///
    /// A resolved dependency has the `default` block folded into it, so the keys that only restate
    /// it are dropped again before a new entry is written. The dependencies in memory are left
    /// alone for entries that already existed, so a version written mid-run is never visible to the
    /// staleness checks of later dependencies.
    pub fn record_version(&mut self, dependency: &Dependency, new_version: &str) -> (r: Result<
        (),
        VendorError,
    >)
        ensures
            final(self).workspace.windows == old(self).workspace.windows,
            final(self).workspace.config == old(self).workspace.config,
            final(self).workspace.defaults == old(self).workspace.defaults,
            final(self).workspace.file.settings == old(self).workspace.file.settings,
            ({
                let before = view_map(old(self).workspace.dependencies@);
                let after = view_map(final(self).workspace.dependencies@);
                let document = old(self).workspace.file.document@;
                let name = dependency.name@;
                let entry = new_entry(*dependency, new_version@);
                let written = without_defaults(entry, old(self).workspace.defaults@);
                if map_get(before, name) is Some {
                    r is Ok && after == before && bumped(
                        document,
                        final(self).workspace.file.document@,
                        name,
                        new_version@,
                    )
                } else {
                    match upsert_refusal(document) {
                        None => r is Ok && upserted(
                            document,
                            final(self).workspace.file.document@,
                            name,
                            written,
                        ) && after == map_insert(before, name, entry),
                        Some(said) => (r matches Err(e) && unwritten(e, name, said)) && after == before
                            && final(self).workspace.file.document@ == document,
                    }
                }
            }),
    {
        proof {
            lemma_view_map_index(self.workspace.dependencies@, dependency.name@, 0);
            lemma_key_index(self.workspace.dependencies@, dependency.name@, 0);
        }
        let name = dependency.name.as_str();
        if self.workspace.dependencies.get(name).is_some() {
            self.workspace.file.document.set_dependency_version(name, new_version);
            return Ok(());
        }
        let entry = RawDependency {
            version: Some(new_version.to_owned()),
            repository: Some(dependency.repository.clone()),
            files: Some(copy_files(&dependency.files)),
            hash_version_file: copy_hash(&dependency.hash_version_file),
            name: None,
            vendor_folder: copy_text(&dependency.vendor_folder),
            release_regex: copy_text(&dependency.release_regex),
            locked: if dependency.locked {
                Some(true)
            } else {
                None
            },
        };
        assert(entry@ == new_entry(*dependency, new_version@));
        let mut written = entry.copy();
        written.strip_defaults(&self.workspace.defaults);
        match self.workspace.file.document.upsert_dependency(name, &written) {
            Ok(()) => {
                proof {
                    lemma_view_map_insert(self.workspace.dependencies@, name@, entry);
                }
                self.workspace.dependencies.insert(name.to_owned(), entry);
                Ok(())
            },
            Err(error) => Err(error),
        }
    }
}

/// The first `n` pairs whose input is, or is not, a release asset.
pub open spec fn picked(pairs: Seq<(Seq<char>, TargetView)>, release: bool, n: int) -> Seq<
    (Seq<char>, TargetView),
>
    decreases n,
{
    if n <= 0 {
        Seq::empty()
    } else if release_path(pairs[n - 1].0) == release {
        picked(pairs, release, n - 1).push(pairs[n - 1])
    } else {
        picked(pairs, release, n - 1)
    }
}

/// The files of a dependency in two batches: those of the repository itself, and release assets,
/// each in declaration order.
pub fn batches(windows: bool, dependency: &Dependency) -> (r: (Vec<FileSpec>, Vec<FileSpec>))
    ensures
        ({
            let pairs = flat_pairs(
                windows,
                entry_views(dependency.files@),
                dependency.files@.len() as int,
            );
            &&& spec_views(r.0@) == picked(pairs, false, pairs.len() as int)
            &&& spec_views(r.1@) == picked(pairs, true, pairs.len() as int)
        }),
{
    let specs = flatten_files(windows, dependency.files.as_slice());
    let ghost pairs = spec_views(specs@);
    let mut from_repo: Vec<FileSpec> = Vec::new();
    let mut from_release: Vec<FileSpec> = Vec::new();
    let mut i: usize = 0;
    assert(spec_views(from_repo@) =~= Seq::empty());
    assert(spec_views(from_release@) =~= Seq::empty());
    while i < specs.len()
        invariant
            i <= specs@.len(),
            pairs == spec_views(specs@),
            spec_views(from_repo@) == picked(pairs, false, i as int),
            spec_views(from_release@) == picked(pairs, true, i as int),
        decreases specs@.len() - i,
    {
        let spec = FileSpec { input: specs[i].input.clone(), output: specs[i].output.copy() };
        let ghost pair = pairs[i as int];
        assert(pair == (specs@[i as int].input@, specs@[i as int].output@));
        if is_release_path(spec.input.as_str()) {
            let ghost before = from_release@;
            from_release.push(spec);
            assert(spec_views(from_release@) =~= spec_views(before).push(pair));
        } else {
            let ghost before = from_repo@;
            from_repo.push(spec);
            assert(spec_views(from_repo@) =~= spec_views(before).push(pair));
        }
        i += 1;
    }
    (from_repo, from_release)
}

/// What the row says while repository files arrive.
pub fn repo_status(count: usize) -> (r: String)
    ensures
        r@ == "downloading "@ + text::decimal_spec(count as int) + " file(s)"@,
{
    let mut r = "downloading ".to_owned();
    r.append(text::decimal(count as u64).as_str());
    r.append(" file(s)");
    r
}

/// What the row says while release assets arrive.
pub fn release_status(count: usize) -> (r: String)
    ensures
        r@ == "downloading "@ + text::decimal_spec(count as int) + " release asset(s)"@,
{
    let mut r = "downloading ".to_owned();
    r.append(text::decimal(count as u64).as_str());
    r.append(" release asset(s)");
    r
}

/// A pair as a list of its input and its target.
pub open spec fn pair_json(input: Seq<char>, target: TargetView) -> JsonView {
    JsonView::List(seq![JsonView::Text(input), target_json(target)])
}

/// `path` is where a declared name lands below `folder`, once the version is filled into it.
pub open spec fn lands(
    windows: bool,
    folder: Seq<char>,
    name: Seq<char>,
    token: Seq<char>,
    path: Seq<char>,
) -> bool {
    exists|filled: Seq<char>| #[trigger]
        fills(name, "{version}"@, token, filled) && path == fsx::anchored(windows, folder, filled)
}

/// What is substituted for `{version}` at a version: its three numbers, where it has them.
pub open spec fn token_at(version: Seq<char>) -> Seq<char> {
    if is_ascii_chars(version) {
        token_of(semver_from(version, 0), version)
    } else {
        version_token_spec(version)
    }
}

/// Where a repository file is saved: its target has to be a name, in which `{version}` is expanded as
/// it is in the lockfile. Members cannot be taken out of a file that is no release asset.
pub fn repo_destination(windows: bool, folder: &str, version: &str, spec: &FileSpec) -> (r: Result<
    String,
    VendorError,
>)
    ensures
        match spec.output@ {
            TargetView::Rename(output) => r matches Ok(path) && path@ == fsx::anchored(
                windows,
                folder@,
                versioned(output, version@),
            ) && lands(windows, folder@, output, token_at(version@), path@),
            _ => r matches Err(VendorError::NonStringOutputWithoutRelease(shown)) && shown@
                == match codec::compact_json(pair_json(spec.input@, spec.output@)) {
                Some(shown) => shown,
                None => spec.input@,
            },
        },
{
    if let FileTarget::Rename(output) = &spec.output {
        let token = version_token(version);
        let name = replace_version(output.as_str(), version);
        assert(fills(output@, "{version}"@, token_at(version@), name@));
        return Ok(fsx::anchor(windows, folder, name.as_str()));
    }
    let first = Json::Text(spec.input.clone());
    let second = write_target(&spec.output);
    let items = vec![first, second];
    let pair = Json::List(items);
    proof {
        lemma_json_view(first);
        lemma_json_view(pair);
        assert(list_view(items@) =~= seq![first@, second@]);
    }
    let shown = match codec::to_compact_text(&pair) {
        Ok(shown) => shown,
        Err(_) => spec.input.clone(),
    };
    Err(VendorError::NonStringOutputWithoutRelease(shown))
}

/// The error for a repository file that could not be downloaded.
pub fn download_failed(
    dependency: &Dependency,
    spec: &FileSpec,
    version: &str,
    source: VendorError,
) -> (r: VendorError)
    ensures
        r matches VendorError::FileDownloadFailed { file, repository, version: v, source: why }
            && file@ == spec.input@ && repository@ == dependency.repository@ && v@ == version@
            && *why == source,
{
    VendorError::FileDownloadFailed {
        file: spec.input.clone(),
        repository: dependency.repository.clone(),
        version: version.to_owned(),
        source: Box::new(source),
    }
}

/// What is done with a release asset.
#[derive(Debug)]
pub enum AssetPlan {
    /// It is saved as it stands.
    Save {
        /// What the asset is called.
        asset: String,
        /// Where it goes.
        destination: String,
    },
    /// Members are taken out of it.
    Extract {
        /// What the asset is called.
        asset: String,
        /// The members, each with where it goes.
        members: Vec<(String, String)>,
    },
}

/// What an asset is called at a version.
pub open spec fn asset_name(input: Seq<char>, version: Seq<char>) -> Seq<char> {
    without_release(versioned(input, version))
}

/// `asset` is what a release asset is called: what follows `{release}/` in `input`, with the version
/// filled in.
pub open spec fn asset_filled(input: Seq<char>, token: Seq<char>, asset: Seq<char>) -> bool {
    forall|name: Seq<char>|
        input == #[trigger] ("{release}/"@ + name) ==> fills(name, "{version}"@, token, asset)
}

/// A release asset is called what follows `{release}/`, with the version filled in.
proof fn lemma_asset_filled(input: Seq<char>, token: Seq<char>)
    ensures
        asset_filled(
            input,
            token,
            without_release(text::replace_first_spec(input, "{version}"@, token)),
        ),
{
    let placeholder = "{version}"@;
    let marker = "{release}/"@;
    reveal_strlit("{version}");
    reveal_strlit("{release}/");
    assert forall|name: Seq<char>| input == #[trigger] (marker + name) implies fills(
        name,
        placeholder,
        token,
        without_release(text::replace_first_spec(input, placeholder, token)),
    ) by {
        a_placeholder_is_filled(name, placeholder, token);
        text::lemma_find_from(input, placeholder, 0);
        text::lemma_find_from(name, placeholder, 0);
        assert forall|i: int| text::occurs_at(input, placeholder, i) implies i >= 10
            && text::occurs_at(name, placeholder, i - 10) by {
            let found = input.subrange(i, i + 9);
            assert(found[0] == '{' && found[1] == 'v');
            assert(found[0] == input[i] && found[1] == input[i + 1]);
            if i < 10 {
                assert(input[i] == marker[i]);
            } else {
                assert(name.subrange(i - 10, i - 1) =~= found);
            }
        }
        assert forall|i: int| text::occurs_at(name, placeholder, i) implies text::occurs_at(
            input,
            placeholder,
            i + 10,
        ) by {
            assert(input.subrange(i + 10, i + 19) =~= name.subrange(i, i + 9));
        }
        let filled = text::replace_first_spec(name, placeholder, token);
        match text::find_from(name, placeholder, 0) {
            Some(at) => {
                assert(text::occurs_at(input, placeholder, at + 10));
                let found = text::find_from(input, placeholder, 0)->0;
                if found < at + 10 {
                    assert(text::occurs_at(name, placeholder, found - 10));
                }
                assert(found == at + 10);
                assert(text::replace_first_spec(input, placeholder, token) =~= marker + filled);
            },
            None => {
                assert(text::find_from(input, placeholder, 0) is None);
            },
        }
        a_release_asset_is_what_follows_the_marker(input, filled);
    }
}

/// Members of an archive with where they go, at a version.
pub open spec fn placed(
    windows: bool,
    pairs: Seq<(Seq<char>, Seq<char>)>,
    folder: Seq<char>,
    version: Seq<char>,
) -> Seq<(Seq<char>, Seq<char>)> {
    Seq::new(
        pairs.len(),
        |i: int|
            (
                versioned(pairs[i].0, version),
                fsx::anchored(windows, folder, versioned(pairs[i].1, version)),
            ),
    )
}

/// What is done with a release asset: it is saved under the name its target gives, or the members
/// its target lists are taken out of it, `{version}` expanded everywhere.
pub fn asset_plan(windows: bool, folder: &str, version: &str, spec: &FileSpec) -> (r: AssetPlan)
    ensures
        match spec.output@ {
            TargetView::Rename(output) => r matches AssetPlan::Save { asset, destination } && asset@
                == asset_name(spec.input@, version@) && destination@ == fsx::anchored(
                windows,
                folder@,
                versioned(output, version@),
            ),
            _ => r matches AssetPlan::Extract { asset, members } && asset@ == asset_name(
                spec.input@,
                version@,
            ) && pair_views(members@) == placed(
                windows,
                pairs_of(spec.output@)->0,
                folder@,
                version@,
            ),
        },
        ({
            let token = token_at(version@);
            match (spec.output@, r) {
                (TargetView::Rename(output), AssetPlan::Save { asset, destination }) => {
                    &&& asset_filled(spec.input@, token, asset@)
                    &&& lands(windows, folder@, output, token, destination@)
                },
                (TargetView::ExtractList(list), AssetPlan::Extract { asset, members }) => {
                    &&& asset_filled(spec.input@, token, asset@)
                    &&& members@.len() == list.len()
                    &&& forall|i: int|
                        0 <= i < list.len() ==> fills(
                            list[i],
                            "{version}"@,
                            token,
                            (#[trigger] members@[i]).0@,
                        ) && lands(windows, folder@, list[i], token, members@[i].1@)
                },
                (TargetView::ExtractMap(map), AssetPlan::Extract { asset, members }) => {
                    &&& asset_filled(spec.input@, token, asset@)
                    &&& members@.len() == map.len()
                    &&& forall|i: int|
                        0 <= i < map.len() ==> fills(
                            map[i].0,
                            "{version}"@,
                            token,
                            (#[trigger] members@[i]).0@,
                        ) && lands(windows, folder@, map[i].1, token, members@[i].1@)
                },
                _ => false,
            }
        }),
{
    let token = version_token(version);
    let filled = replace_version(spec.input.as_str(), version);
    let asset = strip_release_prefix(filled.as_str());
    proof {
        assert(token@ == token_at(version@));
        lemma_asset_filled(spec.input@, token@);
    }
    if let FileTarget::Rename(output) = &spec.output {
        let name = replace_version(output.as_str(), version);
        let destination = fsx::anchor(windows, folder, name.as_str());
        assert(fills(output@, "{version}"@, token@, name@));
        return AssetPlan::Save { asset, destination };
    }
    let pairs = match spec.output.extraction_pairs() {
        Some(pairs) => pairs,
        None => Vec::new(),
    };
    let ghost views = pair_views(pairs@);
    let mut members: Vec<(String, String)> = Vec::new();
    let mut i: usize = 0;
    while i < pairs.len()
        invariant
            i <= pairs@.len(),
            views == pair_views(pairs@),
            members@.len() == i,
            forall|j: int|
                0 <= j < i ==> (#[trigger] members@[j]).0@ == versioned(views[j].0, version@)
                    && members@[j].1@ == fsx::anchored(
                    windows,
                    folder@,
                    versioned(views[j].1, version@),
                ) && fills(views[j].0, "{version}"@, token@, members@[j].0@) && lands(
                    windows,
                    folder@,
                    views[j].1,
                    token@,
                    members@[j].1@,
                ),
            token@ == version_token_spec(version@),
        decreases pairs@.len() - i,
    {
        assert(views[i as int] == (pairs@[i as int].0@, pairs@[i as int].1@));
        let from = replace_version(pairs[i].0.as_str(), version);
        let name = replace_version(pairs[i].1.as_str(), version);
        let to = fsx::anchor(windows, folder, name.as_str());
        assert(fills(views[i as int].1, "{version}"@, token@, name@));
        members.push((from, to));
        i += 1;
    }
    assert(pair_views(members@) =~= placed(windows, views, folder@, version@));
    proof {
        match spec.output@ {
            TargetView::ExtractList(list) => {
                assert forall|i: int| 0 <= i < list.len() implies fills(
                    list[i],
                    "{version}"@,
                    token@,
                    (#[trigger] members@[i]).0@,
                ) && lands(windows, folder@, list[i], token@, members@[i].1@) by {
                    assert(views[i] == (list[i], list[i]));
                }
            },
            TargetView::ExtractMap(map) => {
                assert(views == map);
            },
            _ => {},
        }
    }
    AssetPlan::Extract { asset, members }
}

/// Nothing is lost between the batches: every declared file is in the one or in the other.
pub proof fn every_file_is_in_a_batch(pairs: Seq<(Seq<char>, TargetView)>, n: int)
    requires
        0 <= n <= pairs.len(),
    ensures
        picked(pairs, false, n).len() + picked(pairs, true, n).len() == n,
        forall|i: int|
            0 <= i < n ==> picked(pairs, release_path((#[trigger] pairs[i]).0), n).contains(
                pairs[i],
            ),
    decreases n,
{
    if n > 0 {
        every_file_is_in_a_batch(pairs, n - 1);
        assert forall|i: int| 0 <= i < n implies picked(
            pairs,
            release_path((#[trigger] pairs[i]).0),
            n,
        ).contains(pairs[i]) by {
            let release = release_path(pairs[i].0);
            let before = picked(pairs, release, n - 1);
            let after = picked(pairs, release, n);
            if i == n - 1 {
                assert(after.last() == pairs[i]);
                assert(after[after.len() - 1] == pairs[i]);
            } else {
                let k = before.index_of(pairs[i]);
                assert(before.contains(pairs[i]));
                assert(after[k] == before[k]);
            }
        }
    }
}

/// The member of an archive is looked for under its listed name with the version filled in, and
/// lands under its own name with the version filled in.
pub proof fn a_member_is_planned_at_its_version(
    windows: bool,
    pairs: Seq<(Seq<char>, Seq<char>)>,
    folder: Seq<char>,
    version: Seq<char>,
    i: int,
)
    requires
        0 <= i < pairs.len(),
    ensures
        placed(windows, pairs, folder, version).len() == pairs.len(),
        fills(
            pairs[i].0,
            "{version}"@,
            version_token_spec(version),
            placed(windows, pairs, folder, version)[i].0,
        ),
        lands(
            windows,
            folder,
            pairs[i].1,
            version_token_spec(version),
            placed(windows, pairs, folder, version)[i].1,
        ),
{
    let token = version_token_spec(version);
    a_placeholder_is_filled(pairs[i].0, "{version}"@, token);
    a_placeholder_is_filled(pairs[i].1, "{version}"@, token);
    assert(fills(pairs[i].1, "{version}"@, token, versioned(pairs[i].1, version)));
}

/// The members of a listed target keep their own names; those of a mapped one get the names they are
/// mapped to.
pub proof fn a_member_goes_by_the_name_it_is_given(list: Seq<Seq<char>>, map: Seq<(Seq<char>, Seq<char>)>)
    ensures
        pairs_of(TargetView::ExtractList(list)) matches Some(pairs) && pairs.len() == list.len()
            && forall|i: int|
            0 <= i < list.len() ==> (#[trigger] pairs[i]).0 == list[i] && pairs[i].1 == list[i],
        pairs_of(TargetView::ExtractMap(map)) == Some(map),
{
}

/// A declared path is a release asset: something stands behind the marker in front of it.
pub open spec fn marked(path: Seq<char>) -> bool {
    exists|name: Seq<char>| path == #[trigger] ("{release}/"@ + name)
}

/// A path is a release asset exactly where the marker stands in front of it.
proof fn lemma_marked(path: Seq<char>)
    ensures
        release_path(path) == marked(path),
{
    a_release_asset_is_what_follows_the_marker(path, Seq::empty());
    if release_path(path) {
        assert(path == "{release}/"@ + without_release(path));
    }
    if marked(path) {
        let name = choose|name: Seq<char>| path == #[trigger] ("{release}/"@ + name);
        a_release_asset_is_what_follows_the_marker(path, name);
    }
}

/// A batch holds only what belongs to it: release assets in the one, the repository's own files in
/// the other, and nothing that was not declared.
pub proof fn a_batch_holds_only_its_own(pairs: Seq<(Seq<char>, TargetView)>, release: bool, n: int)
    requires
        0 <= n <= pairs.len(),
    ensures
        forall|k: int|
            0 <= k < picked(pairs, release, n).len() ==> pairs.contains(
                #[trigger] picked(pairs, release, n)[k],
            ) && marked(picked(pairs, release, n)[k].0) == release,
    decreases n,
{
    if n > 0 {
        a_batch_holds_only_its_own(pairs, release, n - 1);
        let before = picked(pairs, release, n - 1);
        let after = picked(pairs, release, n);
        lemma_marked(pairs[n - 1].0);
        assert(pairs.contains(pairs[n - 1]));
        assert forall|k: int| 0 <= k < after.len() implies pairs.contains(#[trigger] after[k])
            && marked(after[k].0) == release by {
            if k < before.len() {
                assert(after[k] == before[k]);
            } else {
                assert(after[k] == pairs[n - 1]);
            }
        }
    }
}

/// A commit that only reports writes nothing, and says something only where something is outdated;
/// one with nothing to do writes nothing either.
pub proof fn a_report_writes_nothing(windows: bool, commit: Commit, prepared: Prepared)
    requires
        commits(windows, commit, prepared),
    ensures
        prepared.options.show_outdated_only ==> !(commit is Write),
        !prepared.needs_update ==> !(commit is Write),
        prepared.options.show_outdated_only ==> (commit matches Commit::Report(line) && line is Some
            == prepared.needs_update),
        prepared.needs_update && !prepared.options.show_outdated_only ==> commit is Write,
{
}

/// What is written of an installed dependency is what was installed: its repository, the version it
/// is at now, and its files at that version. The config is touched where it says another version,
/// and it is an update only where newer versions were looked for.
pub proof fn a_commit_locks_what_was_installed(windows: bool, commit: Commit, prepared: Prepared)
    requires
        commits(windows, commit, prepared),
        commit is Write,
    ensures
        ({
            let dependency = prepared.dependency;
            let before = text::text_of(dependency.version);
            commit matches Commit::Write { lock, record, updated_from, result } && {
                &&& lock@.repository == dependency.repository@
                &&& lock@.version == prepared.version@
                &&& lock@.files == locked_of(windows, entry_views(dependency.files@), prepared.version@)
                &&& before == Some(prepared.version@) ==> !record
                &&& before is None ==> record
                &&& before is Some && before->0 != prepared.version@ ==> record
                &&& !prepared.options.should_update ==> updated_from is None && result is None
                &&& prepared.options.should_update ==> text::text_of(updated_from) == before
                    && text::text_of(result) == Some(prepared.version@)
            }
        }),
{
}

/// The config entry of a new dependency says what was installed: its version, its repository, its
/// files and where they go. It is locked only where the dependency is.
pub proof fn a_new_entry_says_what_was_installed(dependency: Dependency, version: Seq<char>)
    ensures
        new_entry(dependency, version).version == Some(version),
        new_entry(dependency, version).repository == Some(dependency.repository@),
        new_entry(dependency, version).files == Some(entry_views(dependency.files@)),
        new_entry(dependency, version).vendor_folder == text::text_of(dependency.vendor_folder),
        new_entry(dependency, version).release_regex == text::text_of(dependency.release_regex),
        new_entry(dependency, version).hash_version_file == hash_view(dependency.hash_version_file),
        new_entry(dependency, version).locked == Some(true) <==> dependency.locked,
        new_entry(dependency, version).locked != Some(false),
        new_entry(dependency, version).name is None,
{
}

/// An outdated dependency is named first; the version it is at and the one it could be at follow
/// where they differ, and the one version where they do not.
pub proof fn an_outdated_line_names_both_versions(
    name: Seq<char>,
    before: Seq<char>,
    after: Seq<char>,
)
    ensures
        name.is_prefix_of(outdated_spec(name, Some(before), after)),
        before != after ==> outdated_spec(name, Some(before), after) == name + " "@ + ui::painted(
            "31"@,
            before,
        ) + " -> "@ + ui::painted("32"@, after),
        outdated_spec(name, Some(after), after) == name + " "@ + after,
        outdated_spec(name, None, after) == name + " "@ + after,
{
    let line = outdated_spec(name, Some(before), after);
    assert(line.subrange(0, name.len() as int) =~= name);
}

} // verus!
