//! `sync`, `update` and `outdated`: all three are one traversal with different flags.
//!
//! Versions are looked up together and files arrive together, but what is visible happens in
//! config order: a dependency is committed only once all of those before it are, and the first
//! failure in the file is the one that is reported.

use vstd::prelude::*;
use crate::error::VendorError;
use crate::model::{
    copy_text, entry_views, fancy_regex_valid, non_empty, resolved_as, says, unresolved, validation, Dependency,
    RawView, Verdict,
};
use crate::template::repo_from;
use crate::text;
use crate::value::view_map;
use super::install::{InstallOptions, Prepared};
use super::Session;

verus! {

/// How many dependencies may be downloading at once.
///
/// Enough to hide latency on a large config, low enough that GitHub does not see a burst of
/// requests from one client.
pub const MAX_CONCURRENT_DOWNLOADS: usize = 8;

/// How a traversal of every configured dependency should behave.
#[derive(Debug, Clone, Copy, PartialEq, Eq)]
pub struct SyncOptions {
    /// Look for newer versions instead of honouring the configured one.
    pub should_update: bool,
    /// Reinstall everything regardless of the lockfile.
    pub force: bool,
    /// Only report what is outdated.
    pub show_outdated_only: bool,
}

impl Default for SyncOptions {
    fn default() -> (r: Self)
        ensures
            !r.should_update && !r.force && !r.show_outdated_only,
    {
        SyncOptions { should_update: false, force: false, show_outdated_only: false }
    }
}

/// A dependency queued for installation, with the decision about whether to look for a newer
/// version already made.
#[derive(Debug)]
pub struct Plan {
    /// The dependency.
    pub dependency: Dependency,
    /// How its install should behave.
    pub options: InstallOptions,
}

/// What validation answers of an entry.
pub open spec fn verdict_of(raw: RawView) -> Verdict {
    validation(
        raw,
        raw.release_regex is Some && fancy_regex_valid(raw.release_regex->0),
    )
}

/// An entry that can be installed.
pub open spec fn installable(raw: RawView) -> bool {
    verdict_of(raw) is Fine && raw.repository is Some && repo_from(raw.repository->0, 0) is Some
}

/// The first entry, at or after `from`, that cannot be installed.
pub open spec fn first_bad(dependencies: Seq<(Seq<char>, RawView)>, from: int) -> Option<int>
    decreases dependencies.len() - from,
{
    if from < 0 || from >= dependencies.len() {
        None
    } else if !installable(dependencies[from].1) {
        Some(from)
    } else {
        first_bad(dependencies, from + 1)
    }
}

/// What is said of an entry that cannot be installed.
pub open spec fn blames(e: VendorError, raw: RawView, name: Seq<char>) -> bool {
    if verdict_of(raw) is Fine {
        unresolved(raw, e)
    } else {
        says(Err(e), verdict_of(raw), name)
    }
}

/// A plan is that of an entry under its key.
pub open spec fn plans(plan: Plan, key: Seq<char>, raw: RawView, options: SyncOptions) -> bool {
    &&& resolved_as(raw, key, plan.dependency)
    &&& plan.options.should_update == (raw.locked != Some(true) && options.should_update)
    &&& plan.options.force == options.force
    &&& plan.options.new_version is None
    &&& plan.options.show_outdated_only == options.show_outdated_only
}

impl Session {
    /// Validates every dependency and resolves it, in config order. A locked one is not looked up
    /// again; the first that cannot be installed is what is reported.
    pub fn plan(&self, options: SyncOptions) -> (r: Result<Vec<Plan>, VendorError>)
        ensures
            ({
                let dependencies = view_map(self.workspace.dependencies@);
                match first_bad(dependencies, 0) {
                    Some(i) => r matches Err(e) && blames(e, dependencies[i].1, dependencies[i].0),
                    None => r matches Ok(list) && list@.len() == dependencies.len() && forall|
                        i: int,
                    |
                        0 <= i < dependencies.len() ==> plans(
                            #[trigger] list@[i],
                            dependencies[i].0,
                            dependencies[i].1,
                            options,
                        ),
                }
            }),
            r matches Ok(list) ==> ({
                let dependencies = view_map(self.workspace.dependencies@);
                forall|i: int|
                    0 <= i < dependencies.len() ==> {
                        let plan = #[trigger] list@[i];
                        let (key, raw) = dependencies[i];
                        &&& raw.locked == Some(true) ==> !plan.options.should_update
                        &&& raw.locked != Some(true) ==> plan.options.should_update
                            == options.should_update
                        &&& plan.options.force == options.force
                        &&& plan.options.show_outdated_only == options.show_outdated_only
                        &&& plan.options.new_version is None
                        &&& plan.dependency.locked == (raw.locked == Some(true))
                        &&& Some(plan.dependency.repository@) == raw.repository
                        &&& raw.version is Some && raw.version->0.len() > 0 ==> text::text_of(
                            plan.dependency.version,
                        ) == raw.version
                        &&& raw.version is None ==> plan.dependency.version is None
                        &&& key.len() > 0 ==> plan.dependency.name@ == key
                        &&& Some(entry_views(plan.dependency.files@)) == raw.files
                    }
            }),
    {
        let ghost dependencies = view_map(self.workspace.dependencies@);
        let n: usize = self.workspace.dependencies.len();
        let mut list: Vec<Plan> = Vec::new();
        let mut i: usize = 0;
        while i < n
            invariant
                i <= n == dependencies.len(),
                dependencies == view_map(self.workspace.dependencies@),
                first_bad(dependencies, 0) == first_bad(dependencies, i as int),
                list@.len() == i,
                forall|j: int|
                    0 <= j < i ==> plans(
                        #[trigger] list@[j],
                        dependencies[j].0,
                        dependencies[j].1,
                        options,
                    ),
            decreases n - i,
        {
            let key = self.workspace.dependencies.key_at(i);
            let raw = self.workspace.dependencies.value_at(i);
            assert(dependencies[i as int] == (key@, raw@));
            if let Err(error) = raw.validate(key) {
                return Err(error);
            }
            let dependency = match raw.resolve(key) {
                Ok(dependency) => dependency,
                Err(error) => {
                    return Err(error);
                },
            };
            let should_update = !dependency.locked && options.should_update;
            list.push(
                Plan {
                    dependency,
                    options: InstallOptions {
                        should_update,
                        force: options.force,
                        new_version: None,
                        show_outdated_only: options.show_outdated_only,
                    },
                },
            );
            i += 1;
        }
        proof {
            the_first_bad_entry_counts(dependencies, 0);
            assert forall|j: int| 0 <= j < n implies Some(
                entry_views((#[trigger] list@[j]).dependency.files@),
            ) == dependencies[j].1.files by {
                assert(installable(dependencies[j].1));
            }
        }
        Ok(list)
    }
}

/// What the run as a whole is said to be doing once the versions are known.
pub fn phase(options: SyncOptions) -> (r: &'static str)
    ensures
        r@ == if options.show_outdated_only {
            "checking for updates"@
        } else {
            "installing"@
        },
{
    if options.show_outdated_only {
        "checking for updates"
    } else {
        "installing"
    }
}

/// How many rows the downloads can use: one for each, up to as many as run at once.
pub fn rows_for(working: usize) -> (r: usize)
    ensures
        r == if working < MAX_CONCURRENT_DOWNLOADS {
            working
        } else {
            MAX_CONCURRENT_DOWNLOADS
        },
{
    if working < MAX_CONCURRENT_DOWNLOADS {
        working
    } else {
        MAX_CONCURRENT_DOWNLOADS
    }
}

/// What the ordered part of the traversal does next.
#[derive(Debug, Clone, Copy, PartialEq, Eq)]
pub enum Step {
    /// Wait for the download of this dependency.
    Await(usize),
    /// Commit this dependency, which has arrived.
    Commit(usize),
    /// Report the failure of this dependency, and cancel the downloads behind it.
    Stop(usize),
    /// Everything is committed.
    Finish,
}

/// The ordered part of a traversal: versions are looked up and files arrive all at once, but nothing
/// is reported or committed before its turn.
#[derive(Debug, Clone, PartialEq, Eq)]
pub struct Traversal {
    /// Of each dependency, whether its version was found.
    pub resolved: Vec<bool>,
    /// The first that is not committed.
    pub next: usize,
    /// Whether it has arrived.
    pub arrived: bool,
    /// Whether it failed to arrive or to be committed.
    pub failed: bool,
}

/// A traversal, as a mathematical value.
#[verifier::ext_equal]
pub ghost struct TraversalView {
    pub resolved: Seq<bool>,
    pub next: usize,
    pub arrived: bool,
    pub failed: bool,
}

impl View for Traversal {
    type V = TraversalView;

    open spec fn view(&self) -> TraversalView {
        TraversalView {
            resolved: self.resolved@,
            next: self.next,
            arrived: self.arrived,
            failed: self.failed,
        }
    }
}

impl TraversalView {
    /// What is done next. A version that was not found is reported when its dependency's turn comes.
    pub open spec fn next_step(self) -> Step {
        if self.next >= self.resolved.len() {
            Step::Finish
        } else if self.failed || !self.resolved[self.next as int] {
            Step::Stop(self.next)
        } else if self.arrived {
            Step::Commit(self.next)
        } else {
            Step::Await(self.next)
        }
    }

    /// Where the traversal stands once the step it asked for has gone well or not.
    pub open spec fn after(self, succeeded: bool) -> TraversalView {
        match self.next_step() {
            Step::Await(_) => if succeeded {
                TraversalView { arrived: true, ..self }
            } else {
                TraversalView { failed: true, ..self }
            },
            Step::Commit(i) => if succeeded {
                TraversalView { next: (i + 1) as usize, arrived: false, ..self }
            } else {
                TraversalView { failed: true, ..self }
            },
            _ => self,
        }
    }
}

impl Traversal {
    /// A traversal with nothing committed yet, told of each dependency whether its version was found.
    pub fn new(resolved: Vec<bool>) -> (r: Self)
        ensures
            r@ == at_the_start(resolved@),
    {
        Traversal { resolved, next: 0, arrived: false, failed: false }
    }

    /// What is done next.
    pub fn step(&self) -> (r: Step)
        ensures
            r == self@.next_step(),
    {
        if self.next >= self.resolved.len() {
            Step::Finish
        } else if self.failed || !self.resolved[self.next] {
            Step::Stop(self.next)
        } else if self.arrived {
            Step::Commit(self.next)
        } else {
            Step::Await(self.next)
        }
    }

    /// Takes note of whether the step it asked for went well.
    pub fn observe(&mut self, succeeded: bool)
        ensures
            final(self)@ == old(self)@.after(succeeded),
    {
        let total: usize = self.resolved.len();
        match self.step() {
            Step::Await(_) => {
                if succeeded {
                    self.arrived = true;
                } else {
                    self.failed = true;
                }
            },
            Step::Commit(i) => {
                if succeeded {
                    assert(i < total);
                    self.next = i + 1;
                    self.arrived = false;
                } else {
                    self.failed = true;
                }
            },
            _ => {},
        }
    }
}

/// A traversal with nothing committed yet.
pub open spec fn at_the_start(resolved: Seq<bool>) -> TraversalView {
    TraversalView { resolved, next: 0, arrived: false, failed: false }
}

/// What happens to each dependency in a run: whether its version is found, whether it arrives, and
/// whether it is committed, should it come to that.
pub ghost struct Fate {
    pub resolved: bool,
    pub arrives: bool,
    pub commits: bool,
}

impl Fate {
    /// Nothing goes wrong with it.
    pub open spec fn fine(self) -> bool {
        self.resolved && self.arrives && self.commits
    }
}

/// Of each dependency, whether its version is found.
pub open spec fn found(fates: Seq<Fate>) -> Seq<bool> {
    Seq::new(fates.len(), |i: int| fates[i].resolved)
}

/// Where a traversal stands after `n` steps, each of which goes as the fate of its dependency says.
pub open spec fn stands_after(fates: Seq<Fate>, n: nat) -> TraversalView
    decreases n,
{
    if n == 0 {
        at_the_start(found(fates))
    } else {
        let before = stands_after(fates, (n - 1) as nat);
        match before.next_step() {
            Step::Await(i) => before.after(fates[i as int].arrives),
            Step::Commit(i) => before.after(fates[i as int].commits),
            _ => before,
        }
    }
}

/// The first dependency at or after `from` with which something goes wrong.
pub open spec fn first_failure(fates: Seq<Fate>, from: int) -> Option<int>
    decreases fates.len() - from,
{
    if from < 0 || from >= fates.len() {
        None
    } else if !fates[from].fine() {
        Some(from)
    } else {
        first_failure(fates, from + 1)
    }
}

/// While nothing goes wrong, every two steps commit a dependency.
proof fn lemma_commits(fates: Seq<Fate>, n: int)
    requires
        0 <= n <= fates.len() <= usize::MAX,
        forall|k: int| 0 <= k < n ==> (#[trigger] fates[k]).fine(),
    ensures
        stands_after(fates, (2 * n) as nat) == (TraversalView {
            next: n as usize,
            ..at_the_start(found(fates))
        }),
    decreases n,
{
    if n > 0 {
        lemma_commits(fates, n - 1);
        assert(fates[n - 1].fine());
        let before = stands_after(fates, (2 * (n - 1)) as nat);
        let middle = stands_after(fates, (2 * n - 1) as nat);
        assert(before.next_step() == Step::Await((n - 1) as usize));
        assert(middle == before.after(true));
        assert(middle.next_step() == Step::Commit((n - 1) as usize));
        assert(stands_after(fates, (2 * n) as nat) == middle.after(true));
    } else {
        assert(stands_after(fates, 0) == at_the_start(found(fates)));
    }
}

/// A traversal that is through, or has stopped, stays as it is.
proof fn lemma_stays(fates: Seq<Fate>, n: nat, m: nat)
    requires
        n <= m,
        stands_after(fates, n).next_step() is Stop || stands_after(fates, n).next_step() is Finish,
    ensures
        stands_after(fates, m) == stands_after(fates, n),
    decreases m,
{
    if n < m {
        lemma_stays(fates, n, (m - 1) as nat);
    }
}

/// There is no failure before the first.
proof fn lemma_first_failure(fates: Seq<Fate>, from: int)
    requires
        0 <= from <= fates.len(),
    ensures
        match first_failure(fates, from) {
            Some(i) => from <= i < fates.len() && !fates[i].fine() && forall|k: int|
                from <= k < i ==> (#[trigger] fates[k]).fine(),
            None => forall|k: int| from <= k < fates.len() ==> (#[trigger] fates[k]).fine(),
        },
    decreases fates.len() - from,
{
    if from < fates.len() && fates[from].fine() {
        lemma_first_failure(fates, from + 1);
    }
}

/// The failure that is reported is the first in the config file, whether a version was not found or
/// a download or a commit went wrong; and where nothing goes wrong, everything is committed.
pub proof fn the_first_failure_in_the_file_is_reported(fates: Seq<Fate>)
    requires
        fates.len() <= usize::MAX,
    ensures
        stands_after(fates, 2 * fates.len()).next_step() == match first_failure(fates, 0) {
            Some(i) => Step::Stop(i as usize),
            None => Step::Finish,
        },
{
    lemma_first_failure(fates, 0);
    match first_failure(fates, 0) {
        Some(i) => {
            lemma_commits(fates, i);
            let here = stands_after(fates, (2 * i) as nat);
            assert(found(fates)[i] == fates[i].resolved);
            if fates[i].resolved {
                let arrived = stands_after(fates, (2 * i + 1) as nat);
                assert(here.next_step() == Step::Await(i as usize));
                assert(arrived == here.after(fates[i].arrives));
                if fates[i].arrives {
                    assert(arrived.next_step() == Step::Commit(i as usize));
                    assert(stands_after(fates, (2 * i + 2) as nat) == arrived.after(false));
                    lemma_stays(fates, (2 * i + 2) as nat, 2 * fates.len());
                } else {
                    lemma_stays(fates, (2 * i + 1) as nat, 2 * fates.len());
                }
            } else {
                lemma_stays(fates, (2 * i) as nat, 2 * fates.len());
            }
        },
        None => {
            lemma_commits(fates, fates.len() as int);
        },
    }
}

/// A dependency is committed only once it has arrived and all of those before it are committed: of
/// those, nothing went wrong.
pub proof fn commits_follow_the_config(fates: Seq<Fate>, n: nat)
    requires
        fates.len() <= usize::MAX,
    ensures
        stands_after(fates, n).next_step() matches Step::Commit(i) ==> n == 2 * i + 1 && i
            < fates.len() && fates[i as int].resolved && fates[i as int].arrives && forall|k: int|
            0 <= k < i ==> (#[trigger] fates[k]).fine(),
{
    lemma_history(fates, n);
}

/// A traversal that has not stopped has committed everything behind it, two steps for each, and has
/// taken one more for what has arrived.
proof fn lemma_history(fates: Seq<Fate>, n: nat)
    requires
        fates.len() <= usize::MAX,
    ensures
        ({
            let now = stands_after(fates, n);
            &&& now.resolved == found(fates)
            &&& now.next <= fates.len()
            &&& forall|k: int| 0 <= k < now.next ==> (#[trigger] fates[k]).fine()
            &&& now.arrived ==> now.next < fates.len() && fates[now.next as int].resolved
                && fates[now.next as int].arrives
            &&& now.next_step() is Await || now.next_step() is Commit ==> n == 2 * now.next
                + if now.arrived {
                1int
            } else {
                0int
            }
        }),
    decreases n,
{
    if n > 0 {
        lemma_history(fates, (n - 1) as nat);
        let before = stands_after(fates, (n - 1) as nat);
        let now = stands_after(fates, n);
        if before.next < fates.len() {
            assert(found(fates)[before.next as int] == fates[before.next as int].resolved);
        }
        assert forall|k: int| 0 <= k < now.next implies (#[trigger] fates[k]).fine() by {}
    }
}

/// A failure is final: nothing that happens afterwards leads to a commit.
pub proof fn a_failure_is_final(state: TraversalView, outcome: bool)
    requires
        state.next_step() is Stop,
    ensures
        state.after(outcome) == state,
{
}

/// What is known of a dependency before it is committed, for the pull request.
#[derive(Debug, Clone, PartialEq, Eq)]
pub struct BumpCandidate {
    /// What it is called.
    pub name: String,
    /// Where its repository is.
    pub url: String,
    /// The version it was at.
    pub old_version: Option<String>,
    /// Whether newer versions were looked for.
    pub looked_up: bool,
}

/// One dependency that moved to a new version.
#[derive(Debug, Clone, PartialEq, Eq)]
pub struct Bump {
    /// What it is called.
    pub name: String,
    /// Where its repository is.
    pub url: String,
    /// The version it was at.
    pub old_version: String,
    /// The version it is at.
    pub new_version: String,
}

/// A dependency moved: newer versions were looked for, both versions are known, and they differ.
pub open spec fn moved(looked_up: bool, before: Option<Seq<char>>, after: Option<Seq<char>>) -> bool {
    looked_up && non_empty(before) is Some && non_empty(after) is Some && before != after
}

impl BumpCandidate {
    /// What is known of a prepared dependency. Newer versions are looked for where it is updated, not
    /// where it is only reported.
    pub fn of(prepared: &Prepared) -> (r: Self)
        ensures
            r.name@ == prepared.dependency.name@,
            r.url@ == prepared.dependency.repository@,
            text::text_of(r.old_version) == text::text_of(prepared.dependency.version),
            r.looked_up == (prepared.options.should_update
                && !prepared.options.show_outdated_only),
    {
        BumpCandidate {
            name: prepared.dependency.name.clone(),
            url: prepared.dependency.repository.clone(),
            old_version: copy_text(&prepared.dependency.version),
            looked_up: prepared.options.should_update && !prepared.options.show_outdated_only,
        }
    }

    /// The bump of this dependency, if it actually moved.
    pub fn into_bump(self, new_version: Option<String>) -> (r: Option<Bump>)
        ensures
            r is Some == moved(
                self.looked_up,
                text::text_of(self.old_version),
                text::text_of(new_version),
            ),
            r matches Some(bump) ==> bump.name == self.name && bump.url == self.url && Some(
                bump.old_version,
            ) == self.old_version && Some(bump.new_version) == new_version,
            !self.looked_up ==> r is None,
            self.old_version is None || new_version is None ==> r is None,
            self.looked_up && self.old_version is Some && new_version is Some ==> (r is Some <==> (
            self.old_version->0)@ != (new_version->0)@ && (self.old_version->0)@.len() > 0 && (
            new_version->0)@.len() > 0),
    {
        if !self.looked_up {
            return None;
        }
        match (self.old_version, new_version) {
            (Some(before), Some(after)) => {
                if before.as_str().is_empty() || after.as_str().is_empty() || text::equal(
                    before.as_str(),
                    after.as_str(),
                ) {
                    return None;
                }
                Some(
                    Bump {
                        name: self.name,
                        url: self.url,
                        old_version: before,
                        new_version: after,
                    },
                )
            },
            _ => None,
        }
    }
}

/// The line of a bump.
pub open spec fn bump_line_spec(bump: Bump) -> Seq<char> {
    "* Bump ["@ + bump.name@ + "]("@ + bump.url@ + ") from \u{274c} "@ + bump.old_version@
        + " to \u{2705} "@ + bump.new_version@
}

/// The lines of bumps.
pub open spec fn bump_lines(bumps: Seq<Bump>) -> Seq<Seq<char>> {
    Seq::new(bumps.len(), |i: int| bump_line_spec(bumps[i]))
}

/// The summary of a pull request: a line for each bump, without a newline behind the last.
pub fn pull_request_body(bumps: &Vec<Bump>) -> (r: String)
    ensures
        r@ == text::joined_by(bump_lines(bumps@), "\n"@),
{
    let mut lines: Vec<String> = Vec::new();
    let mut i: usize = 0;
    while i < bumps.len()
        invariant
            i <= bumps@.len(),
            lines@.len() == i,
            forall|j: int| 0 <= j < i ==> (#[trigger] lines@[j])@ == bump_line_spec(bumps@[j]),
        decreases bumps@.len() - i,
    {
        let bump = &bumps[i];
        let mut line = "* Bump [".to_owned();
        line.append(bump.name.as_str());
        line.append("](");
        line.append(bump.url.as_str());
        line.append(") from \u{274c} ");
        line.append(bump.old_version.as_str());
        line.append(" to \u{2705} ");
        line.append(bump.new_version.as_str());
        lines.push(line);
        i += 1;
    }
    assert(text::texts(lines@) =~= bump_lines(bumps@));
    text::join_by(&lines, "\n")
}

/// What a traversal prints once it is through: the summary of a pull request, where one was asked for
/// and something moved.
pub fn printed_summary(pr_mode: bool, bumps: &Vec<Bump>) -> (r: Option<String>)
    ensures
        text::text_of(r) == if pr_mode && bumps@.len() > 0 {
            Some(text::joined_by(bump_lines(bumps@), "\n"@))
        } else {
            None
        },
{
    if pr_mode && bumps.len() > 0 {
        Some(pull_request_body(bumps))
    } else {
        None
    }
}

/// A locked dependency is never looked up again, whatever the run asks for; any other is looked up
/// exactly where the run asks for it.
pub proof fn a_locked_dependency_stays(
    plan: Plan,
    key: Seq<char>,
    raw: RawView,
    options: SyncOptions,
)
    requires
        plans(plan, key, raw, options),
    ensures
        raw.locked == Some(true) ==> !plan.options.should_update,
        raw.locked != Some(true) ==> plan.options.should_update == options.should_update,
        plan.options.force == options.force,
        plan.options.show_outdated_only == options.show_outdated_only,
        plan.options.new_version is None,
{
}

/// The first entry that cannot be installed is the one that counts: those before it can be, and
/// where every one can there is none.
pub proof fn the_first_bad_entry_counts(dependencies: Seq<(Seq<char>, RawView)>, from: int)
    requires
        0 <= from <= dependencies.len(),
    ensures
        match first_bad(dependencies, from) {
            Some(i) => from <= i < dependencies.len() && !installable(dependencies[i].1) && forall|
                j: int,
            |
                from <= j < i ==> installable((#[trigger] dependencies[j]).1),
            None => forall|j: int|
                from <= j < dependencies.len() ==> installable((#[trigger] dependencies[j]).1),
        },
    decreases dependencies.len() - from,
{
    if from < dependencies.len() && installable(dependencies[from].1) {
        the_first_bad_entry_counts(dependencies, from + 1);
    }
}

/// An entry can be installed where it has a GitHub repository whose URL names one, at least one file,
/// and no pattern of releases that is no regular expression.
pub proof fn what_can_be_installed(raw: RawView)
    ensures
        installable(raw) <==> (raw.repository is Some && crate::template::github_url(
            raw.repository->0,
        ) && repo_from(raw.repository->0, 0) is Some && raw.files is Some && raw.files->0.len() > 0
            && (raw.release_regex is None || raw.release_regex->0.len() == 0 || fancy_regex_valid(
            raw.release_regex->0,
        ))),
{
}

/// What is said of an entry that cannot be installed names the entry and what is wrong with it: its
/// repository before its files, and those before its pattern of releases.
pub proof fn the_blame_names_the_entry(e: VendorError, raw: RawView, name: Seq<char>)
    requires
        blames(e, raw, name),
        !installable(raw),
    ensures
        ({
            let url = raw.repository is Some && crate::template::github_url(raw.repository->0);
            let files = raw.files is Some && raw.files->0.len() > 0;
            &&& !url ==> (e matches VendorError::InvalidRepositoryKey { name: n } && n@ == name)
            &&& url && !files ==> (e matches VendorError::InvalidFilesKey { name: n } && n@ == name)
            &&& e matches VendorError::InvalidReleaseRegexKey { name: n } ==> n@ == name && url && files
                && !fancy_regex_valid(raw.release_regex->0)
            &&& e matches VendorError::InvalidGitHubUrl(u) ==> Some(u@) == raw.repository
        }),
{
}

/// A dependency moved where newer versions were looked for and it is at another one now; what is
/// unknown has not moved.
pub proof fn what_moved_is_at_another_version(
    looked_up: bool,
    before: Option<Seq<char>>,
    after: Option<Seq<char>>,
)
    ensures
        !looked_up || before is None || after is None ==> !moved(looked_up, before, after),
        before == after ==> !moved(looked_up, before, after),
        looked_up && before is Some && after is Some && before->0.len() > 0 && after->0.len() > 0
            && before->0 != after->0 ==> moved(looked_up, before, after),
{
}

} // verus!
