//! `uninstall`: remove a dependency's files, its lock entry, and its config entry.
//!
//! A file the user already removed must not stop the config entry from going away, so a missing
//! file counts as deleted. A file that refuses to be deleted stops the run instead: the config
//! entry and the lockfile are what record that the file is there.

use vstd::prelude::*;
use crate::codec::json_text;
use crate::config::document::removed;
use crate::config::dependency_folder_spec;
use crate::error::VendorError;
use crate::fsx;
use crate::lockfile::{
    flat_files, locked_outputs, lockfile_json, lockfile_of, to_json, writes, LockView, Lockfile,
};
use crate::model::RawView;
use crate::text;
use crate::value::{
    lemma_key_index, lemma_view_map_index, lemma_view_map_remove, map_get, map_remove, view_map,
};
use super::version::{declared_files, declared_outputs, lockfile_view};
use super::{Session, LOCKFILE};

verus! {

/// The files of a dependency that `uninstall` deletes: those its lockfile lists, then those its
/// config declares.
pub open spec fn deleted_files(
    windows: bool,
    lockfile: Option<Seq<(Seq<char>, LockView)>>,
    name: Seq<char>,
    raw: RawView,
) -> Seq<Seq<char>> {
    let locked = match lockfile {
        Some(lockfile) => locked_outputs(lockfile, name),
        None => Seq::empty(),
    };
    locked + declared_outputs(windows, raw)
}

/// What becomes of the lockfile.
#[derive(Debug)]
pub enum LockfileEnd {
    /// It stays as it is: it says nothing of the dependency.
    Keep,
    /// It held nothing else and is deleted.
    Delete,
    /// It is written again without the dependency, with no newline behind it.
    Rewrite(String),
}

impl Session {
    /// What `uninstall` deletes: the folder, the lockfile and the files below the folder, given the
    /// lockfile, which is absent where it cannot be read. A name the config does not list is an
    /// error.
    pub fn uninstall_plan(&self, name: &str) -> (r: Result<(String, String), VendorError>)
        ensures
            match map_get(view_map(self.workspace.dependencies@), name@) {
                Some(raw) => r matches Ok((folder, lockfile_path)) && folder@
                    == dependency_folder_spec(
                    self.workspace.windows,
                    self.workspace.config.vendor_folder@,
                    self.workspace.file.settings.path@,
                    raw.vendor_folder,
                    name@,
                ) && lockfile_path@ == fsx::appended(self.workspace.windows, folder@, LOCKFILE@),
                None => r matches Err(VendorError::DependencyNotFound { name: n, path }) && n@
                    == name@ && path@ == self.workspace.file.settings.path@,
            },
    {
        proof {
            lemma_view_map_index(self.workspace.dependencies@, name@, 0);
            lemma_key_index(self.workspace.dependencies@, name@, 0);
        }
        match self.workspace.dependencies.get(name) {
            Some(raw) => {
                let own = match &raw.vendor_folder {
                    Some(folder) => Some(folder.as_str()),
                    None => None,
                };
                let folder = self.workspace.dependency_folder(own, name);
                let lockfile_path = Self::lockfile_path(self.workspace.windows, folder.as_str());
                Ok((folder, lockfile_path))
            },
            None => Err(
                VendorError::DependencyNotFound {
                    name: name.to_owned(),
                    path: self.workspace.file.settings.path.clone(),
                },
            ),
        }
    }

    /// The files of a dependency that `uninstall` deletes, below its folder: those its lockfile
    /// lists, then those its config declares.
    pub fn uninstall_files(&self, name: &str, lockfile: Option<&Lockfile>) -> (r: Vec<String>)
        ensures
            text::texts(r@) == match map_get(view_map(self.workspace.dependencies@), name@) {
                Some(raw) => deleted_files(
                    self.workspace.windows,
                    lockfile_view(lockfile),
                    name@,
                    raw,
                ),
                None => Seq::empty(),
            },
    {
        proof {
            lemma_view_map_index(self.workspace.dependencies@, name@, 0);
            lemma_key_index(self.workspace.dependencies@, name@, 0);
        }
        let raw = match self.workspace.dependencies.get(name) {
            Some(raw) => raw,
            None => {
                let none: Vec<String> = Vec::new();
                assert(text::texts(none@) =~= Seq::empty());
                return none;
            },
        };
        let mut files: Vec<String> = Vec::new();
        assert(text::texts(files@) =~= Seq::empty());
        if let Some(lockfile) = lockfile {
            proof {
                lemma_view_map_index(lockfile@, name@, 0);
                lemma_key_index(lockfile@, name@, 0);
            }
            if let Some(locked) = lockfile.get(name) {
                files = flat_files(&locked.files);
            }
        }
        let mut declared = declared_files(self.workspace.windows, raw);
        let ghost front = text::texts(files@);
        let ghost back = text::texts(declared@);
        files.append(&mut declared);
        assert(text::texts(files@) =~= front + back);
        files
    }
}

/// What becomes of the lockfile: it is deleted where it held nothing else, and written again
/// without the dependency where it did.
pub fn lockfile_end(lockfile: Option<Lockfile>, name: &str) -> (r: Result<LockfileEnd, VendorError>)
    ensures
        match lockfile {
            None => r matches Ok(LockfileEnd::Keep),
            Some(held) => {
                let entries = view_map(held@);
                let rest = lockfile_json(map_remove(entries, name@));
                if map_get(entries, name@) is None {
                    r matches Ok(LockfileEnd::Keep)
                } else if entries.len() == 1 {
                    r matches Ok(LockfileEnd::Delete)
                } else {
                    r matches Ok(LockfileEnd::Rewrite(written)) && json_text(rest, "  "@) == Some(
                        written@,
                    ) && lockfile_of(written@) == Some(map_remove(entries, name@))
                }
            },
        },
{
    let mut held = match lockfile {
        Some(held) => held,
        None => {
            return Ok(LockfileEnd::Keep);
        },
    };
    proof {
        lemma_view_map_index(held@, name@, 0);
        lemma_key_index(held@, name@, 0);
        lemma_view_map_remove(held@, name@);
    }
    if held.get(name).is_none() {
        return Ok(LockfileEnd::Keep);
    }
    if held.len() == 1 {
        return Ok(LockfileEnd::Delete);
    }
    let _ = held.remove(name);
    match to_json(&held) {
        Ok(body) => Ok(LockfileEnd::Rewrite(body)),
        Err(error) => Err(error),
    }
}

impl Session {
    /// Drops a dependency from the config, in memory and in the document.
    pub fn forget(&mut self, name: &str)
        ensures
            final(self).workspace.windows == old(self).workspace.windows,
            final(self).workspace.config == old(self).workspace.config,
            final(self).workspace.defaults == old(self).workspace.defaults,
            final(self).workspace.file.settings == old(self).workspace.file.settings,
            view_map(final(self).workspace.dependencies@) == map_remove(
                view_map(old(self).workspace.dependencies@),
                name@,
            ),
            removed(
                old(self).workspace.file.document@,
                final(self).workspace.file.document@,
                name@,
            ),
    {
        proof {
            lemma_view_map_remove(self.workspace.dependencies@, name@);
        }
        let _ = self.workspace.dependencies.remove(name);
        self.workspace.file.document.remove_dependency(name);
    }
}

/// What an uninstall does next.
#[derive(Debug, Clone, Copy, PartialEq, Eq)]
pub enum Removal {
    /// Delete this one of the files.
    Delete(usize),
    /// See to the lockfile.
    Unlock,
    /// Drop the dependency from the config, and write that.
    Forget,
    /// Report what went wrong, and leave what is left as it is.
    Stop,
    /// The dependency is gone.
    Finish,
}

/// An uninstall on its way: the files first, then the lockfile, then the config. What records that a
/// file is there goes only once the file is gone.
#[derive(Debug, Clone, Copy, PartialEq, Eq)]
pub struct Uninstall {
    /// How many files there are.
    pub total: usize,
    /// How many of them are deleted.
    pub deleted: usize,
    /// Whether the lockfile is seen to.
    pub unlocked: bool,
    /// Whether the config is written without the dependency.
    pub forgotten: bool,
    /// Whether something went wrong.
    pub failed: bool,
}

impl Uninstall {
    /// What is done next.
    pub open spec fn next_step(self) -> Removal {
        if self.failed {
            Removal::Stop
        } else if self.deleted < self.total {
            Removal::Delete(self.deleted)
        } else if !self.unlocked {
            Removal::Unlock
        } else if !self.forgotten {
            Removal::Forget
        } else {
            Removal::Finish
        }
    }

    /// Where it stands once the step it asked for has gone well or not.
    pub open spec fn after(self, succeeded: bool) -> Uninstall {
        match self.next_step() {
            Removal::Stop => self,
            Removal::Finish => self,
            step => if !succeeded {
                Uninstall { failed: true, ..self }
            } else {
                match step {
                    Removal::Delete(i) => Uninstall { deleted: (i + 1) as usize, ..self },
                    Removal::Unlock => Uninstall { unlocked: true, ..self },
                    _ => Uninstall { forgotten: true, ..self },
                }
            },
        }
    }

    /// An uninstall of so many files, with nothing done yet.
    pub fn new(total: usize) -> (r: Self)
        ensures
            r == untouched(total),
    {
        Uninstall { total, deleted: 0, unlocked: false, forgotten: false, failed: false }
    }

    /// What is done next.
    pub fn next(&self) -> (r: Removal)
        ensures
            r == self.next_step(),
    {
        if self.failed {
            Removal::Stop
        } else if self.deleted < self.total {
            Removal::Delete(self.deleted)
        } else if !self.unlocked {
            Removal::Unlock
        } else if !self.forgotten {
            Removal::Forget
        } else {
            Removal::Finish
        }
    }

    /// Takes note of whether the step it asked for went well.
    pub fn observe(&mut self, succeeded: bool)
        ensures
            *final(self) == old(self).after(succeeded),
    {
        match self.next() {
            Removal::Stop => {},
            Removal::Finish => {},
            step => {
                if !succeeded {
                    self.failed = true;
                } else {
                    match step {
                        Removal::Delete(i) => {
                            self.deleted = i + 1;
                        },
                        Removal::Unlock => {
                            self.unlocked = true;
                        },
                        _ => {
                            self.forgotten = true;
                        },
                    }
                }
            },
        }
    }
}

/// An uninstall with nothing done yet.
pub open spec fn untouched(total: usize) -> Uninstall {
    Uninstall { total, deleted: 0, unlocked: false, forgotten: false, failed: false }
}

/// Where an uninstall stands after a history of outcomes.
pub open spec fn after_outcomes(total: usize, outcomes: Seq<bool>) -> Uninstall
    decreases outcomes.len(),
{
    if outcomes.len() == 0 {
        untouched(total)
    } else {
        after_outcomes(total, outcomes.drop_last()).after(outcomes.last())
    }
}

/// An uninstall that has not stopped has taken a step for each outcome, and all of them went well.
proof fn lemma_outcomes(total: usize, outcomes: Seq<bool>)
    ensures
        ({
            let now = after_outcomes(total, outcomes);
            &&& now.total == total
            &&& now.deleted <= total
            &&& now.unlocked ==> now.deleted == total
            &&& now.forgotten ==> now.unlocked
            &&& !now.failed && !now.forgotten ==> outcomes.len() == now.deleted + if now.unlocked {
                1int
            } else {
                0int
            }
            &&& !now.failed && !now.forgotten ==> forall|k: int|
                0 <= k < outcomes.len() ==> #[trigger] outcomes[k]
            &&& now.failed ==> exists|k: int| 0 <= k < outcomes.len() && !#[trigger] outcomes[k]
        }),
    decreases outcomes.len(),
{
    if outcomes.len() > 0 {
        let front = outcomes.drop_last();
        lemma_outcomes(total, front);
        let before = after_outcomes(total, front);
        let now = after_outcomes(total, outcomes);
        if !now.failed && !now.forgotten {
            assert forall|k: int| 0 <= k < outcomes.len() implies #[trigger] outcomes[k] by {
                if k < front.len() {
                    assert(front[k] == outcomes[k]);
                }
            }
        }
        if now.failed {
            if before.failed {
                let k = choose|k: int| 0 <= k < front.len() && !#[trigger] front[k];
                assert(!outcomes[k]);
            } else {
                assert(!outcomes[outcomes.len() - 1]);
            }
        }
    }
}

/// The lockfile is seen to, and the dependency is forgotten, only after every deletion went well.
pub proof fn nothing_is_forgotten_before_every_file_is_gone(total: usize, outcomes: Seq<bool>)
    ensures
        ({
            let step = after_outcomes(total, outcomes).next_step();
            &&& step is Unlock ==> outcomes.len() == total
            &&& step is Forget ==> outcomes.len() == total + 1
            &&& step is Unlock || step is Forget ==> forall|k: int|
                0 <= k < outcomes.len() ==> #[trigger] outcomes[k]
        }),
{
    lemma_outcomes(total, outcomes);
}

/// A step that fails is the last: a file that refuses to be deleted leaves the lockfile and the config
/// as they are.
pub proof fn a_failed_step_is_the_last(state: Uninstall, outcome: bool)
    requires
        !(state.next_step() is Finish),
    ensures
        state.after(false).next_step() is Stop,
        state.after(false).after(outcome) == state.after(false),
{
}

/// What is deleted is what was written: a file goes exactly where the lock of the dependency writes
/// it or its entry declares it. What the lock of another dependency writes does not make it go.
pub proof fn what_is_deleted_is_what_was_written(
    windows: bool,
    lockfile: Option<Seq<(Seq<char>, LockView)>>,
    name: Seq<char>,
    raw: RawView,
    file: Seq<char>,
)
    ensures
        deleted_files(windows, lockfile, name, raw).contains(file) <==> {
            ||| declared_outputs(windows, raw).contains(file)
            ||| lockfile is Some && map_get(lockfile->0, name) is Some && exists|i: int|
                0 <= i < map_get(lockfile->0, name)->0.files.len() && writes(
                    (#[trigger] map_get(lockfile->0, name)->0.files[i]).1,
                    file,
                )
        },
{
    let declared = declared_outputs(windows, raw);
    let all = deleted_files(windows, lockfile, name, raw);
    let locked = match lockfile {
        Some(lockfile) => locked_outputs(lockfile, name),
        None => Seq::empty(),
    };
    if let Some(held) = lockfile {
        crate::lockfile::a_dependency_owns_what_its_lock_writes(held, name, file);
    }
    if all.contains(file) {
        let k = all.index_of(file);
        if k < locked.len() {
            assert(locked[k] == file);
        } else {
            assert(declared[k - locked.len()] == file);
        }
    }
    if locked.contains(file) {
        assert(all[locked.index_of(file)] == file);
    }
    if declared.contains(file) {
        assert(all[locked.len() + declared.index_of(file)] == file);
    }
}

/// Steps are done in one order: every file, then the lockfile, then the config. A step is asked for
/// only once all before it have gone well.
pub proof fn the_steps_have_one_order(state: Uninstall)
    ensures
        state.failed <==> state.next_step() is Stop,
        state.next_step() matches Removal::Delete(i) ==> i == state.deleted && i < state.total,
        state.next_step() is Unlock ==> state.deleted >= state.total && !state.unlocked,
        state.next_step() is Forget ==> state.deleted >= state.total && state.unlocked
            && !state.forgotten,
        state.next_step() is Finish ==> state.deleted >= state.total && state.unlocked
            && state.forgotten && !state.failed,
        !(state.next_step() is Finish) ==> state.after(false).failed,
        state.after(true).failed == state.failed,
        state.after(true).total == state.total,
        state.next_step() is Delete ==> state.after(true).deleted == state.deleted + 1
            && state.after(true).unlocked == state.unlocked && state.after(true).forgotten
            == state.forgotten,
        state.next_step() is Unlock ==> state.after(true).unlocked && state.after(true).deleted
            == state.deleted && state.after(true).forgotten == state.forgotten,
        state.next_step() is Forget ==> state.after(true).forgotten && state.after(true).unlocked
            == state.unlocked,
{
}

} // verus!
