//! Live progress display.
//!
//! The display is a fixed region at the bottom of the terminal, redrawn from a snapshot of
//! [`state::RunState`]. A dependency reports its outcome on its own row and holds that row until
//! something with work to do needs it; the lines themselves are printed together as the region
//! comes down, so the scrollback still gets the whole run.
//!
//! Where nothing is animated, a dependency falls back to plain lines, held back until it settles,
//! so piped output keeps its order.

pub mod ansi;
pub mod state;
pub mod view;

use vstd::prelude::*;
use crate::template;
use crate::text;
use crate::ui;
use state::{
    active_with, begun, capped_sum, ended, same_run, with_stage, with_transfer, Bytes, DepId,
    Outcome, RunState, Stage,
};

verus! {

/// A line that is printed at once.
#[derive(Debug, Clone, PartialEq, Eq)]
pub enum Said {
    /// Something is so.
    Info(String),
    /// Something was done.
    Success(String),
}

/// What is printed when a dependency settles.
#[derive(Debug)]
pub struct Settled {
    /// The lines that were held back, in the order they happened.
    pub info: Vec<String>,
    /// The line that says how it ended, where nothing is animated.
    pub said: Option<Said>,
    /// The line that is kept until the region comes down, where something is.
    pub held: Option<String>,
}

/// The display for one dependency, plus the plain lines to emit if nothing is animated.
#[derive(Debug)]
pub struct Dependency {
    /// Which dependency it is.
    pub id: DepId,
    /// What it is called.
    pub name: String,
    /// Whether the run is animated.
    pub animated: bool,
    /// Lines held back until this dependency settles, so piped output stays ordered.
    pub pending: Vec<String>,
}

/// An outcome's mark, coloured unless it paints itself.
pub open spec fn coloured_mark(outcome: Outcome) -> Seq<char> {
    match outcome {
        Outcome::Changed => ui::painted("32"@, outcome.mark_spec().0),
        Outcome::Unchanged => ui::painted("36"@, outcome.mark_spec().0),
        Outcome::Failed => outcome.mark_spec().0,
    }
}

/// The line an outcome leaves behind: the mark, the name in its column, and the detail.
pub open spec fn held_line_spec(name: Seq<char>, outcome: Outcome, detail: Seq<char>) -> Seq<char> {
    coloured_mark(outcome) + outcome.mark_spec().1 + " "@ + view::column_spec(name) + " "@ + detail
}

/// The line an outcome leaves behind: the mark, the name in its column, and the detail.
pub fn held_line(name: &str, outcome: Outcome, detail: &str) -> (r: String)
    ensures
        r@ == held_line_spec(name@, outcome, detail@),
{
    let (glyph, pad) = outcome.mark();
    let mut r = match outcome {
        Outcome::Changed => ui::green(glyph),
        Outcome::Unchanged => ui::cyan(glyph),
        Outcome::Failed => glyph.to_owned(),
    };
    r.append(pad);
    r.append(" ");
    r.append(view::column(name).as_str());
    r.append(" ");
    r.append(detail);
    r
}

/// The plain line of a settled dependency, by its view.
pub open spec fn said_view(said: Option<Said>) -> Option<(bool, Seq<char>)> {
    match said {
        Some(Said::Info(line)) => Some((false, line@)),
        Some(Said::Success(line)) => Some((true, line@)),
        None => None,
    }
}

/// What settling does: the lines that were held back come out, the outcome is reported on the row
/// or in a plain line, and the dependency counts as done.
pub open spec fn settles(
    before: Dependency,
    after: Dependency,
    from: RunState,
    to: RunState,
    r: Settled,
    outcome: Outcome,
    detail: Seq<char>,
    plain: Option<(bool, Seq<char>)>,
) -> bool {
    &&& text::texts(r.info@) == text::texts(before.pending@)
    &&& after.pending@.len() == 0
    &&& after.id == before.id
    &&& after.name == before.name
    &&& after.animated == before.animated
    &&& to.done == capped_sum(from.done as int, 1, usize::MAX as int)
    &&& to.total == from.total
    &&& to.phase == from.phase
    &&& to.rows == from.rows
    &&& to.slots == from.slots
    &&& to.bytes == from.bytes
    &&& to.deps@.len() == from.deps@.len()
    &&& forall|i: int|
        0 <= i < from.deps@.len() && i != before.id ==> #[trigger] to.deps@[i] == from.deps@[i]
    &&& if before.animated {
        &&& r.said is None
        &&& text::text_of(r.held) == Some(held_line_spec(before.name@, outcome, detail))
        &&& before.id < from.deps@.len() ==> (to.deps@[before.id as int].stage matches Stage::Done {
            outcome: o,
            detail: d,
        } && o == outcome && d@ == detail)
    } else {
        &&& r.held is None
        &&& said_view(r.said) == plain
        &&& before.id < from.deps@.len() ==> to.deps@[before.id as int].stage == Stage::Gone
    }
}

impl Dependency {
    /// A handle for one dependency, registered in config order.
    pub fn register(state: &mut RunState, name: &str, animated: bool) -> (r: Self)
        ensures
            r.id == old(state).deps@.len(),
            r.name@ == name@,
            r.animated == animated,
            r.pending@.len() == 0,
            final(state).deps@.len() == r.id + 1,
            final(state).deps@.take(r.id as int) == old(state).deps@,
            final(state).deps@[r.id as int].name@ == name@,
            final(state).deps@[r.id as int].stage == Stage::Queued,
            same_run(*final(state), *old(state)),
    {
        let id = state.register(name);
        Dependency { id, name: name.to_owned(), animated, pending: Vec::new() }
    }

    /// Says what this dependency is doing, keeping any transfer already in flight.
    pub fn status(&self, state: &mut RunState, message: String)
        ensures
            final(state).deps@ == if self.id < old(state).deps@.len() {
                with_stage(
                    old(state).deps@,
                    self.id,
                    active_with(old(state).deps@[self.id as int].stage, message),
                )
            } else {
                old(state).deps@
            },
            same_run(*final(state), *old(state)),
    {
        state.set_status(self.id, message);
    }

    /// Says which step of the install is running. Only one dependency commits at a time.
    pub fn committing(&self, state: &mut RunState, message: String)
        ensures
            final(state).deps@ == with_stage(
                old(state).deps@,
                self.id,
                Stage::Committing { label: message },
            ),
            same_run(*final(state), *old(state)),
    {
        state.set_stage(self.id, Stage::Committing { label: message });
    }

    /// Marks this dependency as downloaded and waiting its turn to install.
    ///
    /// Commits run in config order, so a dependency that finishes early has nothing to do for a
    /// while. It keeps its place in the accounting rather than disappearing.
    pub fn waiting(&self, state: &mut RunState)
        ensures
            final(state).deps@ == with_stage(old(state).deps@, self.id, Stage::Waiting),
            same_run(*final(state), *old(state)),
    {
        state.set_stage(self.id, Stage::Waiting);
    }

    /// Registers one file transfer, folded into this dependency's totals.
    pub fn transfer(&self, state: &mut RunState, total: Option<u64>)
        ensures
            final(state).deps@ == with_transfer(
                old(state).deps@,
                self.id,
                |bytes: Bytes| begun(bytes, total),
            ),
            same_run(*final(state), *old(state)),
    {
        state.begin_transfer(self.id, total);
    }

    /// Counts bytes that just arrived, against this dependency and the run.
    pub fn advance(&self, state: &mut RunState, amount: u64)
        ensures
            final(state).deps@ == with_transfer(
                old(state).deps@,
                self.id,
                |bytes: Bytes|
                    Bytes {
                        done: capped_sum(bytes.done as int, amount as int, u64::MAX as int) as u64,
                        ..bytes
                    },
            ),
            final(state).bytes == capped_sum(
                old(state).bytes as int,
                amount as int,
                u64::MAX as int,
            ),
            final(state).total == old(state).total,
            final(state).done == old(state).done,
            final(state).phase == old(state).phase,
            final(state).rows == old(state).rows,
            final(state).slots == old(state).slots,
    {
        state.advance(self.id, amount);
    }

    /// Notes that one transfer ended, clearing the totals once they all have.
    pub fn transfer_done(&self, state: &mut RunState)
        ensures
            final(state).deps@ == with_transfer(
                old(state).deps@,
                self.id,
                |bytes: Bytes| ended(bytes),
            ),
            same_run(*final(state), *old(state)),
    {
        state.end_transfer(self.id);
    }

    /// Records that a file reached its destination: on the row, by its name alone, where the run
    /// is animated; else as a line that is held back.
    pub fn saved(&mut self, state: &mut RunState, windows: bool, path: &str)
        ensures
            final(self).id == old(self).id,
            final(self).name == old(self).name,
            final(self).animated == old(self).animated,
            same_run(*final(state), *old(state)),
            if old(self).animated {
                &&& final(self).pending == old(self).pending
                &&& final(state).deps@.len() == old(state).deps@.len()
                &&& forall|i: int|
                    0 <= i < old(state).deps@.len() && i != old(self).id ==> #[trigger]
                    final(state).deps@[i] == old(state).deps@[i]
                &&& old(self).id < old(state).deps@.len() ==> {
                    let stage = final(state).deps@[old(self).id as int].stage;
                    stage matches Stage::Active { label, .. } && label@ == "saved "@
                        + template::basename_spec(windows, path@) && stage == active_with(
                        old(state).deps@[old(self).id as int].stage,
                        label,
                    )
                }
            } else {
                &&& final(state).deps@ == old(state).deps@
                &&& text::texts(final(self).pending@) == text::texts(old(self).pending@).push(
                    "Saved "@ + path@,
                )
            },
    {
        if self.animated {
            let mut label = "saved ".to_owned();
            label.append(template::basename(windows, path).as_str());
            state.set_status(self.id, label);
        } else {
            let mut line = "Saved ".to_owned();
            line.append(path);
            let ghost before = self.pending@;
            self.pending.push(line);
            assert(text::texts(self.pending@) =~= text::texts(before).push("Saved "@ + path@));
        }
    }

    /// Records the outcome on this dependency's own row and keeps the line for the end, or says it
    /// at once where nothing is animated.
    pub fn finish(
        &mut self,
        state: &mut RunState,
        outcome: Outcome,
        detail: String,
        plain: Option<Said>,
    ) -> (r: Settled)
        ensures
            settles(
                *old(self),
                *final(self),
                *old(state),
                *final(state),
                r,
                outcome,
                detail@,
                said_view(plain),
            ),
    {
        let mut info: Vec<String> = Vec::new();
        std::mem::swap(&mut info, &mut self.pending);
        let ghost said = detail@;
        let r = if self.animated {
            let line = held_line(self.name.as_str(), outcome, detail.as_str());
            state.set_stage(self.id, Stage::Done { outcome, detail });
            Settled { info, said: None, held: Some(line) }
        } else {
            state.set_stage(self.id, Stage::Gone);
            Settled { info, said: plain, held: None }
        };
        state.count_done();
        r
    }

    /// Ends with a note that nothing needed doing.
    pub fn up_to_date(&mut self, state: &mut RunState) -> (r: Settled)
        ensures
            settles(
                *old(self),
                *final(self),
                *old(state),
                *final(state),
                r,
                Outcome::Unchanged,
                "up to date"@,
                Some((false, old(self).name@ + " is up to date"@)),
            ),
    {
        let mut line = self.name.clone();
        line.append(" is up to date");
        self.finish(state, Outcome::Unchanged, "up to date".to_owned(), Some(Said::Info(line)))
    }

    /// Ends with the version now installed.
    pub fn installed(&mut self, state: &mut RunState, version: &str) -> (r: Settled)
        ensures
            settles(
                *old(self),
                *final(self),
                *old(state),
                *final(state),
                r,
                Outcome::Changed,
                "installed "@ + version@,
                Some((true, "Installed "@ + old(self).name@ + " "@ + version@)),
            ),
    {
        let mut detail = "installed ".to_owned();
        detail.append(version);
        let mut line = "Installed ".to_owned();
        line.append(self.name.as_str());
        line.append(" ");
        line.append(version);
        self.finish(state, Outcome::Changed, detail, Some(Said::Success(line)))
    }

    /// Ends with the version change.
    pub fn updated(&mut self, state: &mut RunState, before: &str, after: &str) -> (r: Settled)
        ensures
            settles(
                *old(self),
                *final(self),
                *old(state),
                *final(state),
                r,
                Outcome::Changed,
                before@ + " \u{2192} "@ + after@,
                Some(
                    (
                        true,
                        "Updated "@ + old(self).name@ + " from "@ + before@ + " to "@ + after@,
                    ),
                ),
            ),
    {
        let mut detail = before.to_owned();
        detail.append(" \u{2192} ");
        detail.append(after);
        let mut line = "Updated ".to_owned();
        line.append(self.name.as_str());
        line.append(" from ");
        line.append(before);
        line.append(" to ");
        line.append(after);
        self.finish(state, Outcome::Changed, detail, Some(Said::Success(line)))
    }

    /// Ends because the dependency was removed.
    pub fn uninstalled(&mut self, state: &mut RunState) -> (r: Settled)
        ensures
            settles(
                *old(self),
                *final(self),
                *old(state),
                *final(state),
                r,
                Outcome::Changed,
                "uninstalled"@,
                Some((true, "Uninstalled "@ + old(self).name@)),
            ),
    {
        let mut line = "Uninstalled ".to_owned();
        line.append(self.name.as_str());
        self.finish(state, Outcome::Changed, "uninstalled".to_owned(), Some(Said::Success(line)))
    }

    /// Ends because the dependency failed, saying briefly why. The full error still reaches the
    /// user as the command's own line.
    pub fn failed(&mut self, state: &mut RunState, reason: &str) -> (r: Settled)
        ensures
            settles(
                *old(self),
                *final(self),
                *old(state),
                *final(state),
                r,
                Outcome::Failed,
                reason@,
                None,
            ),
    {
        self.finish(state, Outcome::Failed, reason.to_owned(), None)
    }

    /// Ends without saying anything, for commands whose real output is elsewhere: the lines that
    /// were held back come out, and the row is given up.
    pub fn finish_quietly(&mut self, state: &mut RunState) -> (r: Vec<String>)
        ensures
            text::texts(r@) == text::texts(old(self).pending@),
            final(self).pending@.len() == 0,
            final(self).id == old(self).id,
            final(self).name == old(self).name,
            final(self).animated == old(self).animated,
            final(state).deps@ == with_stage(old(state).deps@, old(self).id, Stage::Gone),
            final(state).done == capped_sum(old(state).done as int, 1, usize::MAX as int),
            final(state).total == old(state).total,
            final(state).phase == old(state).phase,
            final(state).rows == old(state).rows,
            final(state).slots == old(state).slots,
            final(state).bytes == old(state).bytes,
    {
        let mut info: Vec<String> = Vec::new();
        std::mem::swap(&mut info, &mut self.pending);
        state.set_stage(self.id, Stage::Gone);
        state.count_done();
        info
    }
}

/// The display for one run.
#[derive(Debug)]
pub struct Reporter {
    /// Whether anything is animated; given up where the terminal turns out not to support it.
    pub animated: bool,
    /// What the run is doing.
    pub state: RunState,
    /// Outcome lines held until the run ends.
    pub results: Vec<String>,
}

impl Reporter {
    /// A reporter, with the choice whether to animate made.
    pub fn new(animated: bool) -> (r: Self)
        ensures
            r.animated == animated,
            r.results@.len() == 0,
            r.state.deps@.len() == 0,
            r.state.total == 0,
            r.state.done == 0,
            r.state.rows == 0,
            r.state.slots@.len() == 0,
            r.state.bytes == 0,
            r.state.phase@ == "resolving versions"@,
    {
        Reporter { animated, state: RunState::default(), results: Vec::new() }
    }

    /// A reporter that is animated only where stdout is a terminal and no summary of a pull request
    /// is asked for.
    pub fn detect(stdout_is_terminal: bool, pr_mode: bool) -> (r: Self)
        ensures
            r.animated == (stdout_is_terminal && !pr_mode),
            r.results@.len() == 0,
            r.state.deps@.len() == 0,
    {
        Self::new(stdout_is_terminal && !pr_mode)
    }

    /// Opens the display for a run over `total` dependencies: whether a region is to be drawn at
    /// all.
    pub fn begin(&mut self, total: usize) -> (r: bool)
        ensures
            r == (old(self).animated && total > 0),
            final(self).state.total == total,
            final(self).animated == old(self).animated,
            final(self).results == old(self).results,
            final(self).state.deps == old(self).state.deps,
            final(self).state.done == old(self).state.done,
            final(self).state.phase == old(self).state.phase,
            final(self).state.rows == old(self).state.rows,
            final(self).state.slots == old(self).state.slots,
            final(self).state.bytes == old(self).state.bytes,
    {
        self.state.total = total;
        self.animated && total > 0
    }

    /// Fixes how many worker rows the region has, for the rest of the run: as many as are asked for
    /// and fit, given the lines of the terminal if they are known.
    pub fn reserve_rows(&mut self, count: usize, lines: Option<u16>) -> (r: usize)
        ensures
            r == view::fit_spec(
                count as int,
                match lines {
                    Some(lines) => Some(lines as int),
                    None => None,
                },
            ),
            final(self).state.rows == r,
            final(self).state.slots@ == Seq::new(r as nat, |i: int| None::<DepId>),
            final(self).animated == old(self).animated,
            final(self).results == old(self).results,
            final(self).state.deps == old(self).state.deps,
            final(self).state.total == old(self).state.total,
            final(self).state.done == old(self).state.done,
            final(self).state.phase == old(self).state.phase,
            final(self).state.bytes == old(self).state.bytes,
    {
        let count: usize = view::fit(count, lines);
        self.state.resize(count);
        count
    }

    /// Replaces the summary message.
    pub fn summary(&mut self, message: String)
        ensures
            final(self).state.phase == message,
            final(self).animated == old(self).animated,
            final(self).results == old(self).results,
            final(self).state.deps == old(self).state.deps,
            final(self).state.total == old(self).state.total,
            final(self).state.done == old(self).state.done,
            final(self).state.rows == old(self).state.rows,
            final(self).state.slots == old(self).state.slots,
            final(self).state.bytes == old(self).state.bytes,
    {
        self.state.phase = message;
    }

    /// A handle for one dependency, in config order.
    pub fn dependency(&mut self, name: &str) -> (r: Dependency)
        ensures
            r.id == old(self).state.deps@.len(),
            r.name@ == name@,
            r.animated == old(self).animated,
            r.pending@.len() == 0,
            final(self).state.deps@.len() == r.id + 1,
            final(self).state.deps@.take(r.id as int) == old(self).state.deps@,
            final(self).state.deps@[r.id as int].name@ == name@,
            final(self).state.deps@[r.id as int].stage == Stage::Queued,
            same_run(final(self).state, old(self).state),
            final(self).animated == old(self).animated,
            final(self).results == old(self).results,
    {
        Dependency::register(&mut self.state, name, self.animated)
    }

    /// Keeps an outcome line until the run ends.
    pub fn hold(&mut self, line: String)
        ensures
            text::texts(final(self).results@) == text::texts(old(self).results@).push(line@),
            final(self).state == old(self).state,
            final(self).animated == old(self).animated,
    {
        let ghost before = self.results@;
        self.results.push(line);
        assert(text::texts(self.results@) =~= text::texts(before).push(line@));
    }

    /// Closes the display: the lines that were held, in the order they came. They are handed out
    /// once.
    pub fn end(&mut self) -> (r: Vec<String>)
        ensures
            text::texts(r@) == text::texts(old(self).results@),
            final(self).results@.len() == 0,
            final(self).state == old(self).state,
            final(self).animated == old(self).animated,
    {
        let mut held: Vec<String> = Vec::new();
        std::mem::swap(&mut held, &mut self.results);
        held
    }
}

/// A failed row says why, and spends no escape on a mark that paints itself.
pub proof fn a_failure_line_holds_its_reason(name: Seq<char>, reason: Seq<char>)
    ensures
        held_line_spec(name, Outcome::Failed, reason).len() >= reason.len(),
        held_line_spec(name, Outcome::Failed, reason).skip(
            held_line_spec(name, Outcome::Failed, reason).len() - reason.len(),
        ) == reason,
{
    let line = held_line_spec(name, Outcome::Failed, reason);
    assert(line.skip(line.len() - reason.len()) =~= reason);
}

/// Outcome lines line up: whatever the outcome, the name column behind the mark is of one width.
pub proof fn outcome_lines_line_up(name: Seq<char>, outcome: Outcome, detail: Seq<char>)
    ensures
        held_line_spec(name, outcome, detail).len() == coloured_mark(outcome).len()
            + outcome.mark_spec().1.len() + 2 + view::NAME_WIDTH + detail.len(),
{
    reveal_strlit(" ");
    view::the_name_column_is_a_fixed_width(name);
}

} // verus!
