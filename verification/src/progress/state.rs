//! What the run is doing, as plain data.
//!
//! Nothing here knows about a terminal. The renderer reads this and draws it; the rest only ever
//! changes it.

use vstd::prelude::*;

verus! {

/// A dependency's position in the config file, which is also its identity here.
pub type DepId = usize;

/// Bytes in flight for one dependency, summed over the files it is fetching.
#[derive(Debug, Clone, Copy, PartialEq, Eq, Structural)]
pub struct Bytes {
    /// Transfers still running.
    pub active: usize,
    /// Bytes that have arrived.
    pub done: u64,
    /// Bytes promised across the running transfers.
    pub expected: u64,
    /// Transfers that never advertised a size.
    pub unmeasured: usize,
}

impl Default for Bytes {
    fn default() -> (r: Self)
        ensures
            r == (Bytes { active: 0, done: 0, expected: 0, unmeasured: 0 }),
    {
        Bytes { active: 0, done: 0, expected: 0, unmeasured: 0 }
    }
}

impl Bytes {
    /// How far along, as bytes arrived out of bytes expected, when that can be known at all.
    ///
    /// A single transfer of unknown length makes the total unknowable. What has arrived never
    /// counts for more than what was promised.
    pub open spec fn fraction_spec(&self) -> Option<(u64, u64)> {
        if self.unmeasured > 0 || self.expected == 0 {
            None
        } else if self.done > self.expected {
            Some((self.expected, self.expected))
        } else {
            Some((self.done, self.expected))
        }
    }

    /// How far along, as bytes arrived out of bytes expected, when that can be known at all.
    pub fn fraction(&self) -> (r: Option<(u64, u64)>)
        ensures
            r == self.fraction_spec(),
    {
        if self.unmeasured > 0 || self.expected == 0 {
            None
        } else if self.done > self.expected {
            Some((self.expected, self.expected))
        } else {
            Some((self.done, self.expected))
        }
    }

    /// Whether a transfer is running, and so whether the row should show a bar.
    pub fn transferring(&self) -> (r: bool)
        ensures
            r == (self.active > 0),
    {
        self.active > 0
    }
}

/// How a dependency ended.
#[derive(Debug, Clone, Copy, PartialEq, Eq, Structural)]
pub enum Outcome {
    /// Installed, updated or removed.
    Changed,
    /// Nothing needed doing.
    Unchanged,
    /// It failed; the error itself is reported by the caller.
    Failed,
}

/// How many cells a mark and its padding take, whatever the outcome.
pub const MARK_WIDTH: usize = 2;

impl Outcome {
    /// The mark of an outcome, and what pads it to the width of the widest.
    pub open spec fn mark_spec(&self) -> (Seq<char>, Seq<char>) {
        match self {
            Outcome::Changed => ("\u{2714}"@, " "@),
            Outcome::Unchanged => ("\u{b7}"@, " "@),
            Outcome::Failed => ("\u{274c}"@, ""@),
        }
    }

    /// The mark of an outcome, and what pads it to the width of the widest.
    ///
    /// The failure mark is an emoji two cells wide; the others take one.
    pub fn mark(&self) -> (r: (&'static str, &'static str))
        ensures
            (r.0@, r.1@) == self.mark_spec(),
    {
        match self {
            Outcome::Changed => ("\u{2714}", " "),
            Outcome::Unchanged => ("\u{b7}", " "),
            Outcome::Failed => ("\u{274c}", ""),
        }
    }
}

/// What one dependency is doing.
#[derive(Debug, Clone, PartialEq, Eq)]
pub enum Stage {
    /// Not started: no permit yet, or nothing to do.
    Queued,
    /// Working. `bytes` is non-empty while files are arriving.
    Active {
        /// What it is doing, shown when no transfer is running.
        label: String,
        /// Transfer totals, summed over this dependency's files.
        bytes: Bytes,
    },
    /// Downloaded, waiting its turn to install.
    Waiting,
    /// Writing files, lockfile and config. Only ever one at a time.
    Committing {
        /// The step in progress.
        label: String,
    },
    /// Settled, showing what happened to it.
    Done {
        /// How it ended, which decides the mark and the colour.
        outcome: Outcome,
        /// The version installed, the change made, or why not.
        detail: String,
    },
    /// Settled with nothing to say, for commands whose real output is elsewhere.
    Gone,
}

impl Stage {
    /// How badly a dependency in this stage needs one of the limited rows, lowest first.
    pub open spec fn rank(&self) -> Option<u8> {
        match self {
            Stage::Committing { .. } => Some(0),
            Stage::Active { .. } => Some(1),
            Stage::Waiting => Some(2),
            Stage::Done { .. } => Some(3),
            Stage::Queued => None,
            Stage::Gone => None,
        }
    }

    /// How badly this dependency needs one of the limited rows, lowest first.
    ///
    /// `None` means it has nothing to show. Committing outranks downloading because everything
    /// else waits for it, and downloading outranks waiting so that a backlog of finished
    /// downloads can never hide the transfers that are moving. A finished dependency holds its
    /// row only until something with work to do needs it.
    pub fn priority(&self) -> (r: Option<u8>)
        ensures
            r == self.rank(),
    {
        match self {
            Stage::Committing { .. } => Some(0),
            Stage::Active { .. } => Some(1),
            Stage::Waiting => Some(2),
            Stage::Done { .. } => Some(3),
            Stage::Queued => None,
            Stage::Gone => None,
        }
    }
}

/// One dependency's name and stage.
#[derive(Debug, Clone)]
pub struct DepState {
    /// As written in the config file.
    pub name: String,
    /// What it is doing now.
    pub stage: Stage,
}

/// How many dependencies are in each stage, for the footer.
#[derive(Debug, Clone, Copy, PartialEq, Eq, Structural)]
pub struct Counts {
    /// Downloaded, waiting their turn to install.
    pub waiting: usize,
    /// Not started yet.
    pub queued: usize,
}

impl Default for Counts {
    fn default() -> (r: Self)
        ensures
            r == (Counts { waiting: 0, queued: 0 }),
    {
        Counts { waiting: 0, queued: 0 }
    }
}

/// Everything the display draws.
#[derive(Debug)]
pub struct RunState {
    /// Dependencies in config order.
    pub deps: Vec<DepState>,
    /// Dependencies in the config, which is the denominator of the summary.
    pub total: usize,
    /// Dependencies that have settled.
    pub done: usize,
    /// What the run as a whole is doing.
    pub phase: String,
    /// Worker rows the run reserved.
    pub rows: usize,
    /// Which dependency is shown on each worker row, `None` for an empty one.
    pub slots: Vec<Option<DepId>>,
    /// Bytes received across every dependency, for the footer.
    pub bytes: u64,
}

/// The rank of each dependency, in config order.
pub open spec fn ranks(deps: Seq<DepState>) -> Seq<Option<u8>> {
    Seq::new(deps.len(), |i: int| deps[i].stage.rank())
}

/// The rank of dependency `id`, `None` where there is no such dependency.
pub open spec fn rank_of(ranks: Seq<Option<u8>>, id: DepId) -> Option<u8> {
    if id < ranks.len() {
        ranks[id as int]
    } else {
        None
    }
}

/// `slots` cut or padded with empty rows to `rows` rows.
pub open spec fn resized(slots: Seq<Option<DepId>>, rows: int) -> Seq<Option<DepId>> {
    Seq::new(rows as nat, |i: int| if i < slots.len() { slots[i] } else { None })
}

/// `slots` without the dependencies that have nothing left to show.
pub open spec fn released(slots: Seq<Option<DepId>>, ranks: Seq<Option<u8>>) -> Seq<Option<DepId>> {
    Seq::new(
        slots.len(),
        |i: int|
            match slots[i] {
                Some(id) => if rank_of(ranks, id) is Some { Some(id) } else { None },
                None => None,
            },
    )
}

/// The dependencies below `n` of rank `r` that have no row, in config order.
pub open spec fn waiting_at(
    slots: Seq<Option<DepId>>,
    ranks: Seq<Option<u8>>,
    r: u8,
    n: int,
) -> Seq<DepId>
    decreases n,
{
    if n <= 0 {
        Seq::empty()
    } else {
        let before = waiting_at(slots, ranks, r, n - 1);
        if ranks[n - 1] == Some(r) && !slots.contains(Some((n - 1) as usize)) {
            before.push((n - 1) as usize)
        } else {
            before
        }
    }
}

/// The dependencies of a rank below `r` that have no row: rank by rank, each in config order.
pub open spec fn waiting_below(
    slots: Seq<Option<DepId>>,
    ranks: Seq<Option<u8>>,
    r: int,
) -> Seq<DepId>
    decreases r,
{
    if r <= 0 {
        Seq::empty()
    } else {
        waiting_below(slots, ranks, r - 1) + waiting_at(
            slots,
            ranks,
            (r - 1) as u8,
            ranks.len() as int,
        )
    }
}

/// The number of ranks.
pub const RANKS: u8 = 4;

/// The first empty row at or after `from`.
pub open spec fn first_empty(slots: Seq<Option<DepId>>, from: int) -> Option<int>
    decreases slots.len() - from,
{
    if from < 0 || from >= slots.len() {
        None
    } else if slots[from] is None {
        Some(from)
    } else {
        first_empty(slots, from + 1)
    }
}

/// Whether the dependency on row `a` needs its row no more than the one on row `b` needs its
/// own: a higher rank, and within a rank an earlier place in the config, needs it less.
pub open spec fn needs_less(
    slots: Seq<Option<DepId>>,
    ranks: Seq<Option<u8>>,
    a: int,
    b: int,
) -> bool {
    let ra = rank_of(ranks, slots[a]->0)->0;
    let rb = rank_of(ranks, slots[b]->0)->0;
    ra > rb || (ra == rb && slots[a]->0 <= slots[b]->0)
}

/// Whether row `i` holds a dependency with something to show.
pub open spec fn occupied(slots: Seq<Option<DepId>>, ranks: Seq<Option<u8>>, i: int) -> bool {
    slots[i] is Some && rank_of(ranks, slots[i]->0) is Some
}

/// The row before `n` whose occupant needs it least.
pub open spec fn worst_row_spec(
    slots: Seq<Option<DepId>>,
    ranks: Seq<Option<u8>>,
    n: int,
) -> Option<int>
    decreases n,
{
    if n <= 0 {
        None
    } else {
        let before = worst_row_spec(slots, ranks, n - 1);
        if !occupied(slots, ranks, n - 1) {
            before
        } else if before is None || needs_less(slots, ranks, n - 1, before->0) {
            Some(n - 1)
        } else {
            before
        }
    }
}

/// Hands the queued dependencies their rows, best first: an empty row where there is one, else
/// the row that is needed least, if its occupant ranks strictly lower.
pub open spec fn settled(
    slots: Seq<Option<DepId>>,
    queue: Seq<DepId>,
    ranks: Seq<Option<u8>>,
) -> Seq<Option<DepId>>
    decreases queue.len(),
{
    if queue.len() == 0 {
        slots
    } else if first_empty(slots, 0) is Some {
        settled(slots.update(first_empty(slots, 0)->0, Some(queue[0])), queue.skip(1), ranks)
    } else {
        match worst_row_spec(slots, ranks, slots.len() as int) {
            Some(w) => if rank_of(ranks, queue[0])->0 < rank_of(ranks, slots[w]->0)->0 {
                settled(slots.update(w, Some(queue[0])), queue.skip(1), ranks)
            } else {
                slots
            },
            None => slots,
        }
    }
}

/// The rows after an assignment.
pub open spec fn assigned(
    slots: Seq<Option<DepId>>,
    rows: int,
    ranks: Seq<Option<u8>>,
) -> Seq<Option<DepId>> {
    let free = released(resized(slots, rows), ranks);
    settled(free, waiting_below(free, ranks, RANKS as int), ranks)
}

/// How many of the first `n` dependencies are in the stage `Waiting`.
pub open spec fn waiting_count(deps: Seq<DepState>, n: int) -> int
    decreases n,
{
    if n <= 0 {
        0
    } else {
        waiting_count(deps, n - 1) + if deps[n - 1].stage is Waiting { 1int } else { 0int }
    }
}

/// How many of the first `n` dependencies are in the stage `Queued`.
pub open spec fn queued_count(deps: Seq<DepState>, n: int) -> int
    decreases n,
{
    if n <= 0 {
        0
    } else {
        queued_count(deps, n - 1) + if deps[n - 1].stage is Queued { 1int } else { 0int }
    }
}

impl Default for RunState {
    fn default() -> (r: Self)
        ensures
            r.deps@.len() == 0,
            r.total == 0,
            r.done == 0,
            r.phase@ == "resolving versions"@,
            r.rows == 0,
            r.slots@.len() == 0,
            r.bytes == 0,
    {
        RunState {
            deps: Vec::new(),
            total: 0,
            done: 0,
            phase: "resolving versions".to_owned(),
            rows: 0,
            slots: Vec::new(),
            bytes: 0,
        }
    }
}

impl RunState {
    /// Registers a dependency and hands back its identity.
    pub fn register(&mut self, name: &str) -> (id: DepId)
        ensures
            id == old(self).deps@.len(),
            final(self).deps@.len() == id + 1,
            final(self).deps@.take(id as int) == old(self).deps@,
            final(self).deps@[id as int].name@ == name@,
            final(self).deps@[id as int].stage == Stage::Queued,
            final(self).total == old(self).total,
            final(self).done == old(self).done,
            final(self).phase == old(self).phase,
            final(self).rows == old(self).rows,
            final(self).slots == old(self).slots,
            final(self).bytes == old(self).bytes,
    {
        self.deps.push(DepState { name: name.to_owned(), stage: Stage::Queued });
        assert(self.deps@.take(old(self).deps@.len() as int) == old(self).deps@);
        self.deps.len() - 1
    }

    /// The stage of one dependency, if it is registered.
    pub fn stage_mut(&mut self, id: DepId) -> (r: Option<&mut Stage>)
        ensures
            match r {
                Some(stage) => {
                    &&& id < old(self).deps@.len()
                    &&& *stage == old(self).deps@[id as int].stage
                    &&& final(self).deps@ == old(self).deps@.update(
                        id as int,
                        (DepState { stage: *final(stage), ..old(self).deps@[id as int] }),
                    )
                    &&& final(self).total == old(self).total
                    &&& final(self).done == old(self).done
                    &&& final(self).phase == old(self).phase
                    &&& final(self).rows == old(self).rows
                    &&& final(self).slots == old(self).slots
                    &&& final(self).bytes == old(self).bytes
                },
                None => id >= old(self).deps@.len() && *final(self) == *old(self),
            },
    {
        if id < self.deps.len() {
            Some(&mut self.deps[id].stage)
        } else {
            None
        }
    }

    /// Sets how many worker rows there are, discarding any assignment.
    pub fn resize(&mut self, rows: usize)
        ensures
            final(self).rows == rows,
            final(self).slots@ == Seq::new(rows as nat, |i: int| None::<DepId>),
            final(self).deps == old(self).deps,
            final(self).total == old(self).total,
            final(self).done == old(self).done,
            final(self).phase == old(self).phase,
            final(self).bytes == old(self).bytes,
    {
        let mut slots: Vec<Option<DepId>> = Vec::new();
        let mut i: usize = 0;
        while i < rows
            invariant
                i <= rows,
                slots@ == Seq::new(i as nat, |j: int| None::<DepId>),
            decreases rows - i,
        {
            slots.push(None);
            i += 1;
            assert(slots@ == Seq::new(i as nat, |j: int| None::<DepId>));
        }
        self.rows = rows;
        self.slots = slots;
    }

    /// The rank of a dependency, or `None` if it has nothing to show.
    fn rank(&self, id: DepId) -> (r: Option<u8>)
        ensures
            r == rank_of(ranks(self.deps@), id),
    {
        if id < self.deps.len() {
            self.deps[id].stage.priority()
        } else {
            None
        }
    }

    /// The first empty row.
    fn empty_row(&self) -> (r: Option<usize>)
        ensures
            match r {
                Some(i) => first_empty(self.slots@, 0) == Some(i as int) && i < self.slots@.len(),
                None => first_empty(self.slots@, 0) is None,
            },
    {
        let mut i: usize = 0;
        while i < self.slots.len()
            invariant
                i <= self.slots@.len(),
                first_empty(self.slots@, 0) == first_empty(self.slots@, i as int),
            decreases self.slots@.len() - i,
        {
            if self.slots[i].is_none() {
                return Some(i);
            }
            i += 1;
        }
        None
    }

    /// The row whose occupant needs it least.
    ///
    /// Ties go to the dependency earliest in the config, which is the one that finished longest
    /// ago. That keeps the most recent results on screen.
    fn worst_row(&self) -> (r: Option<usize>)
        ensures
            match r {
                Some(w) => {
                    &&& worst_row_spec(self.slots@, ranks(self.deps@), self.slots@.len() as int)
                        == Some(w as int)
                    &&& w < self.slots@.len()
                    &&& occupied(self.slots@, ranks(self.deps@), w as int)
                },
                None => worst_row_spec(
                    self.slots@,
                    ranks(self.deps@),
                    self.slots@.len() as int,
                ) is None,
            },
    {
        let mut worst: Option<usize> = None;
        let mut i: usize = 0;
        while i < self.slots.len()
            invariant
                i <= self.slots@.len(),
                match worst {
                    Some(w) => {
                        &&& worst_row_spec(self.slots@, ranks(self.deps@), i as int) == Some(
                            w as int,
                        )
                        &&& w < i
                        &&& occupied(self.slots@, ranks(self.deps@), w as int)
                    },
                    None => worst_row_spec(self.slots@, ranks(self.deps@), i as int) is None,
                },
            decreases self.slots@.len() - i,
        {
            if let Some(id) = self.slots[i] {
                if let Some(rank) = self.rank(id) {
                    match worst {
                        None => {
                            worst = Some(i);
                        },
                        Some(w) => {
                            let other: DepId = self.slots[w].unwrap();
                            let other_rank: u8 = self.rank(other).unwrap();
                            if rank > other_rank || (rank == other_rank && id <= other) {
                                worst = Some(i);
                            }
                        },
                    }
                }
            }
            i += 1;
        }
        worst
    }

    /// Whether a dependency is on one of the rows.
    fn has_row(&self, id: DepId) -> (r: bool)
        ensures
            r == self.slots@.contains(Some(id)),
    {
        let mut i: usize = 0;
        while i < self.slots.len()
            invariant
                i <= self.slots@.len(),
                forall|j: int| 0 <= j < i ==> self.slots@[j] != Some(id),
            decreases self.slots@.len() - i,
        {
            if let Some(other) = self.slots[i] {
                if other == id {
                    assert(self.slots@[i as int] == Some(id));
                    return true;
                }
            }
            i += 1;
        }
        false
    }

    /// The dependencies that want a row and have none, best first.
    fn waiting(&self) -> (r: Vec<DepId>)
        ensures
            r@ == waiting_below(self.slots@, ranks(self.deps@), RANKS as int),
    {
        let mut queue: Vec<DepId> = Vec::new();
        let mut r: u8 = 0;
        while r < RANKS
            invariant
                r <= RANKS,
                queue@ == waiting_below(self.slots@, ranks(self.deps@), r as int),
            decreases RANKS - r,
        {
            let mut id: usize = 0;
            let ghost before = queue@;
            while id < self.deps.len()
                invariant
                    id <= self.deps@.len(),
                    r < RANKS,
                    queue@ == before + waiting_at(self.slots@, ranks(self.deps@), r, id as int),
                decreases self.deps@.len() - id,
            {
                if let Some(rank) = self.deps[id].stage.priority() {
                    if rank == r && !self.has_row(id) {
                        queue.push(id);
                    }
                }
                id += 1;
                assert(queue@ == before + waiting_at(self.slots@, ranks(self.deps@), r, id as int));
            }
            r += 1;
        }
        queue
    }

    /// Decides which dependency sits on which row.
    ///
    /// A dependency keeps its row until it has nothing left to show; a row that frees up is
    /// refilled in place. Empty rows are filled by [`Stage::priority`], then config order, so:
    ///
    /// * the first rows to fill do so in config order, and read like the file;
    /// * a committing dependency always has a row;
    /// * a backlog of finished downloads can never hide a transfer that is still moving, because
    ///   an active dependency takes the row of a merely waiting one when nothing is free.
    pub fn assign(&mut self)
        ensures
            final(self).slots@ == assigned(
                old(self).slots@,
                old(self).rows as int,
                ranks(old(self).deps@),
            ),
            final(self).deps == old(self).deps,
            final(self).total == old(self).total,
            final(self).done == old(self).done,
            final(self).phase == old(self).phase,
            final(self).rows == old(self).rows,
            final(self).bytes == old(self).bytes,
    {
        let ghost all = ranks(self.deps@);
        let mut slots: Vec<Option<DepId>> = Vec::new();
        let mut i: usize = 0;
        while i < self.rows
            invariant
                i <= self.rows,
                *self == *old(self),
                slots@ == resized(self.slots@, i as int),
            decreases self.rows - i,
        {
            if i < self.slots.len() {
                slots.push(self.slots[i]);
            } else {
                slots.push(None);
            }
            i += 1;
            assert(slots@ == resized(self.slots@, i as int));
        }

        // Let go of rows whose dependency has finished.
        let ghost given = slots@;
        let mut i: usize = 0;
        while i < slots.len()
            invariant
                i <= slots@.len() == given.len(),
                *self == *old(self),
                all == ranks(self.deps@),
                forall|j: int| 0 <= j < i ==> slots@[j] == released(given, all)[j],
                forall|j: int| i <= j < slots@.len() ==> slots@[j] == given[j],
            decreases slots@.len() - i,
        {
            if let Some(id) = slots[i] {
                if self.rank(id).is_none() {
                    slots[i] = None;
                }
            }
            i += 1;
        }
        assert(slots@ == released(given, all));
        self.slots = slots;

        let queue = self.waiting();
        let count: usize = self.deps.len();
        let ghost free = self.slots@;
        let mut next: usize = 0;
        assert(queue@.skip(0) == queue@);
        while next < queue.len()
            invariant
                next <= queue@.len(),
                all == ranks(self.deps@),
                all.len() == count,
                queue@ == waiting_below(free, all, RANKS as int),
                settled(self.slots@, queue@.skip(next as int), all) == settled(free, queue@, all),
                self.deps == old(self).deps,
                self.total == old(self).total,
                self.done == old(self).done,
                self.phase == old(self).phase,
                self.rows == old(self).rows,
                self.bytes == old(self).bytes,
            ensures
                self.slots@ == settled(free, queue@, all),
            decreases queue@.len() - next,
        {
            let id: DepId = queue[next];
            proof {
                lemma_waiting_below(free, all, RANKS as int);
                assert(rank_of(all, queue@[next as int]) is Some);
                assert(queue@.skip(next as int).skip(1) == queue@.skip(next + 1));
                assert(queue@.skip(next as int)[0] == id);
            }
            match self.empty_row() {
                Some(row) => {
                    self.slots[row] = Some(id);
                },
                None => match self.worst_row() {
                    Some(row) => {
                        let rank: u8 = self.rank(id).unwrap();
                        let other: DepId = self.slots[row].unwrap();
                        let worst: u8 = self.rank(other).unwrap();
                        if rank >= worst {
                            break;
                        }
                        self.slots[row] = Some(id);
                    },
                    None => {
                        break;
                    },
                },
            }
            next += 1;
        }
    }

    /// The dependencies on the worker rows, in row order, with gaps for empty rows.
    pub fn selection(&self) -> (r: &[Option<DepId>])
        ensures
            r@ == self.slots@,
    {
        self.slots.as_slice()
    }

    /// How far through the run, as settled dependencies out of all of them.
    pub open spec fn fraction_spec(&self) -> (int, int) {
        if self.total == 0 {
            (0, 1)
        } else if self.done > self.total {
            (self.total as int, self.total as int)
        } else {
            (self.done as int, self.total as int)
        }
    }

    /// How far through the run, as settled dependencies out of all of them.
    pub fn fraction(&self) -> (r: (u64, u64))
        ensures
            (r.0 as int, r.1 as int) == self.fraction_spec(),
            r.0 <= r.1,
            r.1 > 0,
    {
        if self.total == 0 {
            (0, 1)
        } else if self.done > self.total {
            (self.total as u64, self.total as u64)
        } else {
            (self.done as u64, self.total as u64)
        }
    }

    /// Whole bytes per second after so many nanoseconds, `None` before there is enough to divide
    /// by.
    pub open spec fn rate_spec(&self, elapsed: int) -> Option<int> {
        if elapsed <= 50_000_000 || self.bytes == 0 {
            None
        } else if self.bytes * 1_000_000_000 / elapsed > u64::MAX {
            Some(u64::MAX as int)
        } else {
            Some(self.bytes * 1_000_000_000 / elapsed)
        }
    }

    /// Whole bytes per second after so many nanoseconds, `None` before there is enough to divide
    /// by.
    pub fn rate(&self, elapsed: u64) -> (r: Option<u64>)
        ensures
            match r {
                Some(rate) => self.rate_spec(elapsed as int) == Some(rate as int),
                None => self.rate_spec(elapsed as int) is None,
            },
    {
        if elapsed <= 50_000_000 || self.bytes == 0 {
            return None;
        }
        let rate: u128 = self.bytes as u128 * 1_000_000_000 / elapsed as u128;
        if rate > u64::MAX as u128 {
            Some(u64::MAX)
        } else {
            Some(rate as u64)
        }
    }

    /// How many dependencies are waiting or queued, whether or not they got a row.
    pub fn counts(&self) -> (r: Counts)
        ensures
            r.waiting == waiting_count(self.deps@, self.deps@.len() as int),
            r.queued == queued_count(self.deps@, self.deps@.len() as int),
    {
        let mut counts = Counts { waiting: 0, queued: 0 };
        let mut i: usize = 0;
        while i < self.deps.len()
            invariant
                i <= self.deps@.len(),
                counts.waiting == waiting_count(self.deps@, i as int),
                counts.queued == queued_count(self.deps@, i as int),
                counts.waiting <= i,
                counts.queued <= i,
            decreases self.deps@.len() - i,
        {
            match &self.deps[i].stage {
                Stage::Waiting => {
                    counts.waiting += 1;
                },
                Stage::Queued => {
                    counts.queued += 1;
                },
                _ => {},
            }
            i += 1;
        }
        counts
    }
}

/// What a rank's queue holds: exactly the dependencies below `n` of that rank without a row,
/// each once, in config order.
proof fn lemma_waiting_at(slots: Seq<Option<DepId>>, ranks: Seq<Option<u8>>, r: u8, n: int)
    requires
        n <= ranks.len() <= usize::MAX,
    ensures
        forall|i: int|
            0 <= i < waiting_at(slots, ranks, r, n).len() ==> {
                let id = #[trigger] waiting_at(slots, ranks, r, n)[i];
                id < n && ranks[id as int] == Some(r) && !slots.contains(Some(id))
            },
        forall|i: int, j: int|
            0 <= i < j < waiting_at(slots, ranks, r, n).len() ==> waiting_at(slots, ranks, r, n)[i]
                < waiting_at(slots, ranks, r, n)[j],
        forall|id: DepId|
            id < n && ranks[id as int] == Some(r) && !slots.contains(Some(id))
                ==> #[trigger] waiting_at(slots, ranks, r, n).contains(id),
    decreases n,
{
    if n > 0 {
        lemma_waiting_at(slots, ranks, r, n - 1);
        let before = waiting_at(slots, ranks, r, n - 1);
        let all = waiting_at(slots, ranks, r, n);
        assert forall|id: DepId|
            id < n && ranks[id as int] == Some(r) && !slots.contains(
                Some(id),
            ) implies #[trigger] all.contains(id) by {
            if id < n - 1 {
                assert(before.contains(id));
                let k = before.index_of(id);
                assert(all[k] == id);
            } else {
                assert(all[before.len() as int] == id);
            }
        }
    }
}

/// What the queue holds: exactly the dependencies of a rank below `r` without a row, each once,
/// lower ranks first.
proof fn lemma_waiting_below(slots: Seq<Option<DepId>>, ranks: Seq<Option<u8>>, r: int)
    requires
        ranks.len() <= usize::MAX,
        r <= RANKS,
    ensures
        ({
            let queue = waiting_below(slots, ranks, r);
            &&& forall|i: int|
                0 <= i < queue.len() ==> {
                    let id = #[trigger] queue[i];
                    id < ranks.len() && ranks[id as int] is Some && ranks[id as int]->0 < r
                        && !slots.contains(Some(id))
                }
            &&& forall|i: int, j: int|
                0 <= i < j < queue.len() ==> queue[i] != queue[j]
                    && ranks[queue[i] as int]->0 <= ranks[queue[j] as int]->0
            &&& forall|id: DepId|
                id < ranks.len() && ranks[id as int] is Some && ranks[id as int]->0 < r
                    && !slots.contains(Some(id)) ==> #[trigger] queue.contains(id)
        }),
    decreases r,
{
    if r > 0 {
        lemma_waiting_below(slots, ranks, r - 1);
        let n = ranks.len() as int;
        lemma_waiting_at(slots, ranks, (r - 1) as u8, n);
        let before = waiting_below(slots, ranks, r - 1);
        let here = waiting_at(slots, ranks, (r - 1) as u8, n);
        let queue = waiting_below(slots, ranks, r);
        assert(queue == before + here);
        assert forall|id: DepId|
            id < ranks.len() && ranks[id as int] is Some && ranks[id as int]->0 < r
                && !slots.contains(Some(id)) implies #[trigger] queue.contains(id) by {
            if ranks[id as int]->0 < r - 1 {
                assert(before.contains(id));
                assert(queue[before.index_of(id)] == id);
            } else {
                assert(here.contains(id));
                assert(queue[before.len() + here.index_of(id)] == id);
            }
        }
    }
}

/// No dependency stands on two rows.
pub open spec fn rows_distinct(slots: Seq<Option<DepId>>) -> bool {
    forall|i: int, j: int|
        0 <= i < j < slots.len() && slots[i] is Some && slots[j] is Some ==> slots[i] != slots[j]
}

/// Every row is empty or holds a dependency with something to show.
pub open spec fn rows_ranked(slots: Seq<Option<DepId>>, ranks: Seq<Option<u8>>) -> bool {
    forall|i: int|
        0 <= i < slots.len() && (#[trigger] slots[i]) is Some ==> rank_of(ranks, slots[i]->0) is Some
}

/// Dependency `id` is rightly without a row: no row is empty, and no occupant ranks lower.
pub open spec fn rightly_hidden(
    slots: Seq<Option<DepId>>,
    ranks: Seq<Option<u8>>,
    id: DepId,
) -> bool {
    forall|i: int|
        0 <= i < slots.len() ==> (#[trigger] slots[i]) is Some && rank_of(ranks, slots[i]->0) is Some
            && rank_of(ranks, slots[i]->0)->0 <= rank_of(ranks, id)->0
}

/// Every dependency with something to show and no row is rightly without one.
pub open spec fn nothing_hidden(slots: Seq<Option<DepId>>, ranks: Seq<Option<u8>>) -> bool {
    forall|id: DepId|
        rank_of(ranks, id) is Some && !#[trigger] slots.contains(Some(id)) ==> rightly_hidden(
            slots,
            ranks,
            id,
        )
}

/// Row by row, `after` holds what `before` held, or something that ranks strictly higher.
pub open spec fn rows_kept(
    before: Seq<Option<DepId>>,
    after: Seq<Option<DepId>>,
    ranks: Seq<Option<u8>>,
) -> bool {
    &&& after.len() == before.len()
    &&& forall|i: int|
        0 <= i < before.len() && (#[trigger] before[i]) is Some ==> after[i] == before[i] || (
        after[i] is Some && rank_of(ranks, after[i]->0) is Some && rank_of(ranks, after[i]->0)->0
            < rank_of(ranks, before[i]->0)->0)
}

/// The worst row is occupied, and no occupant ranks lower than the one on it.
proof fn lemma_worst_row(slots: Seq<Option<DepId>>, ranks: Seq<Option<u8>>, n: int)
    requires
        0 <= n <= slots.len(),
    ensures
        match worst_row_spec(slots, ranks, n) {
            Some(w) => {
                &&& 0 <= w < n
                &&& occupied(slots, ranks, w)
                &&& forall|i: int|
                    0 <= i < n && #[trigger] occupied(slots, ranks, i) ==> rank_of(
                        ranks,
                        slots[i]->0,
                    )->0 <= rank_of(ranks, slots[w]->0)->0
            },
            None => forall|i: int| 0 <= i < n ==> !#[trigger] occupied(slots, ranks, i),
        },
    decreases n,
{
    if n > 0 {
        lemma_worst_row(slots, ranks, n - 1);
    }
}

/// The first empty row is empty, and without one every row is taken.
proof fn lemma_first_empty(slots: Seq<Option<DepId>>, from: int)
    requires
        0 <= from <= slots.len(),
    ensures
        match first_empty(slots, from) {
            Some(i) => from <= i < slots.len() && slots[i] is None,
            None => forall|i: int| from <= i < slots.len() ==> (#[trigger] slots[i]) is Some,
        },
    decreases slots.len() - from,
{
    if from < slots.len() && slots[from] is Some {
        lemma_first_empty(slots, from + 1);
    }
}

/// What holds between the rows and the queue while rows are handed out.
spec fn handing_out(
    slots: Seq<Option<DepId>>,
    queue: Seq<DepId>,
    ranks: Seq<Option<u8>>,
) -> bool {
    &&& rows_ranked(slots, ranks)
    &&& forall|i: int|
        0 <= i < queue.len() ==> rank_of(ranks, #[trigger] queue[i]) is Some && !slots.contains(
            Some(queue[i]),
        )
    &&& forall|i: int, j: int|
        0 <= i < j < queue.len() ==> queue[i] != queue[j] && rank_of(ranks, queue[i])->0 <= rank_of(
            ranks,
            queue[j],
        )->0
    &&& forall|id: DepId|
        rank_of(ranks, id) is Some && !#[trigger] slots.contains(Some(id)) && !queue.contains(id)
            ==> rightly_hidden(slots, ranks, id)
}

/// Handing one queued dependency row `w` keeps what holds while rows are handed out, where the
/// row is empty, or none is and its occupant ranks lowest.
proof fn lemma_hand_out(
    slots: Seq<Option<DepId>>,
    queue: Seq<DepId>,
    ranks: Seq<Option<u8>>,
    w: int,
)
    requires
        handing_out(slots, queue, ranks),
        queue.len() > 0,
        0 <= w < slots.len(),
        slots[w] is None || {
            &&& forall|i: int|
                0 <= i < slots.len() ==> (#[trigger] slots[i]) is Some && rank_of(
                    ranks,
                    slots[i]->0,
                )->0 <= rank_of(ranks, slots[w]->0)->0
            &&& rank_of(ranks, queue[0])->0 < rank_of(ranks, slots[w]->0)->0
        },
    ensures
        handing_out(slots.update(w, Some(queue[0])), queue.skip(1), ranks),
        rows_distinct(slots) ==> rows_distinct(slots.update(w, Some(queue[0]))),
{
    let id = queue[0];
    let next = slots.update(w, Some(id));
    let rest = queue.skip(1);
    assert forall|i: int, j: int|
        rows_distinct(slots) && 0 <= i < j < next.len() && next[i] is Some
            && next[j] is Some implies next[i] != next[j] by {
        if i == w {
            assert(slots.contains(slots[j]));
        } else if j == w {
            assert(slots.contains(slots[i]));
        }
    }
    assert forall|i: int| 0 <= i < rest.len() implies rank_of(ranks, #[trigger] rest[i]) is Some
        && !next.contains(Some(rest[i])) by {
        assert(rest[i] == queue[i + 1]);
        if next.contains(Some(rest[i])) {
            let k = next.index_of(Some(rest[i]));
            assert(next[k] == Some(rest[i]));
            if k != w {
                assert(slots[k] == Some(rest[i]));
                assert(slots.contains(Some(queue[i + 1])));
            }
        }
    }
    assert forall|other: DepId|
        rank_of(ranks, other) is Some && !#[trigger] next.contains(Some(other)) && !rest.contains(
            other,
        ) implies rightly_hidden(next, ranks, other) by {
        if other == id {
            assert(next[w] == Some(id));
            assert(next.contains(Some(id)));
        }
        if queue.contains(other) {
            let k = queue.index_of(other);
            assert(rest[k - 1] == other);
        }
        if slots.contains(Some(other)) {
            let k = slots.index_of(Some(other));
            if k != w {
                assert(next[k] == Some(other));
            }
            assert(slots[w] == Some(other));
            assert(rightly_hidden(next, ranks, other));
        } else {
            assert(rightly_hidden(slots, ranks, other));
            assert(slots[w] is Some);
        }
    }
}

/// Handing out the whole queue keeps rows distinct, leaves no row with nothing to show, hides
/// nothing wrongly, and takes a row only for something that ranks strictly higher.
proof fn lemma_settled(slots: Seq<Option<DepId>>, queue: Seq<DepId>, ranks: Seq<Option<u8>>)
    requires
        handing_out(slots, queue, ranks),
    ensures
        rows_ranked(settled(slots, queue, ranks), ranks),
        rows_distinct(slots) ==> rows_distinct(settled(slots, queue, ranks)),
        nothing_hidden(settled(slots, queue, ranks), ranks),
        rows_kept(slots, settled(slots, queue, ranks), ranks),
    decreases queue.len(),
{
    if queue.len() > 0 {
        lemma_first_empty(slots, 0);
        lemma_worst_row(slots, ranks, slots.len() as int);
        if first_empty(slots, 0) is Some {
            let w = first_empty(slots, 0)->0;
            lemma_hand_out(slots, queue, ranks, w);
            lemma_settled(slots.update(w, Some(queue[0])), queue.skip(1), ranks);
            let next = slots.update(w, Some(queue[0]));
            let end = settled(slots, queue, ranks);
            assert forall|i: int| 0 <= i < slots.len() && (#[trigger] slots[i]) is Some implies end[i]
                == slots[i] || (end[i] is Some && rank_of(ranks, end[i]->0) is Some && rank_of(
                ranks,
                end[i]->0,
            )->0 < rank_of(ranks, slots[i]->0)->0) by {
                assert(next[i] == slots[i]);
            }
        } else {
            assert forall|i: int| 0 <= i < slots.len() implies #[trigger] occupied(
                slots,
                ranks,
                i,
            ) by {
                assert(slots[i] is Some);
            }
            match worst_row_spec(slots, ranks, slots.len() as int) {
                Some(w) => {
                    assert forall|i: int| 0 <= i < slots.len() implies (#[trigger] slots[i]) is Some
                        && rank_of(ranks, slots[i]->0)->0 <= rank_of(ranks, slots[w]->0)->0 by {
                        assert(occupied(slots, ranks, i));
                    }
                    if rank_of(ranks, queue[0])->0 < rank_of(ranks, slots[w]->0)->0 {
                        lemma_hand_out(slots, queue, ranks, w);
                        let next = slots.update(w, Some(queue[0]));
                        lemma_settled(next, queue.skip(1), ranks);
                        let end = settled(slots, queue, ranks);
                        assert forall|i: int|
                            0 <= i < slots.len() && (#[trigger] slots[i]) is Some implies end[i]
                            == slots[i] || (end[i] is Some && rank_of(ranks, end[i]->0) is Some
                            && rank_of(ranks, end[i]->0)->0 < rank_of(ranks, slots[i]->0)->0) by {
                            assert(next[i] is Some);
                        }
                    } else {
                        assert forall|id: DepId|
                            rank_of(ranks, id) is Some && !#[trigger] slots.contains(
                                Some(id),
                            ) implies rightly_hidden(slots, ranks, id) by {
                            if queue.contains(id) {
                                let k = queue.index_of(id);
                                assert(queue[k] == id);
                            }
                        }
                    }
                },
                None => {
                    assert(slots.len() == 0) by {
                        if slots.len() > 0 {
                            assert(occupied(slots, ranks, 0));
                        }
                    }
                },
            }
        }
    }
}

/// Once rows that have nothing to show are let go, everything with something to show is on a row
/// or in the queue.
proof fn lemma_released_hands_out(slots: Seq<Option<DepId>>, rows: int, deps: Seq<DepState>)
    requires
        deps.len() <= usize::MAX,
        0 <= rows,
    ensures
        ({
            let free = released(resized(slots, rows), ranks(deps));
            handing_out(free, waiting_below(free, ranks(deps), RANKS as int), ranks(deps))
        }),
{
    let all = ranks(deps);
    let free = released(resized(slots, rows), all);
    let queue = waiting_below(free, all, RANKS as int);
    lemma_waiting_below(free, all, RANKS as int);
    assert forall|id: DepId|
        rank_of(all, id) is Some && !#[trigger] free.contains(Some(id)) && !queue.contains(
            id,
        ) implies rightly_hidden(free, all, id) by {
        assert(all[id as int]->0 < RANKS);
        assert(queue.contains(id));
    }
}

/// An assignment puts no dependency on a second row, gives no row to a dependency that has
/// settled silently or not started, and hides a dependency with something to show only where no
/// row is empty and no row shows a dependency of a lower rank. So a running download is never
/// hidden by one that merely waits, and the committing dependency never by a running one.
pub proof fn assignment_is_fair(slots: Seq<Option<DepId>>, rows: int, deps: Seq<DepState>)
    requires
        deps.len() <= usize::MAX,
        0 <= rows,
    ensures
        assigned(slots, rows, ranks(deps)).len() == rows,
        rows_distinct(slots) ==> rows_distinct(assigned(slots, rows, ranks(deps))),
        rows_ranked(assigned(slots, rows, ranks(deps)), ranks(deps)),
        nothing_hidden(assigned(slots, rows, ranks(deps)), ranks(deps)),
{
    let free = released(resized(slots, rows), ranks(deps));
    lemma_released_hands_out(slots, rows, deps);
    lemma_settled(free, waiting_below(free, ranks(deps), RANKS as int), ranks(deps));
}

/// Handing out leaves on a row what it held, or puts something from the queue there.
proof fn lemma_settled_from(slots: Seq<Option<DepId>>, queue: Seq<DepId>, ranks: Seq<Option<u8>>)
    ensures
        settled(slots, queue, ranks).len() == slots.len(),
        forall|i: int|
            0 <= i < slots.len() ==> {
                let held = #[trigger] settled(slots, queue, ranks)[i];
                held == slots[i] || (held is Some && queue.contains(held->0))
            },
    decreases queue.len(),
{
    if queue.len() > 0 {
        lemma_first_empty(slots, 0);
        lemma_worst_row(slots, ranks, slots.len() as int);
        let end = settled(slots, queue, ranks);
        let rest = queue.skip(1);
        let row = if first_empty(slots, 0) is Some {
            first_empty(slots, 0)
        } else {
            worst_row_spec(slots, ranks, slots.len() as int)
        };
        if row is Some {
            let next = slots.update(row->0, Some(queue[0]));
            lemma_settled_from(next, rest, ranks);
            assert forall|i: int| 0 <= i < slots.len() implies {
                let held = #[trigger] end[i];
                held == slots[i] || (held is Some && queue.contains(held->0))
            } by {
                if end == settled(next, rest, ranks) {
                    assert(queue.contains(queue[0]));
                    if end[i] != next[i] {
                        let k = rest.index_of(end[i]->0);
                        assert(queue[k + 1] == end[i]->0);
                    }
                }
            }
        }
    }
}

/// A dependency with something to show keeps its row through an assignment, unless one of a
/// strictly higher rank takes it, and then it is on no row at all. So a row never moves because
/// another dependency finished.
pub proof fn assignment_keeps_rows(
    slots: Seq<Option<DepId>>,
    rows: int,
    deps: Seq<DepState>,
    row: int,
)
    requires
        deps.len() <= usize::MAX,
        0 <= row < rows,
        row < slots.len(),
        slots[row] is Some,
        rank_of(ranks(deps), slots[row]->0) is Some,
    ensures
        ({
            let after = assigned(slots, rows, ranks(deps))[row];
            after == slots[row] || (after is Some && rank_of(ranks(deps), after->0) is Some
                && rank_of(ranks(deps), after->0)->0 < rank_of(ranks(deps), slots[row]->0)->0)
        }),
        rows_distinct(slots) && assigned(slots, rows, ranks(deps))[row] != slots[row] ==> !assigned(
            slots,
            rows,
            ranks(deps),
        ).contains(slots[row]),
{
    let all = ranks(deps);
    let free = released(resized(slots, rows), all);
    let queue = waiting_below(free, all, RANKS as int);
    lemma_released_hands_out(slots, rows, deps);
    lemma_settled(free, queue, all);
    lemma_settled_from(free, queue, all);
    lemma_waiting_below(free, all, RANKS as int);
    assert(free[row] == slots[row]);
    let after = assigned(slots, rows, all);
    if rows_distinct(slots) && after[row] != slots[row] && after.contains(slots[row]) {
        let i = after.index_of(slots[row]);
        assert(free.contains(free[row]));
        if after[i] == free[i] {
            assert(slots[i] == slots[row]);
        } else {
            let k = queue.index_of(after[i]->0);
            assert(!free.contains(Some(queue[k])));
        }
    }
}

/// Assigning again changes nothing on its own.
pub proof fn assignment_is_stable(slots: Seq<Option<DepId>>, rows: int, deps: Seq<DepState>)
    requires
        deps.len() <= usize::MAX,
        0 <= rows,
    ensures
        assigned(assigned(slots, rows, ranks(deps)), rows, ranks(deps)) == assigned(
            slots,
            rows,
            ranks(deps),
        ),
{
    let all = ranks(deps);
    let once = assigned(slots, rows, all);
    assignment_is_fair(slots, rows, deps);
    let free = released(resized(once, rows), all);
    assert(free =~= once);
    let queue = waiting_below(free, all, RANKS as int);
    lemma_waiting_below(free, all, RANKS as int);
    if queue.len() > 0 {
        assert(rank_of(all, queue[0]) is Some && !once.contains(Some(queue[0])));
        assert(rightly_hidden(once, all, queue[0]));
        lemma_first_empty(once, 0);
        lemma_worst_row(once, all, once.len() as int);
    }
}

/// With no rows there is nothing to assign.
pub proof fn no_rows_select_nothing(slots: Seq<Option<DepId>>, deps: Seq<DepState>)
    requires
        deps.len() <= usize::MAX,
    ensures
        assigned(slots, 0, ranks(deps)).len() == 0,
{
    let free = released(resized(slots, 0), ranks(deps));
    let queue = waiting_below(free, ranks(deps), RANKS as int);
    assert(worst_row_spec(free, ranks(deps), 0) is None);
    assert(first_empty(free, 0) is None);
}

/// The dependencies with one stage replaced; unchanged where there is no such dependency.
pub open spec fn with_stage(deps: Seq<DepState>, id: DepId, stage: Stage) -> Seq<DepState> {
    if id < deps.len() {
        deps.update(id as int, DepState { stage, ..deps[id as int] })
    } else {
        deps
    }
}

/// The sum of two counts, which stops at the largest number there is.
pub open spec fn capped_sum(a: int, b: int, largest: int) -> int {
    if a + b > largest {
        largest
    } else {
        a + b
    }
}

/// A stage that says what it is doing, with the transfer that was already in flight.
pub open spec fn active_with(stage: Stage, label: String) -> Stage {
    Stage::Active {
        label,
        bytes: match stage {
            Stage::Active { bytes, .. } => bytes,
            _ => Bytes { active: 0, done: 0, expected: 0, unmeasured: 0 },
        },
    }
}

/// Transfer totals with one more transfer, of known or unknown length.
pub open spec fn begun(bytes: Bytes, total: Option<u64>) -> Bytes {
    let active = capped_sum(bytes.active as int, 1, usize::MAX as int) as usize;
    match total {
        Some(total) => Bytes {
            active,
            expected: capped_sum(bytes.expected as int, total as int, u64::MAX as int) as u64,
            ..bytes
        },
        None => Bytes {
            active,
            unmeasured: capped_sum(bytes.unmeasured as int, 1, usize::MAX as int) as usize,
            ..bytes
        },
    }
}

/// Transfer totals with one transfer less, cleared once none is left.
pub open spec fn ended(bytes: Bytes) -> Bytes {
    if bytes.active <= 1 {
        Bytes { active: 0, done: 0, expected: 0, unmeasured: 0 }
    } else {
        Bytes { active: (bytes.active - 1) as usize, ..bytes }
    }
}

/// A stage whose transfer totals are replaced; one without a transfer stays as it is.
pub open spec fn with_bytes(stage: Stage, change: spec_fn(Bytes) -> Bytes) -> Stage {
    match stage {
        Stage::Active { label, bytes } => Stage::Active { label, bytes: change(bytes) },
        other => other,
    }
}

/// The dependencies with one's transfer totals replaced.
pub open spec fn with_transfer(
    deps: Seq<DepState>,
    id: DepId,
    change: spec_fn(Bytes) -> Bytes,
) -> Seq<DepState> {
    if id < deps.len() {
        with_stage(deps, id, with_bytes(deps[id as int].stage, change))
    } else {
        deps
    }
}

/// Two states that differ in their dependencies alone.
pub open spec fn same_run(a: RunState, b: RunState) -> bool {
    a.total == b.total && a.done == b.done && a.phase == b.phase && a.rows == b.rows && a.slots
        == b.slots && a.bytes == b.bytes
}

/// The sum of two counts, which stops at the largest number there is.
fn add_bytes(a: u64, b: u64) -> (r: u64)
    ensures
        r == capped_sum(a as int, b as int, u64::MAX as int),
{
    if a > u64::MAX - b {
        u64::MAX
    } else {
        a + b
    }
}

/// One more, which stops at the largest number there is.
fn one_more(a: usize) -> (r: usize)
    ensures
        r == capped_sum(a as int, 1, usize::MAX as int),
{
    if a == usize::MAX {
        a
    } else {
        a + 1
    }
}

impl RunState {
    /// Replaces one dependency's stage.
    pub fn set_stage(&mut self, id: DepId, stage: Stage)
        ensures
            final(self).deps@ == with_stage(old(self).deps@, id, stage),
            same_run(*final(self), *old(self)),
    {
        if let Some(slot) = self.stage_mut(id) {
            *slot = stage;
        }
    }

    /// Says what one dependency is doing, keeping any transfer already in flight.
    pub fn set_status(&mut self, id: DepId, label: String)
        ensures
            final(self).deps@ == if id < old(self).deps@.len() {
                with_stage(old(self).deps@, id, active_with(old(self).deps@[id as int].stage, label))
            } else {
                old(self).deps@
            },
            same_run(*final(self), *old(self)),
    {
        if let Some(slot) = self.stage_mut(id) {
            let bytes = match &*slot {
                Stage::Active { bytes, .. } => *bytes,
                _ => Bytes::default(),
            };
            *slot = Stage::Active { label, bytes };
        }
    }

    /// Counts one more transfer of one dependency.
    pub fn begin_transfer(&mut self, id: DepId, total: Option<u64>)
        ensures
            final(self).deps@ == with_transfer(
                old(self).deps@,
                id,
                |bytes: Bytes| begun(bytes, total),
            ),
            same_run(*final(self), *old(self)),
    {
        if let Some(slot) = self.stage_mut(id) {
            if let Stage::Active { bytes, .. } = slot {
                let active: usize = one_more(bytes.active);
                match total {
                    Some(total) => {
                        let expected: u64 = add_bytes(bytes.expected, total);
                        *bytes = Bytes {
                            active,
                            done: bytes.done,
                            expected,
                            unmeasured: bytes.unmeasured,
                        };
                    },
                    None => {
                        let unmeasured: usize = one_more(bytes.unmeasured);
                        *bytes = Bytes {
                            active,
                            done: bytes.done,
                            expected: bytes.expected,
                            unmeasured,
                        };
                    },
                }
            }
        }
        assert(self.deps@ =~= with_transfer(
            old(self).deps@,
            id,
            |bytes: Bytes| begun(bytes, total),
        ));
    }

    /// Counts bytes that just arrived, against one dependency and the run.
    pub fn advance(&mut self, id: DepId, amount: u64)
        ensures
            final(self).deps@ == with_transfer(
                old(self).deps@,
                id,
                |bytes: Bytes|
                    Bytes {
                        done: capped_sum(bytes.done as int, amount as int, u64::MAX as int) as u64,
                        ..bytes
                    },
            ),
            final(self).bytes == capped_sum(
                old(self).bytes as int,
                amount as int,
                u64::MAX as int,
            ),
            final(self).total == old(self).total,
            final(self).done == old(self).done,
            final(self).phase == old(self).phase,
            final(self).rows == old(self).rows,
            final(self).slots == old(self).slots,
    {
        let bytes: u64 = add_bytes(self.bytes, amount);
        self.bytes = bytes;
        if let Some(slot) = self.stage_mut(id) {
            if let Stage::Active { bytes, .. } = slot {
                let done: u64 = add_bytes(bytes.done, amount);
                *bytes = Bytes {
                    active: bytes.active,
                    done,
                    expected: bytes.expected,
                    unmeasured: bytes.unmeasured,
                };
            }
        }
        assert(self.deps@ =~= with_transfer(
            old(self).deps@,
            id,
            |bytes: Bytes|
                Bytes {
                    done: capped_sum(bytes.done as int, amount as int, u64::MAX as int) as u64,
                    ..bytes
                },
        ));
    }

    /// Notes that one transfer ended, clearing the totals once they all have.
    pub fn end_transfer(&mut self, id: DepId)
        ensures
            final(self).deps@ == with_transfer(old(self).deps@, id, |bytes: Bytes| ended(bytes)),
            same_run(*final(self), *old(self)),
    {
        if let Some(slot) = self.stage_mut(id) {
            if let Stage::Active { bytes, .. } = slot {
                *bytes = if bytes.active <= 1 {
                    Bytes::default()
                } else {
                    Bytes {
                        active: bytes.active - 1,
                        done: bytes.done,
                        expected: bytes.expected,
                        unmeasured: bytes.unmeasured,
                    }
                };
            }
        }
        assert(self.deps@ =~= with_transfer(old(self).deps@, id, |bytes: Bytes| ended(bytes)));
    }

    /// Counts one more settled dependency.
    pub fn count_done(&mut self)
        ensures
            final(self).done == capped_sum(old(self).done as int, 1, usize::MAX as int),
            final(self).deps == old(self).deps,
            final(self).total == old(self).total,
            final(self).phase == old(self).phase,
            final(self).rows == old(self).rows,
            final(self).slots == old(self).slots,
            final(self).bytes == old(self).bytes,
    {
        let done: usize = one_more(self.done);
        self.done = done;
    }
}

/// Transfers that begin together clear together: once as many have ended as were begun on an idle
/// row, nothing is left of their totals.
pub proof fn the_last_transfer_clears_the_totals(bytes: Bytes, total: Option<u64>)
    requires
        bytes.active == 0,
    ensures
        ended(begun(bytes, total)) == (Bytes { active: 0, done: 0, expected: 0, unmeasured: 0 }),
{
}

/// A transfer of unknown length makes the share of the whole row unknown.
pub proof fn an_unmeasured_transfer_hides_the_share(bytes: Bytes)
    ensures
        begun(bytes, None).fraction_spec() is None,
{
}

/// Who needs a row most: what is being committed, then what is downloading, then what waits, then what
/// is done. What has not begun, or has nothing to say, needs none.
pub proof fn committing_needs_a_row_most(
    committing: Stage,
    active: Stage,
    waiting: Stage,
    done: Stage,
    other: Stage,
)
    requires
        committing is Committing,
        active is Active,
        waiting is Waiting,
        done is Done,
        other is Queued || other is Gone,
    ensures
        committing.rank() is Some && active.rank() is Some && waiting.rank() is Some && done.rank()
            is Some && other.rank() is None,
        committing.rank()->0 < active.rank()->0 && active.rank()->0 < waiting.rank()->0
            && waiting.rank()->0 < done.rank()->0 && done.rank()->0 < RANKS,
{
}

/// A stage that is replaced is the only one: the other dependencies stay as they are, and the name
/// stays too.
pub proof fn a_stage_is_replaced_alone(deps: Seq<DepState>, id: DepId, stage: Stage, i: int)
    requires
        0 <= i < deps.len(),
    ensures
        with_stage(deps, id, stage).len() == deps.len(),
        i != id ==> with_stage(deps, id, stage)[i] == deps[i],
        i == id ==> with_stage(deps, id, stage)[i].stage == stage && with_stage(deps, id, stage)[
            i
        ].name == deps[i].name,
{
}

/// A transfer that begins counts once, and adds what it is expected to bring; one of unknown length
/// adds to those that cannot be measured. Nothing has arrived yet.
pub proof fn a_transfer_that_begins_counts_once(bytes: Bytes, total: Option<u64>)
    requires
        bytes.active < usize::MAX,
        bytes.unmeasured < usize::MAX,
        total is Some ==> bytes.expected + total->0 <= u64::MAX,
    ensures
        begun(bytes, total).active == bytes.active + 1,
        begun(bytes, total).done == bytes.done,
        total is Some ==> begun(bytes, total).expected == bytes.expected + total->0 && begun(
            bytes,
            total,
        ).unmeasured == bytes.unmeasured,
        total is None ==> begun(bytes, total).expected == bytes.expected && begun(
            bytes,
            total,
        ).unmeasured == bytes.unmeasured + 1,
        bytes.active > 0 ==> ended(begun(bytes, total)).active == bytes.active && ended(
            begun(bytes, total),
        ).done == bytes.done,
{
}

/// The share of a transfer never exceeds the whole, and is what has arrived of what was promised; it
/// is known exactly where something is promised and nothing is unmeasured.
pub proof fn a_share_is_of_what_was_promised(bytes: Bytes)
    ensures
        bytes.fraction_spec() is Some <==> bytes.unmeasured == 0 && bytes.expected > 0,
        bytes.fraction_spec() matches Some((n, d)) ==> d == bytes.expected && n <= d && (bytes.done
            <= bytes.expected ==> n == bytes.done) && (bytes.done > bytes.expected ==> n == d),
{
}

/// The share of a run is what has settled of all there is, and never more than all.
pub proof fn a_run_is_as_far_as_it_has_settled(state: RunState)
    ensures
        ({
            let (n, d) = state.fraction_spec();
            &&& 0 <= n <= d && d > 0
            &&& state.total > 0 ==> d == state.total
            &&& state.total > 0 && state.done <= state.total ==> n == state.done
            &&& state.total == 0 ==> n == 0
        }),
{
}

/// A rate is the bytes in a whole second, rounded down; there is none before a moment has passed or a
/// byte has come.
pub proof fn a_rate_is_bytes_in_a_second(state: RunState, elapsed: int)
    ensures
        state.bytes == 0 || elapsed <= 50_000_000 ==> state.rate_spec(elapsed) is None,
        state.bytes > 0 && elapsed > 50_000_000 ==> (state.rate_spec(elapsed) matches Some(rate)
            && rate * elapsed <= state.bytes * 1_000_000_000 && (rate < u64::MAX ==> state.bytes
            * 1_000_000_000 < (rate + 1) * elapsed)),
{
    if state.bytes > 0 && elapsed > 50_000_000 {
        let p = state.bytes * 1_000_000_000;
        let q = p / elapsed;
        assert(q * elapsed <= p < (q + 1) * elapsed) by {
            vstd::arithmetic::div_mod::lemma_fundamental_div_mod(p, elapsed);
            vstd::arithmetic::div_mod::lemma_mod_bound(p, elapsed);
            assert(elapsed * q == q * elapsed) by (nonlinear_arith);
            assert((q + 1) * elapsed == q * elapsed + elapsed) by (nonlinear_arith);
        }
        let rate = state.rate_spec(elapsed)->0;
        if q > u64::MAX {
            assert(rate * elapsed <= q * elapsed) by (nonlinear_arith)
                requires
                    rate <= q,
                    elapsed > 0,
            ;
        }
    }
}

/// What waits and what is queued is counted one by one, whatever row it has.
pub proof fn each_dependency_is_counted_once(deps: Seq<DepState>, n: int)
    requires
        0 <= n < deps.len(),
    ensures
        deps[n].stage is Waiting ==> waiting_count(deps, n + 1) == waiting_count(deps, n) + 1
            && queued_count(deps, n + 1) == queued_count(deps, n),
        deps[n].stage is Queued ==> queued_count(deps, n + 1) == queued_count(deps, n) + 1
            && waiting_count(deps, n + 1) == waiting_count(deps, n),
        !(deps[n].stage is Waiting) && !(deps[n].stage is Queued) ==> queued_count(deps, n + 1)
            == queued_count(deps, n) && waiting_count(deps, n + 1) == waiting_count(deps, n),
        waiting_count(deps, 0) == 0 && queued_count(deps, 0) == 0,
{
}

/// A row changes what it says and keeps the transfer it has; one without a transfer starts anew.
pub proof fn a_label_keeps_the_transfer(stage: Stage, label: String)
    ensures
        active_with(stage, label) matches Stage::Active { label: said, bytes } && said == label
            && match stage {
            Stage::Active { bytes: held, .. } => bytes == held,
            _ => bytes.active == 0 && bytes.done == 0 && bytes.expected == 0 && bytes.unmeasured
                == 0,
        },
{
}

} // verus!
