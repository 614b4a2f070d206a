//! Which dependency is on which row, and how far it has got.

use vendorfiles::progress::state::{Bytes, Counts, Outcome, RunState, Stage};

fn done() -> Stage {
    Stage::Done {
        outcome: Outcome::Changed,
        detail: "installed v1.0.0".to_owned(),
    }
}

fn downloading(bytes: Bytes) -> Stage {
    Stage::Active {
        label: "downloading".to_owned(),
        bytes,
    }
}

fn state(stages: Vec<Stage>) -> RunState {
    rows(stages, 3)
}

fn rows(stages: Vec<Stage>, rows: usize) -> RunState {
    let mut state = RunState {
        total: stages.len(),
        ..RunState::default()
    };
    state.resize(rows);
    for (index, stage) in stages.into_iter().enumerate() {
        let id = state.register(&format!("dep-{index}"));
        *state.stage_mut(id).unwrap() = stage;
    }
    state.assign();
    state
}

/// The dependencies on the rows, ignoring which row each is on.
fn occupants(state: &RunState) -> Vec<usize> {
    let mut ids: Vec<usize> = state.selection().iter().flatten().copied().collect();
    ids.sort_unstable();
    ids
}

#[test]
fn a_ratio_needs_every_transfer_to_have_advertised_a_size() {
    // Half of it has come.
    assert_eq!(
        Bytes {
            active: 1,
            done: 512,
            expected: 1024,
            unmeasured: 0
        }
        .fraction(),
        Some((512, 1024))
    );
    assert_eq!(
        Bytes {
            active: 2,
            done: 512,
            expected: 1024,
            unmeasured: 1
        }
        .fraction(),
        None
    );
    assert_eq!(Bytes::default().fraction(), None);
}

#[test]
fn a_ratio_cannot_exceed_one_even_if_a_server_lied_about_the_length() {
    let bytes = Bytes {
        active: 1,
        done: 4096,
        expected: 1024,
        unmeasured: 0,
    };
    assert_eq!(bytes.fraction(), Some((1024, 1024)));
}

#[test]
fn rows_go_to_the_work_that_matters() {
    // Five dependencies want a row and only three exist. The committing one and the two
    // downloading ones win; the two merely waiting do not.
    let state = state(vec![
        Stage::Waiting,
        downloading(Bytes::default()),
        Stage::Waiting,
        Stage::Committing {
            label: "writing lockfile".to_owned(),
        },
        downloading(Bytes::default()),
    ]);
    assert_eq!(occupants(&state), vec![1, 3, 4]);
}

#[test]
fn the_first_rows_to_fill_do_so_in_config_order() {
    let state = rows(
        vec![
            downloading(Bytes::default()),
            downloading(Bytes::default()),
            downloading(Bytes::default()),
        ],
        3,
    );
    assert_eq!(state.selection(), [Some(0), Some(1), Some(2)]);
}

#[test]
fn a_dependency_keeps_its_row_while_it_still_has_something_to_show() {
    // The heart of it: the row a dependency sits on must not move because some *other*
    // dependency finished. That movement is the bug this scheduler exists to prevent.
    let mut state = rows(
        vec![
            downloading(Bytes::default()),
            downloading(Bytes::default()),
            downloading(Bytes::default()),
        ],
        3,
    );
    assert_eq!(state.selection(), [Some(0), Some(1), Some(2)]);

    // The first one finishes. The other two must stay exactly where they are.
    *state.stage_mut(0).unwrap() = Stage::Gone;
    state.assign();
    assert_eq!(state.selection(), [None, Some(1), Some(2)]);

    // A newcomer takes the freed row rather than everything sliding up.
    let id = state.register("latecomer");
    *state.stage_mut(id).unwrap() = downloading(Bytes::default());
    state.assign();
    assert_eq!(state.selection(), [Some(id), Some(1), Some(2)]);
}

#[test]
fn a_dependency_that_loses_its_row_is_on_none() {
    let mut state = state(vec![Stage::Waiting, Stage::Waiting, Stage::Waiting, Stage::Queued]);
    let before = state.selection().to_vec();
    *state.stage_mut(3).unwrap() = downloading(Bytes::default());
    state.assign();
    let after = state.selection();
    let lost: Vec<_> = (0..3).filter(|row| after[*row] != before[*row]).collect();
    assert_eq!(lost.len(), 1);
    assert_eq!(after[lost[0]], Some(3));
    assert!(!after.contains(&before[lost[0]]));
}

#[test]
fn assigning_again_changes_nothing_on_its_own() {
    let mut state = state(vec![
        downloading(Bytes::default()),
        Stage::Waiting,
        Stage::Waiting,
    ]);
    let before = state.selection().to_vec();
    state.assign();
    state.assign();
    assert_eq!(state.selection(), before.as_slice());
}

#[test]
fn a_backlog_of_finished_downloads_never_hides_a_running_one() {
    // Everything early in the file has downloaded and is waiting its turn, and every row is
    // taken. The only active transfer is last, and it must still take a row from a waiter.
    let mut stages = vec![Stage::Waiting; 8];
    stages.push(downloading(Bytes::default()));
    let state = state(stages);
    assert!(
        occupants(&state).contains(&8),
        "the running download must take a row from a merely waiting one"
    );
}

#[test]
fn a_committing_dependency_outranks_a_downloading_one_for_the_last_row() {
    let mut stages = vec![downloading(Bytes::default()); 3];
    stages.push(Stage::Committing {
        label: "writing lockfile".to_owned(),
    });
    let state = state(stages);
    assert!(
        occupants(&state).contains(&3),
        "the head of the commit queue must be visible"
    );
}

#[test]
fn settled_and_unstarted_dependencies_take_no_rows() {
    let state = state(vec![Stage::Gone, Stage::Queued, Stage::Waiting]);
    assert_eq!(occupants(&state), vec![2]);
}

#[test]
fn a_finished_dependency_keeps_its_row_until_something_needs_it() {
    // Reporting in place is the point: a completed dependency stays on its own row rather
    // than being pushed above the region, which moved the region down the screen.
    let mut state = rows(vec![downloading(Bytes::default()); 2], 2);
    assert_eq!(state.selection(), [Some(0), Some(1)]);

    *state.stage_mut(0).unwrap() = done();
    state.assign();
    assert_eq!(
        state.selection(),
        [Some(0), Some(1)],
        "a finished dependency holds its row"
    );

    // Now real work arrives and both rows are taken. The finished one yields, not the live
    // one.
    let id = state.register("newcomer");
    *state.stage_mut(id).unwrap() = downloading(Bytes::default());
    state.assign();
    assert_eq!(state.selection(), [Some(id), Some(1)]);
}

#[test]
fn the_oldest_result_is_the_one_that_makes_way() {
    // Commits are ordered, so the earliest dependency in the config finished longest ago.
    // Evicting that one keeps the most recent results on screen.
    let mut state = rows(vec![done(), done(), done()], 3);
    assert_eq!(state.selection(), [Some(0), Some(1), Some(2)]);
    let id = state.register("newcomer");
    *state.stage_mut(id).unwrap() = downloading(Bytes::default());
    state.assign();
    assert_eq!(state.selection(), [Some(id), Some(1), Some(2)]);
}

#[test]
fn a_run_with_no_rows_selects_nothing() {
    // `outdated` never downloads, so it reserves no rows and shows the summary alone.
    let mut state = state(vec![Stage::Waiting, Stage::Waiting]);
    state.resize(0);
    state.assign();
    assert!(state.selection().is_empty());
}

#[test]
fn no_dependency_ever_occupies_two_rows() {
    let mut state = rows(vec![downloading(Bytes::default()); 4], 8);
    for _ in 0..5 {
        state.assign();
    }
    let ids = occupants(&state);
    let mut unique = ids.clone();
    unique.dedup();
    assert_eq!(ids, unique, "a dependency was shown twice: {ids:?}");
}

#[test]
fn the_footer_counts_everything_in_flight_whether_or_not_it_got_a_row() {
    let state = state(vec![
        Stage::Waiting,
        Stage::Waiting,
        Stage::Queued,
        Stage::Gone,
        downloading(Bytes::default()),
    ]);
    let counts = state.counts();
    assert_eq!(counts.waiting, 2);
    assert_eq!(counts.queued, 1);
}

#[test]
fn the_summary_ratio_survives_an_empty_run() {
    let state = RunState::default();
    let (done, total) = state.fraction();
    assert_eq!(done, 0);
    assert!(total > 0);
    assert_eq!(state.counts(), Counts::default());
}

#[test]
fn transfers_add_up_and_clear_together() {
    let mut state = rows(vec![downloading(Bytes::default())], 1);
    state.begin_transfer(0, Some(100));
    state.begin_transfer(0, None);
    state.advance(0, 30);
    match &state.deps[0].stage {
        Stage::Active { bytes, .. } => {
            assert_eq!(
                *bytes,
                Bytes {
                    active: 2,
                    done: 30,
                    expected: 100,
                    unmeasured: 1
                }
            );
            assert!(bytes.transferring());
        }
        other => panic!("{other:?}"),
    }
    state.end_transfer(0);
    state.end_transfer(0);
    assert_eq!(state.deps[0].stage, downloading(Bytes::default()));
    assert_eq!(state.bytes, 30);
}

#[test]
fn the_rate_is_bytes_a_second() {
    let mut state = RunState::default();
    state.bytes = 3_000;
    assert_eq!(state.rate(2_000_000_000), Some(1_500));
    assert_eq!(state.rate(0), None);
}

#[test]
fn a_stage_that_wants_no_row_has_no_rank() {
    assert_eq!(Stage::Queued.priority(), None);
    assert_eq!(Stage::Gone.priority(), None);
    assert!(done().priority() > Stage::Waiting.priority());
}
