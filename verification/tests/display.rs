//! What the region shows, and what is left on the terminal once it closes.

use vendorfiles::progress::ansi::{apply, basic, bright, to_line, to_lines, Color, Span, Style};
use vendorfiles::progress::state::{Bytes, Outcome, RunState, Stage, MARK_WIDTH};
use vendorfiles::progress::view::{
    bar, clip, colour_of, fit, height, human, rows_that_fit, spinner, stats_line,
    summary_line, tenths, transferred, unit_for, view, worker_line, Frame, BAR_MAX, NAME_WIDTH,
    REGION_WIDTH,
};
use vendorfiles::progress::{held_line, Dependency, Reporter, Said};
use vendorfiles::ui;

/// A name as the column of names shows it.
fn in_column(name: &str) -> String {
    vendorfiles::progress::view::column(name)
}

/// The visible text of a line.
fn text(line: &[Span]) -> String {
    line.iter().map(|span| span.content.as_str()).collect()
}

#[test]
fn every_colour_helper_round_trips() {
    for (painted, colour) in [
        (ui::green("hello"), Color::Green),
        (ui::red("hello"), Color::Red),
        (ui::yellow("hello"), Color::Yellow),
        (ui::cyan("hello"), Color::Cyan),
    ] {
        let line = to_line(&painted);
        assert_eq!(text(&line), "hello");
        assert_eq!(line[0].style.fg, Some(colour));
    }
}

#[test]
fn a_line_with_several_colours_keeps_each_one() {
    let text_in = format!("{} → {}", ui::red("v1"), ui::green("v2"));
    let line = to_line(&text_in);
    assert_eq!(text(&line), "v1 → v2");
    let coloured: Vec<Option<Color>> = line.iter().map(|span| span.style.fg).collect();
    assert!(coloured.contains(&Some(Color::Red)));
    assert!(coloured.contains(&Some(Color::Green)));
}

#[test]
fn plain_text_survives_untouched() {
    let line = to_line("INFO: Saved vendor/fzf/fzf.exe");
    assert_eq!(text(&line), "INFO: Saved vendor/fzf/fzf.exe");
    assert_eq!(line[0].style, Style::new());
}

#[test]
fn a_reset_ends_the_colour_it_was_given() {
    let line = to_line("\u{1b}[32mgreen\u{1b}[0mplain");
    assert_eq!(line[0].style.fg, Some(Color::Green));
    assert_eq!(line[1].style.fg, None);
}

#[test]
fn a_sequence_we_never_write_is_dropped_rather_than_shown() {
    // A cursor move, not a colour: it must not appear as literal text in the frame.
    let line = to_line("before\u{1b}[2Aafter");
    assert_eq!(text(&line), "beforeafter");
}

#[test]
fn a_sequence_is_dropped_as_a_whole() {
    let shown = |text: &str| -> String {
        to_line(text).into_iter().map(|span| span.content).collect()
    };
    assert_eq!(shown("\u{1b}[?25lhi"), "hi");
    assert_eq!(shown("a\u{1b}[1 qb\u{1b}[>4;2mc"), "abc");
    assert_eq!(shown("a\u{1b}[31\u{1b}[2Kb"), "ab");
    assert_eq!(shown("a\u{1b}[12"), "a");
}

#[test]
fn a_line_reads_as_though_a_foreign_sequence_were_not_there() {
    for foreign in ["\u{1b}[2A", "\u{1b}[?1m", "\u{1b}[0 m", "\u{1b}[38:5:1m", "\u{1b}[~"] {
        for after in ["", "plain", "\u{1b}[31mred\u{1b}[0m", "\u{1b}[1"] {
            assert_eq!(
                to_line(&format!("before{foreign}{after}")),
                to_line(&format!("before{after}"))
            );
        }
    }
}

#[test]
fn multiple_lines_become_multiple_rows() {
    assert_eq!(to_lines("one\ntwo\nthree").len(), 3);
    assert_eq!(to_lines("").len(), 1);
}

#[test]
fn the_parameters_of_a_colour_are_read_one_by_one() {
    let plain = Style::new();
    assert_eq!(
        apply(plain, "1;31"),
        Style {
            fg: Some(Color::Red),
            bold: true,
            dim: false
        }
    );
    assert_eq!(apply(plain, "92").fg, Some(Color::LightGreen));
    assert!(apply(plain, "2").dim);
    assert_eq!(apply(apply(plain, "31"), "39").fg, Some(Color::Red));
    assert_eq!(apply(apply(plain, "31"), "0").fg, None);
    assert_eq!(apply(apply(plain, "1;31"), ""), plain);
    assert_eq!(basic(6), Color::Cyan);
    assert_eq!(bright(1), Color::LightRed);
}

#[test]
fn a_hidden_reporter_animates_nothing() {
    assert!(!Reporter::new(false).animated);
    assert!(!Reporter::detect(false, false).animated);
    assert!(!Reporter::detect(true, true).animated);
    assert!(Reporter::detect(true, false).animated);
}

#[test]
fn outcome_lines_line_up_with_the_rows_above_them() {
    assert_eq!(in_column("fzf").chars().count(), NAME_WIDTH);
    assert_eq!(
        in_column("bitwarden-secrets-cli-x").chars().count(),
        NAME_WIDTH
    );
    assert!(in_column("bitwarden-secrets-cli-x").ends_with('…'));
}

#[test]
fn a_hidden_dependency_withholds_its_lines_until_it_finishes() {
    let mut reporter = Reporter::new(false);
    assert!(!reporter.begin(1));
    let mut dependency = reporter.dependency("fzf");
    dependency.saved(&mut reporter.state, false, "vendor/fzf/LICENSE");
    dependency.saved(&mut reporter.state, false, "vendor/fzf/fzf.exe");
    assert_eq!(dependency.pending.len(), 2);
    let settled = dependency.installed(&mut reporter.state, "0.38.0");
    assert_eq!(settled.info.len(), 2);
    assert!(settled.info[0].contains("vendor/fzf/LICENSE"), "{settled:?}");
    assert_eq!(
        settled.said,
        Some(Said::Success("Installed fzf 0.38.0".to_owned()))
    );
    assert!(dependency.pending.is_empty());
    assert!(reporter.end().is_empty());
}

#[test]
fn dependencies_are_registered_in_config_order() {
    let mut reporter = Reporter::new(false);
    reporter.begin(3);
    let first = reporter.dependency("aaa");
    let second = reporter.dependency("bbb");
    let third = reporter.dependency("ccc");
    assert_eq!((first.id, second.id, third.id), (0, 1, 2));
    let names: Vec<&str> = reporter.state.deps.iter().map(|dep| dep.name.as_str()).collect();
    assert_eq!(names, ["aaa", "bbb", "ccc"]);
}

/// The transfer totals of a dependency that should be mid-download.
fn bytes_of(state: &RunState, id: usize) -> Bytes {
    match &state.deps[id].stage {
        Stage::Active { bytes, .. } => *bytes,
        other => panic!("expected an active stage, found {other:?}"),
    }
}

#[test]
fn concurrent_transfers_share_one_row_and_clear_together() {
    let mut reporter = Reporter::new(false);
    reporter.begin(1);
    let dependency = reporter.dependency("Coloris");
    let state = &mut reporter.state;
    dependency.status(state, "downloading".to_owned());
    dependency.transfer(state, Some(2048));
    dependency.transfer(state, Some(1024));
    dependency.advance(state, 512);
    dependency.advance(state, 256);
    let bytes = bytes_of(state, 0);
    assert_eq!(bytes.active, 2);
    assert_eq!(bytes.done, 768);
    assert_eq!(bytes.expected, 3072);
    assert_eq!(state.bytes, 768, "the run total counts every transfer");
    dependency.transfer_done(state);
    dependency.transfer_done(state);
    assert_eq!(bytes_of(state, 0), Bytes::default(), "totals reset together");
}

#[test]
fn an_unmeasured_transfer_drops_the_percentage() {
    let mut reporter = Reporter::new(false);
    reporter.begin(1);
    let mut dependency = reporter.dependency("fzf");
    let state = &mut reporter.state;
    dependency.status(state, "downloading".to_owned());
    dependency.transfer(state, Some(4096));
    dependency.transfer(state, None);
    dependency.advance(state, 128);
    dependency.advance(state, 128);
    assert_eq!(bytes_of(state, 0).fraction(), None);
    dependency.transfer_done(state);
    dependency.transfer_done(state);
    dependency.up_to_date(state);
}

#[test]
fn a_dependency_waiting_its_turn_keeps_its_place() {
    let mut reporter = Reporter::new(false);
    reporter.begin(1);
    let dependency = reporter.dependency("yamlfmt");
    dependency.status(&mut reporter.state, "downloading".to_owned());
    dependency.waiting(&mut reporter.state);
    let stage = &reporter.state.deps[0].stage;
    assert_eq!(*stage, Stage::Waiting);
    assert_eq!(
        stage.priority(),
        Some(2),
        "it still wants a row, behind anything actually working"
    );
}

#[test]
fn finishing_counts_towards_the_summary_and_frees_the_row() {
    // Nothing is animating, so a settled dependency has printed its line already and wants
    // no row at all.
    let mut reporter = Reporter::new(false);
    reporter.begin(2);
    let mut first = reporter.dependency("aaa");
    let mut second = reporter.dependency("bbb");
    first.installed(&mut reporter.state, "1.0.0");
    second.finish_quietly(&mut reporter.state);
    let state = &reporter.state;
    assert_eq!(state.done, 2);
    assert!(state.deps.iter().all(|dep| dep.stage == Stage::Gone));
    assert!(state.selection().is_empty());
}

#[test]
fn an_animated_run_reports_in_place_and_keeps_the_lines_for_the_end() {
    // The region must not be pushed down the screen once per dependency, so outcome lines
    // are held rather than printed as they happen - and the dependency reports on its own
    // row instead.
    let mut reporter = Reporter::new(true);
    let mut first = reporter.dependency("aaa");
    let mut second = reporter.dependency("bbb");
    let settled = first.installed(&mut reporter.state, "1.0.0");
    assert_eq!(settled.said, None);
    reporter.hold(settled.held.unwrap());
    let settled = second.up_to_date(&mut reporter.state);
    reporter.hold(settled.held.unwrap());
    let installed = &reporter.state.deps[0].stage;
    assert!(
        matches!(
            installed,
            Stage::Done {
                outcome: Outcome::Changed,
                ..
            }
        ),
        "{installed:?}"
    );
    let unchanged = &reporter.state.deps[1].stage;
    assert!(
        matches!(
            unchanged,
            Stage::Done {
                outcome: Outcome::Unchanged,
                ..
            }
        ),
        "{unchanged:?}"
    );
    let held = reporter.end();
    assert_eq!(held.len(), 2, "both lines are waiting for the end");
    assert!(held[0].contains("aaa") && held[0].contains("installed 1.0.0"));
    assert!(held[1].contains("bbb") && held[1].contains("up to date"));
    assert!(reporter.end().is_empty(), "they are handed out once");
}

#[test]
fn a_failed_dependency_still_releases_what_it_had_done() {
    let mut reporter = Reporter::new(false);
    reporter.begin(1);
    let mut dependency = reporter.dependency("micro");
    dependency.saved(&mut reporter.state, false, "vendor/micro/LICENSE");
    let settled = dependency.failed(
        &mut reporter.state,
        "GitHub rejected the credentials (401 Bad credentials).",
    );
    assert_eq!(settled.info.len(), 1);
    assert!(settled.info[0].contains("vendor/micro/LICENSE"), "{settled:?}");
}

#[test]
fn a_settled_row_says_why_it_failed_and_lines_up_with_the_rest() {
    let mut reporter = Reporter::new(true);
    let mut failed = reporter.dependency("ls-interactive(lsi)");
    let settled = failed.failed(
        &mut reporter.state,
        "GitHub rejected the credentials (401 Bad credentials).",
    );
    reporter.hold(settled.held.unwrap());
    let mut installed = reporter.dependency("fd");
    let settled = installed.installed(&mut reporter.state, "v10.5.0");
    reporter.hold(settled.held.unwrap());

    let held = reporter.end();
    // The reason, rather than the bare word the row used to carry.
    assert!(
        held[0].contains("GitHub rejected the credentials"),
        "{:?}",
        held[0]
    );
    assert!(!held[0].contains("failed"), "{:?}", held[0]);
    // The failure mark paints itself, so no escape is spent colouring it; the others get one.
    assert!(held[0].contains('\u{274c}'), "{:?}", held[0]);
    assert!(!held[0].contains('\u{1b}'), "{:?}", held[0]);
    assert!(held[1].contains('\u{1b}'), "{:?}", held[1]);
}

#[test]
fn an_update_names_both_versions() {
    let mut reporter = Reporter::new(false);
    let mut dependency = reporter.dependency("fd");
    let settled = dependency.updated(&mut reporter.state, "v1", "v2");
    let Some(Said::Success(line)) = settled.said else {
        panic!("{:?}", settled.said);
    };
    assert!(line.contains("fd") && line.contains("v1") && line.contains("v2"), "{line}");
    let mut gone = reporter.dependency("old");
    let settled = gone.uninstalled(&mut reporter.state);
    let Some(Said::Success(line)) = settled.said else {
        panic!("{:?}", settled.said);
    };
    assert!(line.contains("old"), "{line}");
}

#[test]
fn rows_are_reserved_as_they_fit() {
    let mut reporter = Reporter::new(true);
    assert!(reporter.begin(4));
    assert_eq!(reporter.reserve_rows(4, Some(8)), rows_that_fit(8).clamp(1, 4));
    assert_eq!(reporter.state.selection().len(), reporter.state.rows);
    assert_eq!(fit(4, None), 4);
    assert_eq!(fit(4, Some(2)), 1);
    assert_eq!(fit(0, Some(40)), 0);
    reporter.summary("installing".to_owned());
    assert_eq!(reporter.state.phase, "installing");
}

fn with(stages: Vec<Stage>, rows: usize) -> RunState {
    let mut state = RunState {
        total: stages.len(),
        phase: "installing".to_owned(),
        ..RunState::default()
    };
    state.resize(rows);
    for (index, stage) in stages.into_iter().enumerate() {
        let id = state.register(&format!("dep-{index}"));
        *state.stage_mut(id).unwrap() = stage;
    }
    state.assign();
    state
}

fn frame_of(state: &RunState, width: u16) -> Frame {
    view(state, 2, width, height(state.rows), 1_000_000_000).expect("room to draw")
}

/// The text of each line inside the border, which is what a reader of the terminal actually sees:
/// the summary, the rows, and below a rule the figures of the run.
fn render(state: &RunState, width: u16) -> Vec<String> {
    frame_of(state, width)
        .lines
        .iter()
        .map(|line| text(line).trim_end().to_owned())
        .collect()
}

/// How many cells stand before `name` on a line.
fn column_of(line: &str, name: &str) -> usize {
    let at = line.find(name).expect("the name is on the row");
    line[..at]
        .chars()
        .map(|c| if c == '\u{274c}' { 2 } else { 1 })
        .sum()
}

#[test]
fn the_height_is_three_when_there_are_no_worker_rows() {
    assert_eq!(height(0), 3);
    assert_eq!(height(1), 6);
    assert_eq!(height(8), 13);
}

#[test]
fn the_region_never_asks_for_more_lines_than_the_terminal_has() {
    for lines in 3_u16..40 {
        let rows = rows_that_fit(lines);
        if rows > 0 {
            assert!(
                height(rows) + 2 <= lines,
                "{rows} rows need {} of {lines} lines",
                height(rows)
            );
        }
    }
    // A terminal with no room at all asks for no rows, and the caller floors it at one.
    assert_eq!(rows_that_fit(6), 0);
    assert_eq!(rows_that_fit(24), 17);
}

#[test]
fn a_saved_file_is_shown_by_its_name_on_windows_too() {
    let mut reporter = Reporter::new(true);
    reporter.begin(1);
    let mut dependency = reporter.dependency("fzf");
    dependency.saved(&mut reporter.state, true, r"C:\proj\vendor\fzf\fzf.exe");
    match &reporter.state.deps[0].stage {
        Stage::Active { label, .. } => assert_eq!(label, "saved fzf.exe"),
        other => panic!("{other:?}"),
    }
}

#[test]
fn no_row_that_there_is_room_for_is_left_out() {
    for lines in 0_u16..40 {
        for rows in 1_usize..40 {
            assert_eq!(height(rows) + 2 <= lines, rows <= rows_that_fit(lines));
        }
    }
}

#[test]
fn a_run_with_no_downloads_draws_a_three_line_box() {
    let mut state = with(vec![Stage::Queued, Stage::Queued], 0);
    state.done = 2;
    state.phase = "checking for updates".to_owned();
    let frame = render(&state, 60);
    // One line inside the border.
    assert_eq!(frame.len() + 2, 3);
    assert!(frame[0].contains("2/2"), "{:?}", frame[0]);
    assert!(frame[0].contains("checking for updates"), "{:?}", frame[0]);
    // No bytes moved, so no rule and no footer.
    assert_eq!(frame_of(&state, 60).rule, None);
}

#[test]
fn a_transferring_dependency_shows_a_bar_a_percentage_and_its_bytes() {
    let state = with(
        vec![Stage::Active {
            label: "downloading".to_owned(),
            bytes: Bytes {
                active: 1,
                done: 1_258_291,
                expected: 2_097_152,
                unmeasured: 0,
            },
        }],
        1,
    );
    let frame = render(&state, 72);
    let row = &frame[1];
    assert!(row.contains("dep-0"), "{row:?}");
    assert!(row.contains('━') && row.contains('─'), "{row:?}");
    assert!(row.contains("60%"), "{row:?}");
    assert!(row.contains("1.2/2.0 MiB"), "{row:?}");
}

#[test]
fn a_transfer_of_unknown_length_reports_bytes_instead_of_a_percentage() {
    let state = with(
        vec![Stage::Active {
            label: "downloading".to_owned(),
            bytes: Bytes {
                active: 1,
                done: 4096,
                expected: 0,
                unmeasured: 1,
            },
        }],
        1,
    );
    let frame = render(&state, 72);
    assert!(!frame[1].contains('%'), "{:?}", frame[1]);
    assert!(frame[1].contains("4.0 KiB"), "{:?}", frame[1]);
}

#[test]
fn every_line_fits_the_width_exactly_so_nothing_can_wrap() {
    let state = with(
        vec![
            Stage::Active {
                label: "downloading".to_owned(),
                bytes: Bytes {
                    active: 2,
                    done: 900_000_000,
                    expected: 1_000_000_000,
                    unmeasured: 0,
                },
            },
            Stage::Waiting,
            Stage::Committing {
                label: "writing lockfile".to_owned(),
            },
        ],
        3,
    );
    for width in [30_u16, 38, 52, 60, 80, 120, 200] {
        let frame = view(&state, 0, width, height(state.rows), 1_000_000_000).unwrap();
        for (index, line) in frame.lines.iter().enumerate() {
            let line = text(line);
            assert!(
                line.trim_end().chars().count() + 2 <= width as usize,
                "width {width}, line {index}: {line:?}"
            );
        }
    }
}

#[test]
fn the_rule_joins_the_frame() {
    let state = with(vec![Stage::Waiting], 1);
    let frame = frame_of(&state, 40);
    let rule = &frame.lines[frame.rule.unwrap()];
    assert_eq!(text(rule), "─".repeat(38));
}

#[test]
fn the_footer_reports_what_did_not_fit() {
    let mut state = with(
        vec![Stage::Waiting, Stage::Waiting, Stage::Queued, Stage::Queued],
        1,
    );
    state.bytes = 12_000_000;
    let frame = render(&state, 70);
    let counts = frame.last().unwrap();
    assert!(counts.contains("2 waiting"), "{counts:?}");
    assert!(counts.contains("2 queued"), "{counts:?}");
    assert!(counts.contains("11.4 MiB"), "{counts:?}");
}

#[test]
fn a_vacated_row_stays_blank_instead_of_the_rows_below_moving_up() {
    // The renderer must not compact. If the middle dependency finishes, the one under it
    // has to stay where it is - that sliding is what made the display look like it was
    // jumping around.
    let mut state = with(vec![Stage::Waiting, Stage::Waiting, Stage::Waiting], 3);
    assert_eq!(state.selection(), [Some(0), Some(1), Some(2)]);
    *state.stage_mut(1).unwrap() = Stage::Gone;
    state.assign();

    let frame = render(&state, 60);
    assert!(frame[1].contains("dep-0"), "{:?}", frame[1]);
    assert_eq!(
        frame[2], "",
        "the vacated row must be blank: {:?}",
        frame[2]
    );
    assert!(
        frame[3].contains("dep-2"),
        "dep-2 must not have moved up: {:?}",
        frame[3]
    );
}

#[test]
fn a_finished_dependency_reports_its_outcome_on_its_own_row() {
    let state = with(
        vec![
            Stage::Done {
                outcome: Outcome::Changed,
                detail: "installed v1.7.0".to_owned(),
            },
            Stage::Done {
                outcome: Outcome::Unchanged,
                detail: "up to date".to_owned(),
            },
            Stage::Done {
                outcome: Outcome::Failed,
                detail: "GitHub rejected the credentials (401)".to_owned(),
            },
        ],
        3,
    );
    let frame = render(&state, 60);
    assert!(
        frame[1].contains("✔") && frame[1].contains("installed v1.7.0"),
        "{:?}",
        frame[1]
    );
    assert!(
        frame[2].contains("·") && frame[2].contains("up to date"),
        "{:?}",
        frame[2]
    );
    assert!(
        frame[3].contains("❌") && frame[3].contains("GitHub rejected the credentials"),
        "{:?}",
        frame[3]
    );
    // The failure mark is two cells wide and the other two are one, so the mark field is
    // padded: without that, a failed row's name would sit a column right of every other.
    assert_eq!(
        column_of(&frame[1], "dep-0"),
        column_of(&frame[3], "dep-2"),
        "names must line up whatever the mark:\n{:?}\n{:?}",
        frame[1],
        frame[3]
    );
    // Nothing here is working, so nothing here spins.
    assert!(
        !frame[1..4]
            .iter()
            .any(|row| (0..10).any(|tick| row.contains(spinner(tick)))),
        "{:?}",
        &frame[1..4]
    );
}

#[test]
fn a_waiting_row_gets_a_static_mark_rather_than_a_spinner() {
    let state = with(vec![Stage::Waiting], 1);
    let frame = render(&state, 60);
    assert!(frame[1].contains('·'), "{:?}", frame[1]);
    assert!(
        !(0..10).any(|tick| frame[1].contains(spinner(tick))),
        "nothing is moving, so nothing should spin: {:?}",
        frame[1]
    );
}

#[test]
fn bars_are_capped_so_a_wide_terminal_keeps_its_columns_together() {
    let state = with(
        vec![Stage::Active {
            label: "downloading".to_owned(),
            bytes: Bytes {
                active: 1,
                done: 512,
                expected: 1024,
                unmeasured: 0,
            },
        }],
        1,
    );
    // On a very wide terminal the bar must not stretch away from its own numbers.
    let frame = render(&state, 200);
    let row = &frame[1];
    let bar_end = row.rfind('─').or_else(|| row.rfind('━')).unwrap();
    let percent = row.find('%').unwrap();
    assert!(
        percent - bar_end < 8,
        "the percentage drifted away from the bar: {row:?}"
    );
    assert!(
        row.matches('━').count() + row.matches('─').count() + row.matches('╴').count() <= BAR_MAX,
        "the bar exceeded its cap: {row:?}"
    );
    assert_eq!(frame_of(&state, 200).width, REGION_WIDTH);
}

#[test]
fn blank_rows_hold_the_height_when_the_work_drains() {
    // Four rows were reserved and only one dependency is left in flight.
    let state = with(vec![Stage::Waiting, Stage::Gone, Stage::Gone], 4);
    let frame = render(&state, 60);
    assert_eq!(frame.len() + 2, usize::from(height(4)));
}

#[test]
fn a_name_too_long_for_the_column_is_truncated_not_wrapped() {
    let mut state = with(vec![Stage::Waiting], 1);
    state.deps[0].name = "a-really-quite-long-dependency-name".to_owned();
    let frame = render(&state, 60);
    assert!(frame[1].contains('…'), "{:?}", frame[1]);
    assert!(frame[1].contains("waiting to install"), "{:?}", frame[1]);
}

#[test]
fn a_bar_is_exactly_the_width_it_was_given() {
    for (n, d) in [(0, 1), (1, 100), (1, 2), (999, 1000), (1, 1)] {
        let (filled, unfilled) = bar(20, n, d);
        assert_eq!(
            filled.chars().count() + unfilled.chars().count(),
            20,
            "{n} of {d}"
        );
    }
    let (filled, unfilled) = bar(4, 1, 2);
    assert_eq!(filled, "━━");
    assert_eq!(unfilled.chars().count(), 2);
}

#[test]
fn byte_counts_read_the_way_a_person_would_write_them() {
    assert_eq!(human(512), "512 B");
    assert_eq!(human(4096), "4.0 KiB");
    assert_eq!(human(4_404_019), "4.2 MiB");
    assert_eq!(transferred(1_258_291, 2_097_152), "1.2/2.0 MiB");
    // Both figures in the larger unit, so they compare at a glance.
    assert_eq!(transferred(512, 1_048_576), "0.0/1.0 MiB");
}

#[test]
fn a_figure_has_one_digit_behind_the_point() {
    assert_eq!(tenths(3, 2), "1.5");
    assert_eq!(tenths(0, 7), "0.0");
    assert_eq!(unit_for(1024), (1024, "KiB"));
    assert_eq!(unit_for(1 << 30).1, "GiB");
}

#[test]
fn clipping_never_exceeds_the_room_it_was_given() {
    assert_eq!(clip("abc", 10), "abc");
    assert_eq!(clip("abcdefghij", 5), "abcd…");
    assert_eq!(clip("abc", 0), "");
    assert_eq!(clip("abc", 1), "…");
}

#[test]
fn the_name_column_is_a_fixed_width() {
    assert_eq!(in_column("fzf").chars().count(), NAME_WIDTH);
    assert_eq!(
        in_column("bitwarden-secrets-cli-x").chars().count(),
        NAME_WIDTH
    );
}

#[test]
fn a_region_too_small_to_draw_is_left_alone() {
    assert!(view(&with(vec![Stage::Waiting], 1), 0, 4, 2, 0).is_none());
}

#[test]
fn each_line_can_be_asked_for_on_its_own() {
    let mut state = with(vec![Stage::Waiting], 1);
    assert!(text(&summary_line(&state, 60)).contains("0/1"));
    assert!(text(&worker_line("fd", &Stage::Waiting, 0, 60)).contains("fd"));
    state.bytes = 1 << 20;
    let stats = text(&stats_line(&state, 1_000_000_000, 60));
    assert!(stats.contains("1.0 MiB/s"), "{stats}");
    assert_eq!(colour_of(Outcome::Changed), Some(Color::Green));
    assert_eq!(colour_of(Outcome::Failed), None);
    assert_eq!(MARK_WIDTH, 2);
}

#[test]
fn a_held_line_is_the_row_it_stood_on() {
    let line = held_line("fd", Outcome::Changed, "installed v1");
    let shown = text(&to_line(&line));
    assert!(shown.contains(&in_column("fd")), "{shown:?}");
    assert!(shown.ends_with("installed v1"), "{shown:?}");
    let mut state = RunState::default();
    let dependency = Dependency::register(&mut state, "fd", true);
    assert_eq!((dependency.id, dependency.animated), (0, true));
}

#[test]
fn the_tagged_lines_carry_their_colour() {
    assert_eq!(ui::info_line("x"), "\u{1b}[36mINFO: x\u{1b}[0m");
    assert_eq!(ui::success_line("x"), "\u{1b}[32mSUCCESS: x\u{1b}[0m");
    assert_eq!(ui::warning_line("x"), "\u{1b}[33mWARNING: x\u{1b}[0m");
    assert_eq!(ui::error_line("x"), "\u{1b}[31mERROR: x\u{1b}[0m");
}
