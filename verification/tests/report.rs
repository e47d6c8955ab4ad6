use calenpomo::calendar::CalEvent;
use calenpomo::cli::report::{
    day, format_duration, is_focus, summarise, summary_line, week, week_title, ClockSpan, LocalDate, Summary,
    DAYS_PER_WEEK,
};
use calenpomo::sessions::{Session, Stamp};
use calenpomo::timer::{Outcome, Phase};

const NS: i128 = 1_000_000_000;
const HOUR: i128 = 3600 * NS;

/// 2026-08-16T00:00:00Z in nanoseconds.
const SUNDAY: i128 = 1_786_838_400 * NS;

fn event(summary: &str, start: i128, end: i128) -> CalEvent {
    CalEvent {
        id: summary.to_string(),
        uid: summary.to_string(),
        summary: summary.to_string(),
        start,
        end,
        recurring: false,
        all_day: false,
    }
}

fn all_day(summary: &str, start: i128, end: i128) -> CalEvent {
    CalEvent { all_day: true, ..event(summary, start, end) }
}

fn session(kind: Phase, outcome: Outcome, start: i128, actual_sec: u64) -> Session {
    Session {
        id: start.to_string(),
        kind,
        planned_sec: 1500,
        actual_sec,
        started_at: Stamp { at: start, offset_sec: 0 },
        ended_at: Stamp { at: start + actual_sec as i128 * NS, offset_sec: 0 },
        outcome,
        label: None,
    }
}

fn work(start: i128, actual_sec: u64) -> Session {
    session(Phase::Work, Outcome::Completed, start, actual_sec)
}

fn day_window() -> (i128, i128) {
    (SUNDAY, SUNDAY + 24 * HOUR)
}

#[test]
fn durations_read_the_way_the_week_view_writes_them() {
    assert_eq!(format_duration(0), "0m");
    assert_eq!(format_duration(45 * 60), "45m");
    assert_eq!(format_duration(60 * 60), "1h00m");
    assert_eq!(format_duration(8 * 3600 + 15 * 60), "8h15m");
    assert_eq!(format_duration(59), "0m");
    assert_eq!(format_duration(-10), "0m");
}

#[test]
fn a_planned_block_is_clipped_to_the_window() {
    let (from, to) = day_window();
    let events = vec![event("overnight", from - 6 * HOUR, from + 2 * HOUR)];
    assert_eq!(summarise(&events, &vec![], from, to).planned_sec, 2 * 3600);
}

#[test]
fn a_block_entirely_outside_the_window_counts_for_nothing() {
    let (from, to) = day_window();
    let events = vec![event("yesterday", from - 15 * HOUR, from - 14 * HOUR)];
    assert_eq!(summarise(&events, &vec![], from, to).planned_sec, 0);
}

#[test]
fn an_all_day_event_is_left_out_of_the_planned_total() {
    let (from, to) = day_window();
    let events = vec![all_day("休假", from, to), event("写论文", from + 9 * HOUR, from + 10 * HOUR)];
    assert_eq!(summarise(&events, &vec![], from, to).planned_sec, 3600);
}

#[test]
fn a_session_that_started_inside_the_window_is_counted_whole() {
    let (from, to) = day_window();
    let sessions = vec![work(to - 600 * NS, 1500)];
    assert_eq!(summarise(&vec![], &sessions, from, to).focused_sec, 1500);
}

#[test]
fn a_session_that_started_before_the_window_is_left_out_entirely() {
    let (from, to) = day_window();
    let sessions = vec![work(from - 600 * NS, 1500)];
    assert_eq!(summarise(&vec![], &sessions, from, to).focused_sec, 0);
}

#[test]
fn breaks_and_invalidated_segments_do_not_count_as_focus() {
    let (from, to) = day_window();
    let sessions = vec![
        work(from + 9 * HOUR, 1500),
        session(Phase::Break, Outcome::Completed, from + 9 * HOUR + 1800 * NS, 300),
        session(Phase::Work, Outcome::Invalidated, from + 10 * HOUR, 720),
        session(Phase::Work, Outcome::Aborted, from + 11 * HOUR, 480),
    ];
    assert!(is_focus(&sessions[0]));
    assert!(!is_focus(&sessions[1]));
    assert!(!is_focus(&sessions[2]));
    assert!(is_focus(&sessions[3]));
    assert_eq!(summarise(&vec![], &sessions, from, to).focused_sec, 1500 + 480);
}

#[test]
fn a_window_with_no_plan_says_so_in_the_summary_line() {
    let summary = Summary { planned_sec: 0, focused_sec: 0 };
    assert_eq!(summary_line(&summary, "-"), "planned 0m | focused 0m | -");
}

#[test]
fn a_line_drops_the_padding_that_ran_off_its_end() {
    let mut out = String::from("a\n");
    calenpomo::cli::report::line(&mut out, "  padded   ");
    assert_eq!(out, "a\n  padded\n");
}

fn date(year: i32, month: u32, day: u32, weekday: u32) -> LocalDate {
    LocalDate { year, month, day, weekday }
}

fn week_of(first: LocalDate, days: [(i32, u32, u32); 7]) -> Vec<LocalDate> {
    let mut out = vec![first];
    for (i, (y, m, d)) in days.iter().enumerate().skip(1) {
        out.push(date(*y, *m, *d, i as u32));
    }
    out
}

#[test]
fn a_week_inside_one_month_names_it_once() {
    let days = week_of(
        date(2026, 8, 10, 0),
        [(2026, 8, 10), (2026, 8, 11), (2026, 8, 12), (2026, 8, 13), (2026, 8, 14), (2026, 8, 15), (2026, 8, 16)],
    );
    assert_eq!(week_title(&days), "Week of 10-16 August 2026");
}

#[test]
fn a_week_straddling_two_months_names_both() {
    let days = week_of(
        date(2026, 8, 31, 0),
        [(2026, 8, 31), (2026, 9, 1), (2026, 9, 2), (2026, 9, 3), (2026, 9, 4), (2026, 9, 5), (2026, 9, 6)],
    );
    assert_eq!(week_title(&days), "Week of 31 August - 6 September 2026");
}

#[test]
fn a_week_straddling_new_year_names_both_years() {
    let days = week_of(
        date(2026, 12, 28, 0),
        [(2026, 12, 28), (2026, 12, 29), (2026, 12, 30), (2026, 12, 31), (2027, 1, 1), (2027, 1, 2), (2027, 1, 3)],
    );
    assert_eq!(week_title(&days), "Week of 28 December 2026 - 3 January 2027");
}

fn span(sh: u32, sm: u32, eh: u32, em: u32) -> ClockSpan {
    ClockSpan { start_hour: sh, start_minute: sm, end_hour: eh, end_minute: em }
}

#[test]
fn no_rendered_line_ends_in_whitespace() {
    let (from, to) = day_window();
    let events = vec![all_day("休假", from, to)];
    let sessions = vec![work(from + 9 * HOUR, 1500)];
    let text = day(
        &events,
        &vec![span(0, 0, 0, 0)],
        &sessions,
        &vec![span(9, 0, 9, 25)],
        date(2026, 8, 16, 6),
        from,
        to,
        "-",
    );
    for line in text.lines() {
        assert_eq!(line, line.trim_end(), "trailing whitespace in {line:?}");
    }
}

#[test]
fn a_day_with_nothing_in_it_says_so_in_both_halves() {
    let (from, to) = day_window();
    let text = day(&vec![], &vec![], &vec![], &vec![], date(2026, 8, 16, 6), from, to, "-");
    assert_eq!(text.matches("(none)").count(), 2, "{text}");
    assert!(text.contains("planned 0m | focused 0m | -"), "{text}");
}

#[test]
fn a_day_lists_its_plan_and_its_pomodoros_in_columns() {
    let (from, to) = day_window();
    let events = vec![event("写论文", from + 9 * HOUR, from + 10 * HOUR + 1800 * NS)];
    let mut s = work(from + 9 * HOUR, 1500);
    s.label = Some("第三章".to_string());
    let text = day(
        &events,
        &vec![span(9, 0, 10, 30)],
        &vec![s],
        &vec![span(9, 0, 9, 25)],
        date(2026, 8, 16, 6),
        from,
        to,
        "28%",
    );
    assert_eq!(
        text,
        "Sunday, 16 August 2026\n\nPlanned\n  09:00-10:30   1h30m  写论文\n\nFocus\n  09:00-09:25     25m  work   completed    第三章\n\nplanned 1h30m | focused 25m | 28%\n"
    );
}

#[test]
fn the_week_total_is_the_sum_of_its_days() {
    let monday = SUNDAY - 6 * 24 * HOUR;
    let starts: Vec<i128> = (0..=DAYS_PER_WEEK as i128).map(|i| monday + i * 24 * HOUR).collect();
    let events = vec![
        event("mon", monday + 9 * HOUR, monday + 10 * HOUR),
        event("wed", monday + 2 * 24 * HOUR + 9 * HOUR, monday + 2 * 24 * HOUR + 11 * HOUR),
    ];
    let sessions = vec![work(monday + 9 * HOUR, 1500)];

    let total = summarise(&events, &sessions, starts[0], starts[DAYS_PER_WEEK]);
    let summed: i64 = (0..DAYS_PER_WEEK).map(|i| summarise(&events, &sessions, starts[i], starts[i + 1]).planned_sec).sum();

    assert_eq!(total.planned_sec, summed);
    assert_eq!(total.planned_sec, 3 * 3600);
    assert_eq!(total.focused_sec, 1500);
}

#[test]
fn the_week_table_has_a_row_per_day_and_a_total() {
    let monday = SUNDAY - 6 * 24 * HOUR;
    let starts: Vec<i128> = (0..=DAYS_PER_WEEK as i128).map(|i| monday + i * 24 * HOUR).collect();
    let dates = week_of(
        date(2026, 8, 10, 0),
        [(2026, 8, 10), (2026, 8, 11), (2026, 8, 12), (2026, 8, 13), (2026, 8, 14), (2026, 8, 15), (2026, 8, 16)],
    );
    let events = vec![event("mon", monday + 9 * HOUR, monday + 10 * HOUR)];
    let ratios: Vec<String> = ["0%", "-", "-", "-", "-", "-", "-", "0%"].iter().map(|s| s.to_string()).collect();
    let text = week(&events, &vec![], &starts, &dates, &ratios);
    let lines: Vec<&str> = text.lines().collect();
    assert_eq!(lines[0], "Week of 10-16 August 2026");
    assert_eq!(lines[1], "");
    assert_eq!(lines[2], "           planned   focused   ratio");
    assert_eq!(lines[3], "  Mon 10     1h00m        0m      0%");
    assert_eq!(lines[4], "  Tue 11        0m        0m       -");
    assert_eq!(lines[10], format!("  {}", "-".repeat(34)));
    assert_eq!(lines[11], "  Total      1h00m        0m      0%");
    assert_eq!(lines.len(), 12);
}
