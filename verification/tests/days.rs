use calenpomo::days::clock_span;
use chrono::Datelike;

use calenpomo::calendar::ics::Zone;
use calenpomo::cli::report::LocalDate;
use calenpomo::days::{day_bounds, midnight, monday_of, reading_at, week_of};

fn date(text: &str) -> LocalDate {
    let d = chrono::NaiveDate::parse_from_str(text, "%Y-%m-%d").expect("valid date");
    LocalDate { year: d.year(), month: d.month(), day: d.day(), weekday: d.weekday().num_days_from_monday() }
}

#[test]
fn monday_is_its_own_week_start() {
    assert_eq!(monday_of(date("2026-08-10"), 0), Some(date("2026-08-10")));
}

#[test]
fn sunday_belongs_to_the_week_that_began_six_days_before() {
    assert_eq!(monday_of(date("2026-08-16"), 0), Some(date("2026-08-10")));
}

#[test]
fn going_back_a_week_lands_on_the_monday_before() {
    assert_eq!(monday_of(date("2026-08-16"), 1), Some(date("2026-08-03")));
    assert_eq!(monday_of(date("2026-08-16"), 2), Some(date("2026-07-27")));
}

#[test]
fn a_week_back_crosses_a_year_boundary_cleanly() {
    assert_eq!(monday_of(date("2027-01-03"), 1), Some(date("2026-12-21")));
}

#[test]
fn midnight_is_the_first_moment_of_the_local_day() {
    let start = midnight(Zone::Local, date("2026-08-16")).expect("a day chrono holds");
    let seen = reading_at(Zone::Local, start);
    assert_eq!(seen.date, date("2026-08-16"));
    // Whatever the machine's zone, the day starts at 00:00 in it, except in
    // the zones that skip that hour, where it starts as early as one that
    // exists. Either way it is never the day before.
    assert!(seen.hour < 4);
}

#[test]
fn consecutive_days_meet_without_a_gap_or_an_overlap() {
    let first = midnight(Zone::Local, date("2026-08-16")).expect("a day chrono holds");
    let second = midnight(Zone::Local, date("2026-08-17")).expect("a day chrono holds");
    assert!(second > first);
    assert_eq!(reading_at(Zone::Local, second).date, date("2026-08-17"));
}

#[test]
fn a_fixed_offset_day_starts_at_its_own_midnight() {
    // 00:00 on 16 August at +09:00 is 15:00 on the 15th in UTC.
    let start = midnight(Zone::Fixed(9 * 3600), date("2026-08-16")).expect("a day");
    assert_eq!(start, chrono::DateTime::parse_from_rfc3339("2026-08-15T15:00:00Z").unwrap().timestamp() as i128 * 1_000_000_000);
    let (from, to) = day_bounds(Zone::Fixed(9 * 3600), date("2026-08-16")).expect("a day");
    assert_eq!(from, start);
    assert_eq!(to - from, 24 * 3600 * 1_000_000_000);
}

#[test]
fn a_week_is_eight_midnights_a_day_apart() {
    let (dates, starts) = week_of(Zone::Fixed(0), date("2026-12-28")).expect("a week");
    assert_eq!(dates.len(), 8);
    assert_eq!(dates[0], date("2026-12-28"));
    assert_eq!(dates[7], date("2027-01-04"), "the week runs across the new year");
    for i in 0..7 {
        assert_eq!(starts[i + 1] - starts[i], 24 * 3600 * 1_000_000_000);
    }
}

#[test]
fn a_date_that_names_no_day_has_no_midnight() {
    let bogus = LocalDate { year: 2026, month: 2, day: 30, weekday: 0 };
    assert_eq!(midnight(Zone::Fixed(0), bogus), None);
}

#[test]
fn a_week_running_past_the_last_day_chrono_holds_has_no_bounds() {
    let last_monday = LocalDate { year: 262142, month: 12, day: 27, weekday: 0 };
    assert_eq!(week_of(Zone::Fixed(0), last_monday), None);
}

#[test]
fn a_week_from_a_date_that_names_no_day_has_no_bounds() {
    let bogus = LocalDate { year: 2026, month: 2, day: 30, weekday: 0 };
    assert_eq!(week_of(Zone::Fixed(0), bogus), None);
}

#[test]
fn a_span_reads_both_ends_on_the_zone_s_clock() {
    let at = |text: &str| chrono::DateTime::parse_from_rfc3339(text).unwrap().timestamp() as i128 * 1_000_000_000;
    let s = clock_span(Zone::Fixed(9 * 3600), at("2026-07-23T00:05:00Z"), at("2026-07-23T00:30:00Z"));
    assert_eq!((s.start_hour, s.start_minute, s.end_hour, s.end_minute), (9, 5, 9, 30));
    let unreadable = clock_span(Zone::Fixed(0), i128::MAX, i128::MIN);
    assert_eq!((unreadable.start_hour, unreadable.start_minute, unreadable.end_hour, unreadable.end_minute), (0, 0, 0, 0));
}
