use std::cell::{Cell, RefCell};

use calenpomo::calendar::ics::Zone;
use calenpomo::cli::report::LocalDate;
use calenpomo::days::reading_at;
use calenpomo::error::AppError;
use calenpomo::sessions::{Session, Sessions};
use calenpomo::timer::{Ended, Outcome, Phase};

const NS: i128 = 1_000_000_000;
const JST: Zone = Zone::Fixed(9 * 3600);

fn utc(text: &str) -> i128 {
    chrono::DateTime::parse_from_rfc3339(text).expect("valid timestamp").timestamp() as i128 * NS
}

/// The `sessions/` half of a vault, held in memory: the records of each
/// local day, in the order they were appended.
struct DayFiles {
    files: RefCell<Vec<((i32, u32, u32), Vec<Session>)>>,
    next_id: Cell<u32>,
}

impl DayFiles {
    fn new() -> DayFiles {
        DayFiles { files: RefCell::new(Vec::new()), next_id: Cell::new(0) }
    }

    fn key(day: &LocalDate) -> (i32, u32, u32) {
        (day.year, day.month, day.day)
    }

    fn has_file(&self, year: i32, month: u32, day: u32) -> bool {
        self.files.borrow().iter().any(|(k, _)| *k == (year, month, day))
    }

    fn day(&self, day: &LocalDate) -> Vec<Session> {
        let key = DayFiles::key(day);
        self.files.borrow().iter().find(|(k, _)| *k == key).map(|(_, s)| s.clone()).unwrap_or_default()
    }

    fn record(&self, sessions: &Sessions, ended: &Ended) -> Result<Session, AppError> {
        let id = format!("id-{}", self.next_id.get());
        self.next_id.set(self.next_id.get() + 1);
        sessions.record(ended, id, |day, s| {
            let key = DayFiles::key(day);
            let mut files = self.files.borrow_mut();
            match files.iter_mut().find(|(k, _)| *k == key) {
                Some((_, list)) => list.push(s.clone()),
                None => files.push((key, vec![s.clone()])),
            }
            Ok(())
        })
    }

    fn range(&self, sessions: &Sessions, from: &str, to: &str) -> Result<Vec<Session>, AppError> {
        sessions.range(utc(from), utc(to), |day| Ok(self.day(day)))
    }
}

fn ended(phase: Phase, outcome: Outcome, start: &str, end: &str, actual: u64) -> Ended {
    Ended { phase, planned_sec: 1500, actual_sec: actual, started_at: utc(start), ended_at: utc(end), outcome, label: None }
}

fn work(start: &str, end: &str) -> Ended {
    ended(Phase::Work, Outcome::Completed, start, end, 1500)
}

#[test]
fn a_recorded_session_is_readable_again() {
    let vault = DayFiles::new();
    let sessions = Sessions::new(JST);
    let written = vault.record(&sessions, &work("2026-07-23T05:00:00Z", "2026-07-23T05:25:00Z")).expect("record");
    let found = vault.range(&sessions, "2026-07-22T15:00:00Z", "2026-07-23T15:00:00Z").expect("range");
    assert_eq!(found, vec![written]);
}

#[test]
fn a_session_carries_the_offset_the_zone_had() {
    let vault = DayFiles::new();
    let written = vault.record(&Sessions::new(JST), &work("2026-07-23T05:00:00Z", "2026-07-23T05:25:00Z")).expect("record");
    assert_eq!(written.started_at.offset_sec, 9 * 3600);
    assert_eq!(written.ended_at.offset_sec, 9 * 3600);
    assert!(vault.has_file(2026, 7, 23));
}

#[test]
fn a_session_lands_in_the_file_for_its_local_start_date() {
    let vault = DayFiles::new();
    // 00:10 on 24 July in Tokyo, which is still 23 July in UTC.
    vault.record(&Sessions::new(JST), &work("2026-07-23T15:10:00Z", "2026-07-23T15:35:00Z")).expect("record");
    assert!(vault.has_file(2026, 7, 24));
    assert!(!vault.has_file(2026, 7, 23));
}

#[test]
fn a_session_running_through_midnight_is_found_from_the_day_it_ends_in() {
    let vault = DayFiles::new();
    let sessions = Sessions::new(JST);
    // 23:50 to 00:15 Tokyo time, so the record sits in the 23 July file.
    vault.record(&sessions, &work("2026-07-23T14:50:00Z", "2026-07-23T15:15:00Z")).expect("record");
    assert!(vault.has_file(2026, 7, 23));
    // A window covering only 24 July, local.
    let found = vault.range(&sessions, "2026-07-23T15:00:00Z", "2026-07-24T15:00:00Z").expect("range");
    assert_eq!(found.len(), 1);
}

#[test]
fn sessions_outside_the_window_are_left_out() {
    let vault = DayFiles::new();
    let sessions = Sessions::new(JST);
    vault.record(&sessions, &work("2026-07-20T05:00:00Z", "2026-07-20T05:25:00Z")).expect("before");
    let inside = vault.record(&sessions, &work("2026-07-23T05:00:00Z", "2026-07-23T05:25:00Z")).expect("inside");
    vault.record(&sessions, &work("2026-07-30T05:00:00Z", "2026-07-30T05:25:00Z")).expect("after");
    let found = vault.range(&sessions, "2026-07-22T15:00:00Z", "2026-07-23T15:00:00Z").expect("range");
    assert_eq!(found, vec![inside]);
}

#[test]
fn sessions_come_back_in_chronological_order() {
    let vault = DayFiles::new();
    let sessions = Sessions::new(JST);
    for start in ["07:00", "05:00", "06:00"] {
        vault
            .record(&sessions, &work(&format!("2026-07-23T{start}:00Z"), &format!("2026-07-23T{start}:00Z")))
            .expect("record");
    }
    let found = vault.range(&sessions, "2026-07-22T15:00:00Z", "2026-07-23T15:00:00Z").expect("range");
    let hours: Vec<u32> = found.iter().map(|s| reading_at(JST, s.started_at.at).hour).collect();
    assert_eq!(hours, vec![14, 15, 16]);
}

#[test]
fn every_outcome_round_trips() {
    let vault = DayFiles::new();
    let sessions = Sessions::new(JST);
    for (i, outcome) in [Outcome::Completed, Outcome::Aborted, Outcome::Invalidated].into_iter().enumerate() {
        vault
            .record(
                &sessions,
                &ended(Phase::Break, outcome, &format!("2026-07-23T0{i}:00:00Z"), &format!("2026-07-23T0{i}:05:00Z"), 300),
            )
            .expect("record");
    }
    let found = vault.range(&sessions, "2026-07-22T15:00:00Z", "2026-07-23T15:00:00Z").expect("range");
    let outcomes: Vec<Outcome> = found.iter().map(|s| s.outcome).collect();
    assert_eq!(outcomes, vec![Outcome::Completed, Outcome::Aborted, Outcome::Invalidated]);
}

#[test]
fn a_day_that_was_never_written_reads_as_empty() {
    let vault = DayFiles::new();
    let found = vault.range(&Sessions::new(JST), "2026-07-22T15:00:00Z", "2026-07-23T15:00:00Z").expect("range");
    assert!(found.is_empty());
}

#[test]
fn the_walk_reads_from_the_day_before_through_the_last_day_in_order() {
    let asked = RefCell::new(Vec::new());
    let found = Sessions::new(JST)
        .range(utc("2026-07-22T15:00:00Z"), utc("2026-07-24T15:00:00Z"), |day| {
            asked.borrow_mut().push((day.year, day.month, day.day));
            Ok(Vec::new())
        })
        .expect("range");
    assert!(found.is_empty());
    assert_eq!(asked.into_inner(), vec![(2026, 7, 22), (2026, 7, 23), (2026, 7, 24), (2026, 7, 25)]);
}

#[test]
fn a_day_file_that_cannot_be_read_stops_the_walk_with_its_error() {
    let asked = Cell::new(0);
    let failed = Sessions::new(JST).range(utc("2026-07-22T15:00:00Z"), utc("2026-07-24T15:00:00Z"), |day| {
        asked.set(asked.get() + 1);
        if day.day == 23 {
            Err(AppError::Io { path: "sessions/2026-07-23.jsonl".to_string(), reason: "denied".to_string() })
        } else {
            Ok(Vec::new())
        }
    });
    assert!(matches!(failed, Err(AppError::Io { .. })));
    assert_eq!(asked.get(), 2, "nothing after the failure is read");
}
