use calenpomo::cli::start::segment_lengths;
use calenpomo::cli::start::labelled;
use calenpomo::cli::start::{brief, countdown_step, parse_duration, report_of, route_start, summary, StartRoute};
use calenpomo::error::AppError;
use calenpomo::ipc::Response;
use calenpomo::calendar::ics::Zone;
use calenpomo::sessions::Sessions;
use calenpomo::timer::{Clock, Ended, Outcome, Phase, RunState, Timer};

use std::cell::Cell;

fn secs(text: &str) -> u128 {
    parse_duration(text).expect("a length") / 1_000_000_000
}

#[test]
fn a_bare_number_is_minutes() {
    assert_eq!(secs("25"), 1500);
    assert_eq!(secs("1"), 60);
}

#[test]
fn the_three_units_all_work() {
    assert_eq!(secs("90s"), 90);
    assert_eq!(secs("25m"), 1500);
    assert_eq!(secs("2h"), 7200);
}

#[test]
fn the_spelled_out_units_work_too() {
    assert_eq!(secs("25min"), 1500);
    assert_eq!(secs("90sec"), 90);
    assert_eq!(secs("25M"), 1500);
}

#[test]
fn nothing_at_all_is_refused() {
    assert!(parse_duration("0").is_err());
    assert!(parse_duration("0m").is_err());
}

#[test]
fn a_typo_is_refused_rather_than_parked_on() {
    assert!(parse_duration("50h").is_err());
    assert!(parse_duration("").is_err());
    assert!(parse_duration("25x").is_err());
    assert!(parse_duration("half an hour").is_err());
    assert!(parse_duration("-5m").is_err());
}

#[test]
fn the_summary_puts_the_users_own_text_last() {
    let line = summary("completed", 1500, Phase::Work, Some("写论文"));

    assert_eq!(line, "completed     25m  work   写论文\n");
    assert!(line.ends_with("写论文\n"), "{line:?}");
}

#[test]
fn a_summary_without_a_label_has_no_trailing_space() {
    let line = summary("started", 1500, Phase::Work, None);

    assert_eq!(line, "started       25m  work\n");
}

#[test]
fn a_segment_under_a_minute_is_reported_in_seconds() {
    assert_eq!(summary("stopped", 40, Phase::Work, None), "stopped       40s  work\n");
    assert_eq!(brief(59), "59s");
    assert_eq!(brief(60), "1m", "a full minute is back to the usual shape");
}

#[test]
fn a_slip_too_short_to_record_says_so_rather_than_inventing_a_pomodoro() {
    assert_eq!(report_of(&[]), "nothing recorded\n");
}

#[test]
fn every_way_a_segment_can_end_has_a_word() {
    let segment = |outcome| Ended {
        phase: Phase::Work,
        planned_sec: 1500,
        actual_sec: 600,
        started_at: 0,
        ended_at: 0,
        outcome,
        label: None,
    };

    assert!(report_of(&[segment(Outcome::Completed)]).starts_with("completed"));
    assert!(report_of(&[segment(Outcome::Aborted)]).starts_with("stopped"));
    assert!(report_of(&[segment(Outcome::Invalidated)]).starts_with("voided"));
}

#[test]
fn the_error_for_a_bad_length_quotes_it() {
    let e = parse_duration("25x").expect_err("refused");
    assert!(e.contains("\"25x\""), "{e}");
}

#[test]
fn an_app_that_started_the_segment_is_reported_not_run_again() {
    let reply = Ok(Some(Response::Started { planned_sec: 1500, label: Some("写论文".to_string()) }));
    match route_start(reply) {
        Ok(StartRoute::Handed(line)) => assert_eq!(line, "started       25m  work   写论文\n"),
        _ => panic!("expected the app to keep the time"),
    }
}

#[test]
fn an_app_that_refused_is_an_error_and_no_second_timer() {
    let reply = Ok(Some(Response::Refused { reason: "another vault is open".to_string() }));
    match route_start(reply) {
        Err(AppError::IpcRefused(reason)) => assert_eq!(reason, "another vault is open"),
        _ => panic!("expected a refusal"),
    }
}

#[test]
fn nobody_listening_or_unreachable_runs_the_countdown_here() {
    assert!(matches!(route_start(Ok(None)), Ok(StartRoute::RunHere)));
    assert!(matches!(
        route_start(Err(AppError::IpcProtocol("garbled".to_string()))),
        Ok(StartRoute::RunHere)
    ));
}

struct StepClock {
    mono: Cell<u128>,
    wall: Cell<i128>,
}

impl Clock for StepClock {
    fn monotonic(&self) -> u128 {
        self.mono.get()
    }

    fn wall(&self) -> i128 {
        self.wall.get()
    }
}

const SEC: u128 = 1_000_000_000;

fn step_clock() -> StepClock {
    StepClock { mono: Cell::new(0), wall: Cell::new(1_000_000 * SEC as i128) }
}

fn advance(timer: &Timer<StepClock>, secs: u128) {
    let c = timer.clock();
    c.mono.set(c.mono.get() + secs * SEC);
    c.wall.set(c.wall.get() + (secs * SEC) as i128);
}

#[test]
fn a_countdown_here_ends_when_its_segment_runs_out() {
    let (mut timer, _) = Timer::load(step_clock(), None, 60 * SEC, 30 * SEC);
    timer.start();
    advance(&timer, 30);
    let (state, over) = countdown_step(&mut timer, false);
    assert!(over.is_none());
    assert_eq!(state.remaining_sec, 30);
    advance(&timer, 30);
    let (_, over) = countdown_step(&mut timer, false);
    let ended = over.expect("the segment ran out");
    assert_eq!(ended.len(), 1);
    assert_eq!(ended[0].outcome, Outcome::Completed);
    assert_eq!(ended[0].actual_sec, 60);
}

#[test]
fn ctrl_c_records_the_work_done_so_far() {
    let (mut timer, _) = Timer::load(step_clock(), None, 60 * SEC, 30 * SEC);
    timer.start();
    advance(&timer, 20);
    let (_, over) = countdown_step(&mut timer, true);
    let ended = over.expect("interrupted");
    assert_eq!(ended.len(), 1);
    assert_eq!(ended[0].outcome, Outcome::Aborted);
    assert_eq!(ended[0].actual_sec, 20);
    assert_eq!(timer.state().run, RunState::Idle);
}

#[test]
fn an_open_app_is_handed_the_pomodoro_and_this_returns_at_once() {
    // The app answers that it started the segment: this command is only a
    // messenger, and runs nothing of its own.
    let reply = Ok(Some(Response::Started { planned_sec: 1500, label: Some("写论文".to_string()) }));
    match route_start(reply) {
        Ok(StartRoute::Handed(out)) => assert_eq!(out, "started       25m  work   写论文\n"),
        _ => panic!("the session is the app's to write"),
    }
}

#[test]
fn a_refusal_stops_the_command_instead_of_starting_a_second_timer() {
    let reply = Ok(Some(Response::Refused { reason: "a different vault is open".to_string() }));
    let err = match route_start(reply) {
        Err(e) => e,
        Ok(_) => panic!("should fail"),
    };
    assert!(matches!(err, AppError::IpcRefused(_)), "{err:?}");
    assert!(err.to_message().contains("a different vault is open"), "{}", err.to_message());
}

#[test]
fn with_no_app_the_countdown_runs_here_and_the_session_is_written() {
    // Nothing is listening, so the whole segment runs here and lands in the
    // vault: a one-second pomodoro, labelled.
    assert!(matches!(route_start(Ok(None)), Ok(StartRoute::RunHere)));
    let (mut timer, _) = Timer::load(step_clock(), None, SEC, 30 * SEC);
    timer.start();
    let mut ended = loop {
        let (_, over) = countdown_step(&mut timer, false);
        if let Some(ended) = over {
            break ended;
        }
        advance(&timer, 1);
    };
    for segment in ended.iter_mut() {
        segment.label = Some("写论文".to_string());
    }
    let written = std::cell::RefCell::new(Vec::new());
    for segment in &ended {
        Sessions::new(Zone::Fixed(9 * 3600))
            .record(segment, "s1".to_string(), |_, s| {
                written.borrow_mut().push(s.clone());
                Ok(())
            })
            .expect("record");
    }
    assert_eq!(report_of(&ended), "completed      1s  work   写论文\n");
    let sessions = written.into_inner();
    assert_eq!(sessions.len(), 1, "{sessions:?}");
    assert_eq!(sessions[0].label.as_deref(), Some("写论文"));
    assert_eq!(sessions[0].planned_sec, 1);
    assert_eq!(sessions[0].outcome, Outcome::Completed);
    assert_eq!(sessions[0].kind, Phase::Work);
}

#[test]
fn a_countdown_here_uses_the_length_asked_for_else_the_settings_at_least_a_second() {
    const NS: u128 = 1_000_000_000;
    assert_eq!(segment_lengths(1500, 300, None), (1500 * NS, 300 * NS));
    assert_eq!(segment_lengths(1500, 300, Some(90 * NS)), (90 * NS, 300 * NS));
    assert_eq!(segment_lengths(0, 0, None), (NS, NS));
}

#[test]
fn every_segment_of_a_run_carries_its_label() {
    let seg = |outcome| Ended {
        phase: Phase::Work,
        planned_sec: 1500,
        actual_sec: 1500,
        started_at: 10,
        ended_at: 20,
        outcome,
        label: None,
    };
    let out = labelled(vec![seg(Outcome::Completed), seg(Outcome::Aborted)], &Some("写论文".to_string()));
    assert_eq!(out.len(), 2);
    assert_eq!(out[0].label.as_deref(), Some("写论文"));
    assert_eq!(out[1].label.as_deref(), Some("写论文"));
    assert_eq!(out[1].outcome, Outcome::Aborted);
    assert_eq!((out[0].started_at, out[0].ended_at), (10, 20));
}
