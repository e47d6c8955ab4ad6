use calenpomo::timer::{state_path, Clock, Outcome, Persisted, Phase, RunState, Timer, Transition, HEARTBEAT_INTERVAL};

use std::cell::Cell;

const SEC: u128 = 1_000_000_000;

struct FakeClock {
    mono: Cell<u128>,
    wall: Cell<i128>,
}

impl Clock for FakeClock {
    fn monotonic(&self) -> u128 {
        self.mono.get()
    }

    fn wall(&self) -> i128 {
        self.wall.get()
    }
}

fn clock() -> FakeClock {
    FakeClock { mono: Cell::new(5 * SEC), wall: Cell::new(1_784_764_800 * SEC as i128) }
}

/// Both clocks move together, as they do while the machine is awake.
fn awake(timer: &Timer<FakeClock>, secs: u128) {
    let c = timer.clock();
    c.mono.set(c.mono.get() + secs * SEC);
    c.wall.set(c.wall.get() + (secs * SEC) as i128);
}

/// Only the wall clock moves, as it does while the machine sleeps.
fn asleep(timer: &Timer<FakeClock>, secs: u128) {
    let c = timer.clock();
    c.wall.set(c.wall.get() + (secs * SEC) as i128);
}

fn fresh() -> Timer<FakeClock> {
    Timer::load(clock(), None, 1500 * SEC, 300 * SEC).0
}

#[test]
fn a_fresh_timer_is_idle_on_work() {
    let timer = fresh();
    let s = timer.state();
    assert_eq!(s.phase, Phase::Work);
    assert_eq!(s.run, RunState::Idle);
    assert_eq!(s.remaining_sec, 1500);
}

#[test]
fn a_stopped_timer_does_not_count() {
    let mut timer = fresh();
    awake(&timer, 600);
    let (s, t) = timer.observe();
    assert_eq!(s.elapsed_sec, 0);
    assert!(t.is_empty());
}

#[test]
fn observing_twice_reports_a_transition_once() {
    let mut timer = fresh();
    timer.start();
    awake(&timer, 1500);
    let (_, first) = timer.observe();
    let (_, second) = timer.observe();
    assert_eq!(first, vec![Transition::Finished { phase: Phase::Work, next: Phase::Break, planned_sec: 1500 }]);
    assert!(second.is_empty());
}

#[test]
fn a_finished_work_segment_hands_over_to_a_running_break() {
    let mut timer = fresh();
    timer.start();
    awake(&timer, 1500);
    let (s, _) = timer.observe();
    assert_eq!(s.phase, Phase::Break);
    assert_eq!(s.run, RunState::Running);
    let ended = timer.take_ended();
    assert_eq!(ended.len(), 1);
    assert_eq!(ended[0].outcome, Outcome::Completed);
    assert_eq!(ended[0].actual_sec, 1500);
}

#[test]
fn a_finished_break_waits_for_the_user() {
    let mut timer = fresh();
    timer.start();
    awake(&timer, 1500);
    timer.observe();
    awake(&timer, 300);
    let (s, t) = timer.observe();
    assert_eq!(t, vec![Transition::Finished { phase: Phase::Break, next: Phase::Work, planned_sec: 300 }]);
    assert_eq!(s.phase, Phase::Work);
    assert_eq!(s.run, RunState::Finished);
}

#[test]
fn a_sleep_voids_the_segment() {
    let mut timer = fresh();
    timer.start();
    awake(&timer, 600);
    asleep(&timer, 1200);
    let (s, t) = timer.observe();
    assert_eq!(s.run, RunState::Invalidated);
    assert_eq!(t, vec![Transition::Invalidated { phase: Phase::Work, elapsed_sec: 600, slept_sec: 1200 }]);
    let ended = timer.take_ended();
    assert_eq!(ended[0].outcome, Outcome::Invalidated);
}

#[test]
fn the_wall_clock_is_never_counted() {
    let mut timer = fresh();
    timer.start();
    awake(&timer, 100);
    asleep(&timer, 5);
    let (s, t) = timer.observe();
    assert!(t.is_empty());
    assert_eq!(s.elapsed_sec, 100);
}

#[test]
fn pausing_keeps_the_count() {
    let mut timer = fresh();
    timer.start();
    awake(&timer, 100);
    timer.toggle();
    awake(&timer, 400);
    let s = timer.state();
    assert_eq!(s.run, RunState::Paused);
    assert_eq!(s.elapsed_sec, 100);
    timer.toggle();
    awake(&timer, 50);
    assert_eq!(timer.state().elapsed_sec, 150);
}

#[test]
fn resetting_records_the_abandoned_segment() {
    let mut timer = fresh();
    timer.start();
    awake(&timer, 300);
    timer.reset();
    let ended = timer.take_ended();
    assert_eq!(ended.len(), 1);
    assert_eq!(ended[0].outcome, Outcome::Aborted);
    assert_eq!(ended[0].actual_sec, 300);
    assert_eq!(timer.state().run, RunState::Idle);
}

#[test]
fn a_slip_leaves_no_record() {
    let mut timer = fresh();
    timer.start();
    timer.reset();
    assert!(timer.take_ended().is_empty());
}

#[test]
fn starting_begins_from_zero() {
    let mut timer = fresh();
    timer.start();
    awake(&timer, 200);
    timer.start();
    let s = timer.state();
    assert_eq!(s.elapsed_sec, 0);
    assert_eq!(s.run, RunState::Running);
}

#[test]
fn new_lengths_take_effect_and_are_due_for_writing() {
    let mut timer = fresh();
    timer.mark_persisted();
    assert!(!timer.persist_due());
    timer.set_durations(50 * 60 * SEC, 10 * 60 * SEC);
    assert_eq!(timer.durations(), (3000 * SEC, 600 * SEC));
    assert!(timer.persist_due());
}

#[test]
fn a_running_timer_writes_a_heartbeat_every_ten_seconds() {
    let mut timer = fresh();
    timer.start();
    timer.mark_persisted();
    awake(&timer, 9);
    assert!(!timer.persist_due());
    awake(&timer, 1);
    assert!(timer.persist_due());
}

#[test]
fn a_timer_at_rest_round_trips_through_its_file() {
    let mut timer = fresh();
    timer.start();
    awake(&timer, 100);
    timer.toggle();
    let saved = timer.to_persisted();
    assert_eq!(saved.run, RunState::Paused);
    assert_eq!(saved.banked_sec, 100);
    let (back, transitions) = Timer::load(clock(), Some(saved.clone()), 1500 * SEC, 300 * SEC);
    assert!(transitions.is_empty());
    let s = back.state();
    assert_eq!(s.run, RunState::Paused);
    assert_eq!(s.elapsed_sec, 100);
}

#[test]
fn a_restart_inside_the_tolerance_resumes_the_segment() {
    let saved = Persisted {
        phase: Phase::Work,
        run: RunState::Running,
        banked_sec: 100,
        heartbeat_unix: Some(1_784_764_800),
        started_at_unix: Some(1_784_764_700),
    };
    let c = clock();
    c.wall.set((1_784_764_800 + 20) as i128 * SEC as i128);
    let (timer, transitions) = Timer::load(c, Some(saved), 1500 * SEC, 300 * SEC);
    assert!(transitions.is_empty());
    let s = timer.state();
    assert_eq!(s.run, RunState::Running);
    assert_eq!(s.elapsed_sec, 120);
}

#[test]
fn a_restart_after_a_long_absence_voids_the_segment() {
    let saved = Persisted {
        phase: Phase::Work,
        run: RunState::Running,
        banked_sec: 100,
        heartbeat_unix: Some(1_784_764_800),
        started_at_unix: Some(1_784_764_700),
    };
    let c = clock();
    c.wall.set((1_784_764_800 + 3600) as i128 * SEC as i128);
    let (timer, transitions) = Timer::load(c, Some(saved), 1500 * SEC, 300 * SEC);
    assert_eq!(transitions.len(), 1);
    assert!(matches!(transitions[0], Transition::Invalidated { .. }));
    assert_eq!(timer.state().run, RunState::Invalidated);
}

#[test]
fn the_state_file_sits_beside_the_settings() {
    assert!(state_path("/config").ends_with("timer.json"));
}

#[test]
fn the_phases_alternate() {
    assert_eq!(Phase::Work.next(), Phase::Break);
    assert_eq!(Phase::Break.next(), Phase::Work);
}

// The timer's own scenarios, on a clock that starts at a monotonic zero and
// a wall clock of `BASE` seconds past the epoch, with a one-minute work
// segment and a thirty-second break.

const BASE: u128 = 1_700_000_000;
const WORK: u128 = 60 * SEC;
const BREAK: u128 = 30 * SEC;
const MS: u128 = 1_000_000;

fn fake_clock() -> FakeClock {
    FakeClock { mono: Cell::new(0), wall: Cell::new((BASE * SEC) as i128) }
}

fn short_timer() -> Timer<FakeClock> {
    Timer::load(fake_clock(), None, WORK, BREAK).0
}

/// Ordinary time passing: both clocks move together.
fn advance(t: &Timer<FakeClock>, by: u128) {
    advance_split(t, by, by);
}

fn advance_split(t: &Timer<FakeClock>, mono: u128, wall: u128) {
    let c = t.clock();
    c.mono.set(c.mono.get() + mono);
    c.wall.set(c.wall.get() + wall as i128);
}

fn rewind_wall(t: &Timer<FakeClock>, by: u128) {
    let c = t.clock();
    c.wall.set(c.wall.get() - by as i128);
}

/// What the app writes to `timer.json`, and the note that it did.
fn persist(t: &mut Timer<FakeClock>) -> Persisted {
    let saved = t.to_persisted();
    t.mark_persisted();
    saved
}

/// A fresh process: a new monotonic base, the wall clock `wall_secs` past
/// `BASE`.
fn restarted(wall_secs: u128) -> FakeClock {
    FakeClock { mono: Cell::new(0), wall: Cell::new(((BASE + wall_secs) * SEC) as i128) }
}

/// Seconds since the epoch, which is how these scenarios talk about wall time.
fn unix(at: i128) -> u128 {
    (at / SEC as i128) as u128
}

#[test]
fn a_running_segment_counts_down_by_the_monotonic_clock() {
    let mut t = short_timer();
    t.start();
    advance(&t, 20 * SEC);
    let (state, transitions) = t.observe();
    assert_eq!(state.run, RunState::Running);
    assert_eq!(state.elapsed_sec, 20);
    assert_eq!(state.remaining_sec, 40);
    assert!(transitions.is_empty());
}

#[test]
fn the_remaining_time_reads_full_until_the_first_second_is_actually_gone() {
    let mut t = short_timer();
    t.start();
    assert_eq!(t.state().remaining_sec, 60);
    advance(&t, MS);
    assert_eq!(t.state().remaining_sec, 60, "a millisecond is not a second");
    advance(&t, 999 * MS);
    assert_eq!(t.state().remaining_sec, 59);
}

#[test]
fn a_wall_clock_jump_far_beyond_the_monotonic_delta_invalidates_the_segment() {
    let mut t = short_timer();
    t.start();
    // The lid was shut for half an hour; the monotonic clock barely moved.
    advance_split(&t, SEC, 1800 * SEC);
    let (state, transitions) = t.observe();
    assert_eq!(state.run, RunState::Invalidated);
    assert_eq!(transitions, vec![Transition::Invalidated { phase: Phase::Work, elapsed_sec: 1, slept_sec: 1799 }]);
}

#[test]
fn a_small_wall_clock_correction_within_tolerance_does_not_invalidate() {
    let mut t = short_timer();
    t.start();
    // An NTP nudge: the wall clock gains a few seconds on the monotonic one.
    advance_split(&t, 10 * SEC, 14 * SEC);
    let (state, transitions) = t.observe();
    assert_eq!(state.run, RunState::Running);
    assert_eq!(state.elapsed_sec, 10);
    assert!(transitions.is_empty());
}

#[test]
fn a_backwards_wall_clock_does_not_corrupt_the_count() {
    let mut t = short_timer();
    t.start();
    advance(&t, 15 * SEC);
    rewind_wall(&t, 3600 * SEC);
    let (state, transitions) = t.observe();
    assert_eq!(state.run, RunState::Running);
    assert_eq!(state.elapsed_sec, 15);
    assert!(transitions.is_empty());
}

#[test]
fn pausing_stops_the_count_and_resuming_continues_from_the_same_elapsed() {
    let mut t = short_timer();
    t.start();
    advance(&t, 10 * SEC);
    t.toggle();
    assert_eq!(t.state().run, RunState::Paused);
    // Time passes while paused and must not count.
    advance(&t, 600 * SEC);
    assert_eq!(t.state().elapsed_sec, 10);
    t.toggle();
    advance(&t, 5 * SEC);
    let (state, _) = t.observe();
    assert_eq!(state.run, RunState::Running);
    assert_eq!(state.elapsed_sec, 15);
}

#[test]
fn a_finished_segment_reports_its_transition_exactly_once() {
    let mut t = short_timer();
    t.start();
    advance(&t, WORK);
    let (_, first) = t.observe();
    assert_eq!(first, vec![Transition::Finished { phase: Phase::Work, next: Phase::Break, planned_sec: 60 }]);
    // The second reader, the frontend poll say, must get nothing.
    let (state, second) = t.observe();
    assert!(second.is_empty());
    assert_eq!(state.run, RunState::Running, "the break carries on");
    assert_eq!(state.phase, Phase::Break);
}

#[test]
fn observing_twice_after_a_long_jump_still_finishes_the_segment_only_once() {
    let mut t = short_timer();
    t.start();
    // Well past the planned length, but both clocks agree: a busy machine,
    // not a suspend.
    advance(&t, 300 * SEC);
    let (state, first) = t.observe();
    assert_eq!(first.len(), 1);
    // The overshoot is not carried into the break.
    assert_eq!(state.elapsed_sec, 0);
    let (_, second) = t.observe();
    assert!(second.is_empty());
}

#[test]
fn finishing_a_work_segment_starts_the_break_without_a_press() {
    let mut t = short_timer();
    t.start();
    advance(&t, WORK);
    let (state, _) = t.observe();
    assert_eq!(state.phase, Phase::Break);
    assert_eq!(state.run, RunState::Running);
    assert_eq!(state.planned_sec, 30);
    assert_eq!(state.remaining_sec, 30);
    assert_eq!(state.elapsed_sec, 0, "the break starts from the top");
    // And it really is counting, not merely labelled as running.
    advance(&t, 10 * SEC);
    assert_eq!(t.state().remaining_sec, 20);
}

#[test]
fn finishing_a_break_waits_for_the_user() {
    let mut t = short_timer();
    t.start();
    advance(&t, WORK);
    t.observe();
    advance(&t, BREAK);
    let (state, transitions) = t.observe();
    assert_eq!(state.phase, Phase::Work);
    assert_eq!(state.run, RunState::Finished);
    assert_eq!(transitions, vec![Transition::Finished { phase: Phase::Break, next: Phase::Work, planned_sec: 30 }]);
}

#[test]
fn a_cold_start_within_the_heartbeat_window_restores_the_running_segment() {
    let mut first = short_timer();
    first.start();
    advance(&first, 20 * SEC);
    let saved = persist(&mut first);
    // A fresh process: new monotonic base, wall clock a few seconds on.
    let (t, transitions) = Timer::load(restarted(20 + 5), Some(saved), WORK, BREAK);
    assert!(transitions.is_empty());
    let state = t.state();
    assert_eq!(state.run, RunState::Running);
    // 20 banked before the crash, plus the 5 second gap.
    assert_eq!(state.elapsed_sec, 25);
}

#[test]
fn a_cold_start_after_a_long_gap_invalidates_instead_of_pretending() {
    let mut first = short_timer();
    first.start();
    advance(&first, 20 * SEC);
    let saved = persist(&mut first);
    let (t, transitions) = Timer::load(restarted(20 + 600), Some(saved), WORK, BREAK);
    assert_eq!(t.state().run, RunState::Invalidated);
    assert_eq!(transitions, vec![Transition::Invalidated { phase: Phase::Work, elapsed_sec: 20, slept_sec: 600 }]);
}

#[test]
fn a_paused_timer_survives_a_restart_without_gaining_time() {
    let mut first = short_timer();
    first.start();
    advance(&first, 12 * SEC);
    first.toggle();
    let saved = persist(&mut first);
    // Hours pass with the app shut; a paused segment owes nothing to them.
    let (t, transitions) = Timer::load(restarted(60 * 60 * 5), Some(saved), WORK, BREAK);
    assert!(transitions.is_empty());
    assert_eq!(t.state().run, RunState::Paused);
    assert_eq!(t.state().elapsed_sec, 12);
}

#[test]
fn timer_state_round_trips_through_disk() {
    // Through both hand-overs, so what is saved is a `Finished` waiting on the
    // user rather than a running break.
    let mut first = short_timer();
    first.start();
    advance(&first, WORK);
    first.observe();
    advance(&first, BREAK);
    first.observe();
    let saved = persist(&mut first);
    let (t, transitions) = Timer::load(fake_clock(), Some(saved), WORK, BREAK);
    assert!(transitions.is_empty());
    assert_eq!(t.state().phase, Phase::Work);
    assert_eq!(t.state().run, RunState::Finished);
}

#[test]
fn an_auto_started_break_survives_a_restart() {
    let mut first = short_timer();
    first.start();
    advance(&first, WORK);
    first.observe();
    assert!(first.persist_due(), "the hand-over must reach the disk");
    let saved = persist(&mut first);
    let (t, transitions) = Timer::load(restarted(60 + 5), Some(saved), WORK, BREAK);
    assert!(transitions.is_empty());
    assert_eq!(t.state().phase, Phase::Break);
    assert_eq!(t.state().run, RunState::Running);
    assert_eq!(t.state().elapsed_sec, 5, "the gap belongs to the break");
}

#[test]
fn a_damaged_state_file_starts_idle_rather_than_refusing_to_run() {
    // A file that would not parse reaches the timer as nothing at all.
    let (t, transitions) = Timer::load(fake_clock(), None, WORK, BREAK);
    assert!(transitions.is_empty());
    assert_eq!(t.state().run, RunState::Idle);
    assert_eq!(t.state().phase, Phase::Work);
}

#[test]
fn a_completed_segment_is_recorded_at_its_planned_length() {
    let mut t = short_timer();
    advance(&t, 100 * SEC);
    t.start();
    advance(&t, WORK);
    t.observe();
    let ended = t.take_ended();
    assert_eq!(ended.len(), 1);
    assert_eq!(ended[0].outcome, Outcome::Completed);
    assert_eq!(ended[0].phase, Phase::Work);
    assert_eq!(ended[0].planned_sec, 60);
    assert_eq!(ended[0].actual_sec, 60);
    assert_eq!(unix(ended[0].started_at), BASE + 100);
    assert_eq!(unix(ended[0].ended_at), BASE + 100 + 60);
    // Taken once and once only, exactly like a transition.
    assert!(t.take_ended().is_empty());
}

#[test]
fn the_auto_started_break_is_recorded_as_a_segment_of_its_own() {
    let mut t = short_timer();
    t.start();
    advance(&t, WORK);
    t.observe();
    let work = t.take_ended();
    advance(&t, BREAK);
    t.observe();
    let brk = t.take_ended();
    assert_eq!(work.len(), 1);
    assert_eq!(brk.len(), 1);
    assert_eq!(brk[0].phase, Phase::Break);
    assert_eq!(brk[0].outcome, Outcome::Completed);
    assert_eq!(brk[0].actual_sec, 30);
    assert_eq!(unix(brk[0].started_at), unix(work[0].ended_at), "the break must begin where the work segment stopped");
    assert_eq!(unix(brk[0].ended_at), BASE + 60 + 30);
}

#[test]
fn a_paused_segment_spans_more_wall_time_than_it_counted() {
    let mut t = short_timer();
    t.start();
    advance(&t, 30 * SEC);
    t.toggle();
    advance(&t, 600 * SEC);
    t.toggle();
    advance(&t, 30 * SEC);
    t.observe();
    let ended = t.take_ended();
    assert_eq!(ended.len(), 1);
    assert_eq!(ended[0].actual_sec, 60, "the pause does not count");
    assert_eq!(unix(ended[0].ended_at) - unix(ended[0].started_at), 660, "but it did take that long on the wall");
}

#[test]
fn resetting_a_half_run_segment_records_it_as_abandoned() {
    let mut t = short_timer();
    t.start();
    advance(&t, 17 * SEC);
    t.reset();
    let ended = t.take_ended();
    assert_eq!(ended.len(), 1);
    assert_eq!(ended[0].outcome, Outcome::Aborted);
    assert_eq!(ended[0].actual_sec, 17);
    assert_eq!(ended[0].planned_sec, 60);
}

#[test]
fn starting_over_a_running_segment_abandons_it_rather_than_losing_it() {
    let mut t = short_timer();
    t.start();
    advance(&t, 20 * SEC);
    t.start();
    let ended = t.take_ended();
    assert_eq!(ended.len(), 1);
    assert_eq!(ended[0].outcome, Outcome::Aborted);
    assert_eq!(ended[0].actual_sec, 20);
}

#[test]
fn a_segment_that_never_got_going_leaves_no_record() {
    let mut t = short_timer();
    t.start();
    advance(&t, 300 * MS);
    t.reset();
    assert!(t.take_ended().is_empty(), "a slip is not a pomodoro");
    // Nor does resetting an idle timer, or one that already finished.
    t.reset();
    t.start();
    advance(&t, WORK);
    t.observe();
    assert_eq!(t.take_ended().len(), 1);
    t.reset();
    assert!(t.take_ended().is_empty());
}

#[test]
fn a_voided_segment_ends_where_the_counting_stopped() {
    let mut t = short_timer();
    t.start();
    advance(&t, 12 * SEC);
    // The lid was shut: half an hour of wall clock, no monotonic time.
    advance_split(&t, 0, 1800 * SEC);
    t.observe();
    let ended = t.take_ended();
    assert_eq!(ended.len(), 1);
    assert_eq!(ended[0].outcome, Outcome::Invalidated);
    assert_eq!(ended[0].actual_sec, 12);
    assert_eq!(unix(ended[0].started_at), BASE);
    assert_eq!(unix(ended[0].ended_at), BASE + 12, "the sleep must not be drawn as part of the segment");
}

#[test]
fn a_segment_survives_a_restart_knowing_when_it_began() {
    let mut first = short_timer();
    advance(&first, 40 * SEC);
    first.start();
    advance(&first, 20 * SEC);
    let saved = persist(&mut first);
    let (mut t, _) = Timer::load(restarted(40 + 20 + 5), Some(saved), WORK, BREAK);
    advance(&t, 35 * SEC);
    t.observe();
    let ended = t.take_ended();
    assert_eq!(ended.len(), 1);
    assert_eq!(ended[0].outcome, Outcome::Completed);
    assert_eq!(unix(ended[0].started_at), BASE + 40, "the restart forgot when the segment began");
}

#[test]
fn a_segment_voided_by_a_cold_start_ends_at_its_last_heartbeat() {
    let mut first = short_timer();
    first.start();
    advance(&first, 20 * SEC);
    let saved = persist(&mut first);
    let (mut t, _) = Timer::load(restarted(20 + 600), Some(saved), WORK, BREAK);
    let ended = t.take_ended();
    assert_eq!(ended.len(), 1);
    assert_eq!(ended[0].outcome, Outcome::Invalidated);
    assert_eq!(ended[0].actual_sec, 20);
    assert_eq!(unix(ended[0].started_at), BASE);
    assert_eq!(unix(ended[0].ended_at), BASE + 20);
}

#[test]
fn a_segment_with_no_start_stamp_is_not_given_one() {
    // What a state file from before sessions existed reads as.
    let saved = Persisted { phase: Phase::Work, run: RunState::Paused, banked_sec: 30, heartbeat_unix: None, started_at_unix: None };
    let (mut t, transitions) = Timer::load(fake_clock(), Some(saved), WORK, BREAK);
    assert!(transitions.is_empty());
    assert_eq!(t.state().elapsed_sec, 30);
    t.reset();
    assert!(t.take_ended().is_empty());
}

#[test]
fn the_heartbeat_is_due_only_while_running_and_only_once_stale() {
    let mut t = short_timer();
    assert!(!t.persist_due(), "an idle timer has nothing to record");
    t.start();
    assert!(t.persist_due(), "nothing written yet");
    persist(&mut t);
    assert!(!t.persist_due());
    advance(&t, HEARTBEAT_INTERVAL);
    assert!(t.persist_due(), "the heartbeat has gone stale");
}

#[test]
fn pausing_reaches_the_disk_even_though_it_produces_no_transition() {
    let mut t = short_timer();
    t.start();
    persist(&mut t);
    advance(&t, 5 * SEC);
    let (_, transitions) = t.observe();
    assert!(transitions.is_empty(), "a pause is not a transition");
    t.toggle();
    assert!(t.persist_due(), "a pause the disk never hears about would come back as a running timer");
}

#[test]
fn a_reset_is_not_left_on_disk_looking_like_a_running_timer() {
    let mut t = short_timer();
    t.start();
    persist(&mut t);
    advance(&t, 5 * SEC);
    t.reset();
    assert!(t.persist_due(), "a reset must reach the disk");
    let saved = persist(&mut t);
    // Long enough that a stale "running" record would have been invalidated.
    let (restored, transitions) = Timer::load(restarted(600), Some(saved), WORK, BREAK);
    assert_eq!(restored.state().run, RunState::Idle);
    assert!(transitions.is_empty(), "an idle timer cannot have been interrupted");
}

#[test]
fn a_persisted_state_is_marked_written_and_a_failed_write_leaves_it_due() {
    let mut t = fresh();
    t.start();
    assert!(t.persist_due());
    let failed = t.persist(|_| Err(calenpomo::error::AppError::IpcProtocol("disk full".to_string())));
    assert!(failed.is_err());
    assert!(t.persist_due());
    let mut written: Option<Persisted> = None;
    t.persist(|p| {
        written = Some(p);
        Ok(())
    })
    .expect("written");
    assert!(!t.persist_due());
    let p = written.expect("a record");
    assert_eq!(p.run, RunState::Running);
    assert_eq!(p.heartbeat_unix, Some(1_784_764_800));
}

/// `Duration::MAX`, in nanoseconds.
const DURATION_MAX_NANOS: u128 = u64::MAX as u128 * SEC + 999_999_999;

#[test]
fn any_duration_can_be_set_and_read_back() {
    let mut timer = fresh();
    timer.set_durations(DURATION_MAX_NANOS, DURATION_MAX_NANOS);
    assert_eq!(timer.durations(), (DURATION_MAX_NANOS, DURATION_MAX_NANOS));
    assert!(timer.persist_due());
    let p = timer.to_persisted();
    assert_eq!(p.phase, Phase::Work);
    assert_eq!(p.run, RunState::Idle);
    assert_eq!(p.banked_sec, 0);
}

#[test]
fn the_longest_reportable_segment_reads_its_whole_length() {
    let mut timer = fresh();
    timer.set_durations(u64::MAX as u128 * SEC, 300 * SEC);
    let s = timer.state();
    assert_eq!(s.planned_sec, u64::MAX);
    assert_eq!(s.remaining_sec, u64::MAX);
}

#[test]
fn a_timer_loads_with_any_duration() {
    let (timer, t) = Timer::load(clock(), None, DURATION_MAX_NANOS, 300 * SEC);
    assert!(t.is_empty());
    assert_eq!(timer.durations(), (DURATION_MAX_NANOS, 300 * SEC));
}

#[test]
fn the_state_file_is_joined_with_exactly_one_separator() {
    assert_eq!(state_path("/cfg/"), "/cfg/timer.json");
    assert_eq!(state_path("/cfg"), "/cfg/timer.json");
    assert_eq!(state_path(""), "timer.json");
}
