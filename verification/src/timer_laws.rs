//! What holds of the timer across calls, stated over its model.

use vstd::prelude::*;

use crate::timer::{MAX_DURATION_NANOS, in_duration, HEARTBEAT_INTERVAL, MAX_SEGMENT_NANOS, Outcome, Persisted, Phase, RESTORE_TOLERANCE, RunState, SLEEP_TOLERANCE, TimerModel, TimerState, Transition, counted_at, ended_record, ns, persisted_in_range, readings_ok, restore_gap, since_mark, spec_load, spec_mark_persisted, spec_observe, spec_persist_due, spec_persisted, spec_reset, spec_set_durations, spec_start, spec_toggle, state_at, wf};

verus! {

/// Observing twice without the clock moving changes nothing the second time
/// and reports nothing: a finished segment is announced exactly once, however
/// many readers poll the timer. (A zero-length break would finish the instant
/// it began, so the break has to have some length.)
pub proof fn observe_is_idempotent(t: TimerModel, mono: u128, wall: i128)
    requires
        wf(t),
        readings_ok(mono, wall),
        t.brk > 0,
    ensures
        spec_observe(spec_observe(t, mono, wall).0, mono, wall) == (
            spec_observe(t, mono, wall).0,
            Seq::<Transition>::empty(),
        ),
{
}

/// One observation reports at most one transition.
pub proof fn observe_reports_at_most_one(t: TimerModel, mono: u128, wall: i128)
    ensures
        spec_observe(t, mono, wall).1.len() <= 1,
{
}

/// A timer that is not running does not count: its state is the same at any
/// monotonic reading, and observing it changes nothing.
pub proof fn a_stopped_timer_does_not_count(
    t: TimerModel,
    mono1: u128,
    mono2: u128,
    wall: i128,
)
    requires
        t.run != RunState::Running,
    ensures
        state_at(t, mono1) == state_at(t, mono2),
        spec_observe(t, mono1, wall) == (t, Seq::<Transition>::empty()),
{
}

/// Elapsed time comes from the monotonic clock alone: two wall readings that
/// do not signal a suspend (including one that went backwards) give the same
/// state and the same transitions.
pub proof fn the_wall_clock_is_never_counted(
    t: TimerModel,
    mono: u128,
    wall1: i128,
    wall2: i128,
)
    requires
        wf(t),
        t.run == RunState::Running,
        wall1 <= t.since->0.wall + since_mark(mono, t.since->0.mono) + SLEEP_TOLERANCE,
        wall2 <= t.since->0.wall + since_mark(mono, t.since->0.mono) + SLEEP_TOLERANCE,
    ensures
        spec_observe(t, mono, wall1).1 == spec_observe(t, mono, wall2).1,
        state_at(spec_observe(t, mono, wall1).0, mono) == state_at(
            spec_observe(t, mono, wall2).0,
            mono,
        ),
{
}

/// The wall clock racing more than the tolerance ahead of the monotonic one
/// voids the running segment: the timer stops as invalidated, says so once,
/// and the record of the segment ends where the counting stopped rather than
/// when the suspend was noticed.
pub proof fn a_suspend_voids_the_segment(t: TimerModel, mono: u128, wall: i128)
    requires
        wf(t),
        readings_ok(mono, wall),
        t.run == RunState::Running,
        wall > t.since->0.wall + since_mark(mono, t.since->0.mono) + SLEEP_TOLERANCE,
    ensures
        spec_observe(t, mono, wall).0.run == RunState::Invalidated,
        spec_observe(t, mono, wall).1.len() == 1,
        spec_observe(t, mono, wall).1[0] is Invalidated,
        t.started_at is Some ==> ({
            let stopped = t.since->0.wall + since_mark(mono, t.since->0.mono);
            let last = spec_observe(t, mono, wall).0.ended.last();
            &&& last.outcome == Outcome::Invalidated
            &&& last.ended_at == if stopped >= t.started_at->0 {
                stopped
            } else {
                t.started_at->0 as int
            }
        }),
{
    let m = t.since->0;
    assert(in_duration(m.wall as int));
    assert(since_mark(mono, m.mono) <= MAX_DURATION_NANOS);
}

/// A segment that reaches its planned length is recorded at exactly that
/// length, and the break that follows begins by itself on the same instant.
pub proof fn a_finished_work_segment_hands_over_to_a_running_break(
    t: TimerModel,
    mono: u128,
    wall: i128,
)
    requires
        wf(t),
        readings_ok(mono, wall),
        t.run == RunState::Running,
        t.phase == Phase::Work,
        wall <= t.since->0.wall + since_mark(mono, t.since->0.mono) + SLEEP_TOLERANCE,
        t.banked + since_mark(mono, t.since->0.mono) >= t.work,
        t.started_at is Some,
    ensures
        ({
            let (after, transitions) = spec_observe(t, mono, wall);
            &&& after.phase == Phase::Break
            &&& after.run == RunState::Running
            &&& after.started_at == Some(wall)
            &&& state_at(after, mono).elapsed_sec == 0
            &&& after.ended.last().outcome == Outcome::Completed
            &&& after.ended.last().actual_sec == after.ended.last().planned_sec
            &&& t.started_at->0 <= wall ==> after.ended.last().ended_at == wall
            &&& transitions == seq![
                Transition::Finished {
                    phase: Phase::Work,
                    next: Phase::Break,
                    planned_sec: (t.work as int / ns()) as u64,
                },
            ]
        }),
{
}

/// The other hand-over waits for the user: a finished break leaves the timer
/// `Finished` with work queued.
pub proof fn a_finished_break_waits_for_the_user(t: TimerModel, mono: u128, wall: i128)
    requires
        wf(t),
        t.run == RunState::Running,
        t.phase == Phase::Break,
        wall <= t.since->0.wall + since_mark(mono, t.since->0.mono) + SLEEP_TOLERANCE,
        t.banked + since_mark(mono, t.since->0.mono) >= t.brk,
    ensures
        spec_observe(t, mono, wall).0.phase == Phase::Work,
        spec_observe(t, mono, wall).0.run == RunState::Finished,
{
}

/// Starting always leaves a running segment at zero.
pub proof fn starting_begins_from_zero(t: TimerModel, mono: u128, wall: i128)
    ensures
        spec_start(t, mono, wall).run == RunState::Running,
        state_at(spec_start(t, mono, wall), mono).elapsed_sec == 0,
        spec_start(t, mono, wall).started_at == Some(wall),
{
}

/// Pausing then resuming at once loses nothing and gains nothing: the
/// elapsed count continues from where it stopped.
pub proof fn pausing_keeps_the_count(t: TimerModel, mono: u128, later: u128, wall: i128)
    requires
        wf(t),
        t.run == RunState::Running,
        mono <= later,
    ensures
        spec_toggle(t, mono, wall).run == RunState::Paused,
        state_at(spec_toggle(t, mono, wall), later) == (TimerState {
            run: RunState::Paused,
            ..state_at(t, mono)
        }),
{
}

/// Resetting stops the timer at the top of its segment, and a segment that
/// counted at least a second is kept as abandoned rather than lost.
pub proof fn resetting_keeps_an_abandoned_segment(t: TimerModel, mono: u128, wall: i128)
    requires
        wf(t),
        t.started_at is Some,
        counted_at(t, mono) >= ns(),
    ensures
        spec_reset(t, mono, wall).run == RunState::Idle,
        state_at(spec_reset(t, mono, wall), mono).elapsed_sec == 0,
        spec_reset(t, mono, wall).ended == t.ended.push(
            ended_record(t, Outcome::Aborted, counted_at(t, mono), t.started_at->0, Some(wall as int)),
        ),
{
}

/// A slip of less than a second leaves no record.
pub proof fn a_slip_leaves_no_record(t: TimerModel, mono: u128, wall: i128)
    requires
        counted_at(t, mono) < ns(),
    ensures
        spec_reset(t, mono, wall).ended == t.ended,
        spec_start(t, mono, wall).ended == t.ended,
{
}

/// A timer at rest survives a restart without gaining or losing time: what
/// was persisted loads back in the same phase and run state with the same
/// whole seconds counted, and nothing to report.
pub proof fn a_timer_at_rest_round_trips(
    t: TimerModel,
    mono: u128,
    wall: i128,
    mono2: u128,
    wall2: i128,
)
    requires
        wf(t),
        t.run != RunState::Running,
    ensures
        ({
            let (back, transitions) = spec_load(
                Some(spec_persisted(t, mono, wall)),
                t.work,
                t.brk,
                mono2,
                wall2,
            );
            &&& transitions.len() == 0
            &&& back.phase == t.phase
            &&& back.run == t.run
            &&& state_at(back, mono2).elapsed_sec == state_at(t, mono).elapsed_sec
        }),
{
    let c = counted_at(t, mono);
    let secs = c / ns();
    assert(0 <= c);
    assert(secs * ns() <= c) by (nonlinear_arith)
        requires
            secs == c / ns(),
            ns() == 1_000_000_000,
            c >= 0,
    ;
    assert((secs * ns()) / ns() == secs) by (nonlinear_arith)
        requires
            ns() == 1_000_000_000,
    ;
}

/// A running timer restarted within the tolerance resumes, crediting the
/// gap to the segment; one restarted later, or whose heartbeat cannot date the
/// gap, is voided and says so.
pub proof fn a_restart_resumes_or_voids(p: Persisted, work: u128, brk: u128, mono: u128, wall: i128)
    requires
        p.run == RunState::Running,
        persisted_in_range(p),
        readings_ok(mono, wall),
        work <= MAX_DURATION_NANOS,
        brk <= MAX_DURATION_NANOS,
    ensures
        ({
            let (back, transitions) = spec_load(Some(p), work, brk, mono, wall);
            let gap = restore_gap(p, wall);
            let planned = if p.phase == Phase::Work {
                work
            } else {
                brk
            };
            &&& (gap is Some && gap->0 <= RESTORE_TOLERANCE && p.banked_sec * ns() + gap->0
                < planned) ==> (back.run == RunState::Running && transitions.len() == 0
                && state_at(back, mono).elapsed_sec == (p.banked_sec * ns() + gap->0) / ns())
            &&& !(gap is Some && gap->0 <= RESTORE_TOLERANCE) ==> (back.run
                == RunState::Invalidated && transitions.len() == 1 && transitions[0]
                == Transition::Invalidated {
                phase: p.phase,
                elapsed_sec: p.banked_sec,
                slept_sec: match gap {
                    Some(g) => (g / ns()) as u64,
                    None => 0,
                },
            })
        }),
{
}

/// Writing the state clears the need to write it, until a running timer's
/// heartbeat goes stale.
pub proof fn the_heartbeat_paces_persistence(t: TimerModel, mono: u128, later: u128)
    requires
        mono <= later,
    ensures
        !spec_persist_due(spec_mark_persisted(t, mono), later) <==> (t.run != RunState::Running
            || later - mono < HEARTBEAT_INTERVAL),
{
}

/// Every change of state a cold start would need to know about is due for
/// writing: a start, a pause, a reset, a change of durations.
pub proof fn every_change_is_due_for_writing(t: TimerModel, mono: u128, wall: i128, work: u128, brk: u128)
    ensures
        spec_persist_due(spec_start(t, mono, wall), mono),
        spec_persist_due(spec_toggle(t, mono, wall), mono),
        spec_persist_due(spec_reset(t, mono, wall), mono),
        spec_persist_due(spec_set_durations(t, work, brk), mono),
{
}

} // verus!
