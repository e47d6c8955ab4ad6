//! The countdown lives here; the frontend only displays it.
//!
//! Two clocks are read at once. Elapsed time is always measured with the
//! monotonic clock, so moving the system clock cannot stretch or shrink a
//! pomodoro. The wall clock only serves to detect a suspend: the wall clock
//! racing ahead of the monotonic one means the machine slept, and the segment
//! that was running is void.
//!
//! Time is counted in nanoseconds: a duration is a `u128` of them, and a wall
//! reading is an `i128` of them relative to the Unix epoch.
//!
//! Every method that reads the clock does so once, through [`Clock`], and hands
//! the pair of readings to a method ending in `_at`, which is a pure transition
//! of the state machine. The `_at` methods carry the exact contracts.

use vstd::prelude::*;

use crate::error::AppError;
use crate::path::{ends_with, join_path, joined, plain_component, verbatim};

verus! {

pub const NANOS_PER_SEC: u128 = 1_000_000_000;

/// The largest value a `std::time::Duration` can hold, in nanoseconds.
pub const MAX_DURATION_NANOS: u128 = 18_446_744_073_709_551_615 * 1_000_000_000 + 999_999_999;

/// `u64::MAX` whole seconds: the most time left that a [`TimerState`] can
/// report. A segment with more left than this, by any fraction of a second,
/// rounds up to one second past what its `u64` holds.
pub const MAX_SEGMENT_NANOS: u128 = 18_446_744_073_709_551_615 * 1_000_000_000;

/// The wall clock running this much further than the monotonic clock over the
/// same stretch means the machine was suspended in between.
pub const SLEEP_TOLERANCE: u128 = 10 * NANOS_PER_SEC;

/// How stale a persisted heartbeat may be and still be resumed from.
pub const RESTORE_TOLERANCE: u128 = 30 * NANOS_PER_SEC;

/// How often a running timer rewrites its heartbeat.
pub const HEARTBEAT_INTERVAL: u128 = 10 * NANOS_PER_SEC;

pub const DEFAULT_WORK: u128 = 25 * 60 * NANOS_PER_SEC;

pub const DEFAULT_BREAK: u128 = 5 * 60 * NANOS_PER_SEC;

/// The two readings everything else is derived from.
///
/// `monotonic` is nanoseconds since some fixed base of this clock; `wall` is
/// nanoseconds since the Unix epoch, negative before it. Both fit in a
/// `Duration`.
pub trait Clock {
    fn monotonic(&self) -> (r: u128)
        ensures
            r <= MAX_DURATION_NANOS,
    ;

    fn wall(&self) -> (r: i128)
        ensures
            -(MAX_DURATION_NANOS as int) <= r <= MAX_DURATION_NANOS as int,
    ;
}

#[verifier::external_type_specification]
#[verifier::external_body]
pub struct ExInstant(std::time::Instant);

#[verifier::external_type_specification]
#[verifier::external_body]
pub struct ExSystemTime(std::time::SystemTime);

/// Calls `std::time::Instant::now`. Nothing is claimed of the reading.
#[verifier::external_body]
fn instant_now() -> std::time::Instant {
    std::time::Instant::now()
}

/// Calls `Instant::elapsed`. The result is a `Duration`, so its nanoseconds
/// never exceed `Duration::MAX`; nothing else is claimed of it.
#[verifier::external_body]
fn elapsed_nanos(base: &std::time::Instant) -> (r: u128)
    ensures
        r <= MAX_DURATION_NANOS,
{
    base.elapsed().as_nanos()
}

/// Calls `std::time::SystemTime::now`. Nothing is claimed of the reading.
#[verifier::external_body]
fn system_now() -> std::time::SystemTime {
    std::time::SystemTime::now()
}

/// Calls `SystemTime::duration_since(UNIX_EPOCH)`: `Ok` with the distance
/// after the epoch, or `Err` with the distance before it. Either distance is a
/// `Duration`, so it is at most `Duration::MAX`; nothing else is claimed.
#[verifier::external_body]
fn since_unix_epoch(at: &std::time::SystemTime) -> (r: Result<u128, u128>)
    ensures
        match r {
            Ok(n) => n <= MAX_DURATION_NANOS,
            Err(n) => n <= MAX_DURATION_NANOS,
        },
{
    match at.duration_since(std::time::UNIX_EPOCH) {
        Ok(d) => Ok(d.as_nanos()),
        Err(e) => Err(e.duration().as_nanos()),
    }
}

/// The clock the app runs on: `Instant` for the monotonic half and
/// `SystemTime` for the wall half.
pub struct RealClock {
    base: std::time::Instant,
}

impl RealClock {
    pub fn new() -> RealClock {
        RealClock { base: instant_now() }
    }
}

impl Clock for RealClock {
    fn monotonic(&self) -> (r: u128) {
        elapsed_nanos(&self.base)
    }

    fn wall(&self) -> (r: i128) {
        let now = system_now();
        match since_unix_epoch(&now) {
            Ok(n) => n as i128,
            Err(n) => -(n as i128),
        }
    }
}

/// The two halves of a pomodoro.
#[derive(Debug, Clone, Copy, PartialEq, Eq, Structural)]
pub enum Phase {
    Work,
    Break,
}

pub open spec fn spec_next_phase(p: Phase) -> Phase {
    match p {
        Phase::Work => Phase::Break,
        Phase::Break => Phase::Work,
    }
}

/// Whether the hand-over into this phase begins counting on its own: only a
/// break does.
pub open spec fn spec_auto_starts(p: Phase) -> bool {
    p == Phase::Break
}

impl Phase {
    /// The phase queued after this one.
    pub fn next(self) -> (r: Phase)
        ensures
            r == spec_next_phase(self),
    {
        match self {
            Phase::Work => Phase::Break,
            Phase::Break => Phase::Work,
        }
    }

    fn auto_starts(self) -> (r: bool)
        ensures
            r == spec_auto_starts(self),
    {
        match self {
            Phase::Work => false,
            Phase::Break => true,
        }
    }
}

#[derive(Debug, Clone, Copy, PartialEq, Eq, Structural)]
pub enum RunState {
    /// Nothing running; `phase` names what will start.
    Idle,
    Running,
    Paused,
    /// The previous segment ran to its planned length and the queued phase
    /// waits to be started.
    Finished,
    /// The machine slept mid-segment, so it does not count.
    Invalidated,
}

/// What the frontend and the tray both render.
#[derive(Debug, Clone, Copy, PartialEq, Eq, Structural)]
pub struct TimerState {
    pub phase: Phase,
    pub run: RunState,
    pub planned_sec: u64,
    pub elapsed_sec: u64,
    pub remaining_sec: u64,
}

/// Something that just changed, reported once and only once.
#[derive(Debug, Clone, Copy, PartialEq, Eq, Structural)]
pub enum Transition {
    /// A segment reached its planned length.
    Finished { phase: Phase, next: Phase, planned_sec: u64 },
    /// The machine slept through part of a segment.
    Invalidated { phase: Phase, elapsed_sec: u64, slept_sec: u64 },
}

/// How a segment stopped counting.
#[derive(Debug, Clone, Copy, PartialEq, Eq, Structural)]
pub enum Outcome {
    /// Ran to its planned length.
    Completed,
    /// The user cut it short.
    Aborted,
    /// The machine slept through part of it.
    Invalidated,
}

/// A segment that ended, ready to be written to `sessions/`.
///
/// The two stamps are wall readings in nanoseconds since the Unix epoch.
#[derive(Debug, Clone, PartialEq, Eq)]
pub struct Ended {
    pub phase: Phase,
    pub planned_sec: u64,
    /// What the monotonic clock counted.
    pub actual_sec: u64,
    pub started_at: i128,
    pub ended_at: i128,
    pub outcome: Outcome,
    /// Written into the session record; the timer itself never sets one.
    pub label: Option<String>,
}

/// The clock readings at the moment the current run stretch began.
#[derive(Debug, Clone, Copy, PartialEq, Eq, Structural)]
pub struct Mark {
    pub mono: u128,
    pub wall: i128,
}

/// The part of the timer that survives a restart.
#[derive(Debug, Clone, PartialEq, Eq, Structural)]
pub struct Persisted {
    pub phase: Phase,
    pub run: RunState,
    /// Whole seconds counted so far.
    pub banked_sec: u64,
    /// Wall clock at the last write, in seconds since the Unix epoch. Present
    /// only while running.
    pub heartbeat_unix: Option<u64>,
    /// When the current segment first began counting, in seconds since the
    /// Unix epoch.
    pub started_at_unix: Option<u64>,
}

/// The state of a [`Timer`], apart from its clock.
pub struct TimerModel {
    pub phase: Phase,
    pub run: RunState,
    pub work: u128,
    pub brk: u128,
    /// Time banked from earlier run stretches of the current segment.
    pub banked: u128,
    /// Set while running.
    pub since: Option<Mark>,
    /// Wall clock at the moment the current segment first began counting.
    pub started_at: Option<i128>,
    /// Segments that have ended and not been taken yet.
    pub ended: Seq<Ended>,
    /// Monotonic reading of the last successful persist.
    pub last_persist: Option<u128>,
    /// The state moved in a way a cold start would need to know about.
    pub dirty: bool,
}

pub open spec fn ns() -> int {
    NANOS_PER_SEC as int
}

pub open spec fn in_duration(n: int) -> bool {
    -(MAX_DURATION_NANOS as int) <= n <= MAX_DURATION_NANOS as int
}

/// The ranges every field of a timer stays within.
pub open spec fn bounded(t: TimerModel) -> bool {
    &&& t.work <= MAX_DURATION_NANOS
    &&& t.brk <= MAX_DURATION_NANOS
    &&& t.banked <= MAX_DURATION_NANOS + RESTORE_TOLERANCE
    &&& (t.since matches Some(m) ==> m.mono <= MAX_DURATION_NANOS && in_duration(m.wall as int))
    &&& (t.started_at matches Some(s) ==> in_duration(s as int))
    &&& (t.last_persist matches Some(p) ==> p <= MAX_DURATION_NANOS)
    &&& forall|i: int| 0 <= i < t.ended.len() ==> #[trigger] t.ended[i].started_at <= t.ended[i].ended_at
}

/// What every reachable timer satisfies: its fields in range, and a mark
/// held exactly while it runs.
pub open spec fn wf(t: TimerModel) -> bool {
    &&& bounded(t)
    &&& (t.since is Some <==> t.run == RunState::Running)
}

pub open spec fn readings_ok(mono: u128, wall: i128) -> bool {
    mono <= MAX_DURATION_NANOS && in_duration(wall as int)
}

pub open spec fn planned(t: TimerModel) -> u128 {
    match t.phase {
        Phase::Work => t.work,
        Phase::Break => t.brk,
    }
}

/// `later - earlier`, or zero when the clock went backwards.
pub open spec fn since_mark(later: u128, earlier: u128) -> int {
    if later >= earlier {
        later - earlier
    } else {
        0
    }
}

pub open spec fn min_int(a: int, b: int) -> int {
    if a <= b {
        a
    } else {
        b
    }
}

/// Elapsed time in the current segment at monotonic reading `mono`.
pub open spec fn elapsed_at(t: TimerModel, mono: u128) -> int {
    match t.since {
        Some(m) => if t.run == RunState::Running {
            t.banked + since_mark(mono, m.mono)
        } else {
            t.banked as int
        },
        None => t.banked as int,
    }
}

/// Elapsed time, never more than the segment's planned length.
pub open spec fn counted_at(t: TimerModel, mono: u128) -> int {
    min_int(elapsed_at(t, mono), planned(t) as int)
}

/// Seconds, rounded up.
pub open spec fn ceil_secs(n: int) -> int {
    n / ns() + if n % ns() > 0 {
        1int
    } else {
        0int
    }
}

pub open spec fn state_at(t: TimerModel, mono: u128) -> TimerState {
    let planned = planned(t) as int;
    let elapsed = counted_at(t, mono);
    TimerState {
        phase: t.phase,
        run: t.run,
        planned_sec: (planned / ns()) as u64,
        elapsed_sec: (elapsed / ns()) as u64,
        remaining_sec: ceil_secs(planned - elapsed) as u64,
    }
}

/// The time left at `mono`, rounded up to whole seconds, fits the `u64` a
/// [`TimerState`] reports it in.
pub open spec fn reportable(t: TimerModel, mono: u128) -> bool {
    planned(t) - counted_at(t, mono) <= MAX_SEGMENT_NANOS
}

/// The time left fits a [`TimerState`] at every reading: no more is left
/// than what is banked already leaves, and running only lessens that.
pub open spec fn reportable_now(t: TimerModel) -> bool {
    planned(t) <= MAX_SEGMENT_NANOS + t.banked
}

/// Both lengths fit a [`TimerState`] from their first instant.
pub open spec fn lengths_fit(t: TimerModel) -> bool {
    t.work <= MAX_SEGMENT_NANOS && t.brk <= MAX_SEGMENT_NANOS
}

/// Whatever the next readings are, the state that advancing to them reports
/// fits a [`TimerState`]. A running timer may be voided or may hand over to
/// its other segment, each of which then reports its whole length as left.
pub open spec fn observable(t: TimerModel) -> bool {
    if t.run == RunState::Running {
        lengths_fit(t)
    } else {
        reportable_now(t)
    }
}

/// A timer whose time left fits now fits at every reading.
pub proof fn lemma_reportable_now(t: TimerModel, mono: u128)
    requires
        reportable_now(t),
    ensures
        reportable(t, mono),
{
}

/// Advancing an observable timer to any readings reports a state that fits.
pub proof fn lemma_observable(t: TimerModel, mono: u128, wall: i128)
    requires
        wf(t),
        observable(t),
    ensures
        reportable(spec_observe(t, mono, wall).0, mono),
{
}

/// Advancing, starting, pausing and resetting leave both lengths as they were.
pub proof fn lemma_lengths_kept(t: TimerModel, mono: u128, wall: i128)
    ensures
        spec_observe(t, mono, wall).0.work == t.work,
        spec_observe(t, mono, wall).0.brk == t.brk,
        spec_start(t, mono, wall).work == t.work,
        spec_start(t, mono, wall).brk == t.brk,
        spec_toggle(t, mono, wall).work == t.work,
        spec_toggle(t, mono, wall).brk == t.brk,
        spec_reset(t, mono, wall).work == t.work,
        spec_reset(t, mono, wall).brk == t.brk,
{
}

pub open spec fn fresh(work: u128, brk: u128) -> TimerModel {
    TimerModel {
        phase: Phase::Work,
        run: RunState::Idle,
        work,
        brk,
        banked: 0,
        since: None,
        started_at: None,
        ended: Seq::empty(),
        last_persist: None,
        dirty: false,
    }
}

pub open spec fn spec_mark_running(t: TimerModel, mono: u128, wall: i128) -> TimerModel {
    TimerModel { run: RunState::Running, since: Some(Mark { mono, wall }), dirty: true, ..t }
}

pub open spec fn spec_invalidate(t: TimerModel) -> TimerModel {
    TimerModel { run: RunState::Invalidated, since: None, banked: 0, dirty: true, ..t }
}

/// The record a segment that began at `start` leaves behind. Without a known
/// end it is placed at `start` plus what was counted, and it never ends
/// before it starts.
pub open spec fn ended_record(
    t: TimerModel,
    outcome: Outcome,
    actual: int,
    start: i128,
    ended_at: Option<int>,
) -> Ended {
    let e = match ended_at {
        Some(e) => e,
        None => start + actual,
    };
    Ended {
        phase: t.phase,
        planned_sec: (planned(t) as int / ns()) as u64,
        actual_sec: (actual / ns()) as u64,
        started_at: start,
        ended_at: (if e >= start {
            e
        } else {
            start as int
        }) as i128,
        outcome,
        label: None,
    }
}

/// Bank the segment under way, if it has a start stamp; record nothing
/// otherwise.
pub open spec fn spec_close(
    t: TimerModel,
    outcome: Outcome,
    actual: int,
    ended_at: Option<int>,
) -> TimerModel {
    match t.started_at {
        None => t,
        Some(s) => TimerModel {
            started_at: None,
            dirty: true,
            ended: t.ended.push(ended_record(t, outcome, actual, s, ended_at)),
            ..t
        },
    }
}

/// Close the segment under way as abandoned, unless it counted less than a
/// second.
pub open spec fn spec_abandon(t: TimerModel, mono: u128, wall: i128) -> TimerModel {
    let e = counted_at(t, mono);
    if e / ns() == 0 {
        TimerModel { started_at: None, ..t }
    } else {
        spec_close(t, Outcome::Aborted, e, Some(wall as int))
    }
}

pub open spec fn spec_start(t: TimerModel, mono: u128, wall: i128) -> TimerModel {
    spec_mark_running(
        TimerModel { banked: 0, started_at: Some(wall), ..spec_abandon(t, mono, wall) },
        mono,
        wall,
    )
}

pub open spec fn spec_toggle(t: TimerModel, mono: u128, wall: i128) -> TimerModel {
    match t.run {
        RunState::Running => TimerModel {
            banked: counted_at(t, mono) as u128,
            run: RunState::Paused,
            since: None,
            dirty: true,
            ..t
        },
        RunState::Paused => spec_mark_running(t, mono, wall),
        _ => spec_start(t, mono, wall),
    }
}

pub open spec fn spec_reset(t: TimerModel, mono: u128, wall: i128) -> TimerModel {
    TimerModel {
        run: RunState::Idle,
        banked: 0,
        since: None,
        dirty: true,
        ..spec_abandon(t, mono, wall)
    }
}

pub open spec fn spec_set_durations(t: TimerModel, work: u128, brk: u128) -> TimerModel {
    TimerModel { work, brk, dirty: true, ..t }
}

/// Advance the timer to the readings `(mono, wall)`: the new state and what
/// just changed.
pub open spec fn spec_observe(t: TimerModel, mono: u128, wall: i128) -> (TimerModel, Seq<Transition>) {
    if t.run != RunState::Running {
        (t, Seq::empty())
    } else {
        match t.since {
            None => (spec_mark_running(t, mono, wall), Seq::empty()),
            Some(m) => {
                let d_mono = since_mark(mono, m.mono);
                let d_wall: int = if wall >= m.wall {
                    wall - m.wall
                } else {
                    0
                };
                if d_wall > d_mono + SLEEP_TOLERANCE {
                    let counted = min_int(t.banked + d_mono, planned(t) as int);
                    let closed = spec_close(t, Outcome::Invalidated, counted, Some(m.wall + d_mono));
                    (
                        spec_invalidate(closed),
                        seq![
                            Transition::Invalidated {
                                phase: t.phase,
                                elapsed_sec: (counted / ns()) as u64,
                                slept_sec: ((d_wall - d_mono) / ns()) as u64,
                            },
                        ],
                    )
                } else if t.banked + d_mono < planned(t) {
                    (t, Seq::empty())
                } else {
                    let closed = spec_close(t, Outcome::Completed, planned(t) as int, Some(wall as int));
                    let next = spec_next_phase(t.phase);
                    let handed = TimerModel {
                        phase: next,
                        banked: 0,
                        since: None,
                        dirty: true,
                        ..closed
                    };
                    let after = if spec_auto_starts(next) {
                        spec_mark_running(TimerModel { started_at: Some(wall), ..handed }, mono, wall)
                    } else {
                        TimerModel { run: RunState::Finished, ..handed }
                    };
                    (
                        after,
                        seq![
                            Transition::Finished {
                                phase: t.phase,
                                next,
                                planned_sec: (planned(t) as int / ns()) as u64,
                            },
                        ],
                    )
                }
            },
        }
    }
}

pub open spec fn spec_heartbeat_due(t: TimerModel, mono: u128) -> bool {
    t.run == RunState::Running && match t.last_persist {
        None => true,
        Some(at) => since_mark(mono, at) >= HEARTBEAT_INTERVAL,
    }
}

pub open spec fn spec_persist_due(t: TimerModel, mono: u128) -> bool {
    t.dirty || spec_heartbeat_due(t, mono)
}

/// Whole seconds since the Unix epoch, or nothing before it.
pub open spec fn unix_secs(at: int) -> Option<u64> {
    if at >= 0 {
        Some((at / ns()) as u64)
    } else {
        None
    }
}

pub open spec fn spec_persisted(t: TimerModel, mono: u128, wall: i128) -> Persisted {
    Persisted {
        phase: t.phase,
        run: t.run,
        banked_sec: (counted_at(t, mono) / ns()) as u64,
        heartbeat_unix: if t.run == RunState::Running {
            unix_secs(wall as int)
        } else {
            None
        },
        started_at_unix: match t.started_at {
            Some(s) => unix_secs(s as int),
            None => None,
        },
    }
}

pub open spec fn spec_mark_persisted(t: TimerModel, mono: u128) -> TimerModel {
    TimerModel { last_persist: Some(mono), dirty: false, ..t }
}

/// How long the app was away, by the wall clock, if the heartbeat dates it.
pub open spec fn restore_gap(p: Persisted, wall: i128) -> Option<int> {
    match p.heartbeat_unix {
        Some(hb) => if wall >= hb * ns() {
            Some(wall - hb * ns())
        } else {
            None
        },
        None => None,
    }
}

/// A persisted state read back, before any gap is accounted for.
pub open spec fn restored(p: Persisted, work: u128, brk: u128) -> TimerModel {
    TimerModel {
        phase: p.phase,
        run: p.run,
        banked: (p.banked_sec * ns()) as u128,
        started_at: match p.started_at_unix {
            Some(s) => Some((s * ns()) as i128),
            None => None,
        },
        ..fresh(work, brk)
    }
}

/// Rebuild a timer from what was persisted, at the readings `(mono, wall)`.
pub open spec fn spec_load(
    saved: Option<Persisted>,
    work: u128,
    brk: u128,
    mono: u128,
    wall: i128,
) -> (TimerModel, Seq<Transition>) {
    match saved {
        None => (fresh(work, brk), Seq::empty()),
        Some(p) => {
            let t = restored(p, work, brk);
            if p.run != RunState::Running {
                (t, Seq::empty())
            } else {
                let gap = restore_gap(p, wall);
                if gap is Some && gap->0 <= RESTORE_TOLERANCE {
                    spec_observe(
                        spec_mark_running(TimerModel { banked: (t.banked + gap->0) as u128, ..t }, mono, wall),
                        mono,
                        wall,
                    )
                } else {
                    let heartbeat = match p.heartbeat_unix {
                        Some(hb) => Some(hb * ns()),
                        None => None,
                    };
                    (
                        spec_invalidate(spec_close(t, Outcome::Invalidated, t.banked as int, heartbeat)),
                        seq![
                            Transition::Invalidated {
                                phase: t.phase,
                                elapsed_sec: p.banked_sec,
                                slept_sec: match gap {
                                    Some(g) => (g / ns()) as u64,
                                    None => 0,
                                },
                            },
                        ],
                    )
                }
            }
        },
    }
}

/// A persisted state whose stamps a `SystemTime` can hold.
pub open spec fn persisted_in_range(p: Persisted) -> bool {
    &&& (p.heartbeat_unix matches Some(hb) ==> hb <= i64::MAX)
    &&& (p.started_at_unix matches Some(s) ==> s <= i64::MAX)
}

/// The pomodoro timer: a state machine driven by a [`Clock`].
pub struct Timer<C: Clock> {
    clock: C,
    phase: Phase,
    run: RunState,
    work: u128,
    brk: u128,
    banked: u128,
    since: Option<Mark>,
    started_at: Option<i128>,
    ended: Vec<Ended>,
    last_persist: Option<u128>,
    dirty: bool,
}

impl<C: Clock> View for Timer<C> {
    type V = TimerModel;

    closed spec fn view(&self) -> TimerModel {
        TimerModel {
            phase: self.phase,
            run: self.run,
            work: self.work,
            brk: self.brk,
            banked: self.banked,
            since: self.since,
            started_at: self.started_at,
            ended: self.ended@,
            last_persist: self.last_persist,
            dirty: self.dirty,
        }
    }
}


impl<C: Clock> Timer<C> {
    /// The clock a timer reads. It is fixed when the timer is built.
    pub closed spec fn clock_of(&self) -> C {
        self.clock
    }

    /// The clock this timer reads.
    pub fn clock(&self) -> (r: &C)
        ensures
            *r == self.clock_of(),
    {
        &self.clock
    }

    fn planned(&self) -> (r: u128)
        ensures
            r == planned(self@),
    {
        match self.phase {
            Phase::Work => self.work,
            Phase::Break => self.brk,
        }
    }

    fn elapsed_at(&self, mono: u128) -> (r: u128)
        requires
            wf(self@),
            mono <= MAX_DURATION_NANOS,
        ensures
            r == elapsed_at(self@, mono),
    {
        match self.since {
            Some(mark) => {
                if self.run == RunState::Running {
                    let d: u128 = if mono >= mark.mono {
                        mono - mark.mono
                    } else {
                        0
                    };
                    self.banked + d
                } else {
                    self.banked
                }
            },
            None => self.banked,
        }
    }

    fn counted_at(&self, mono: u128) -> (r: u128)
        requires
            wf(self@),
            mono <= MAX_DURATION_NANOS,
        ensures
            r == counted_at(self@, mono),
            r <= planned(self@),
    {
        let e = self.elapsed_at(mono);
        let p = self.planned();
        if e <= p {
            e
        } else {
            p
        }
    }

    /// A read-only snapshot at monotonic reading `mono`.
    pub fn state_at(&self, mono: u128) -> (r: TimerState)
        requires
            wf(self@),
            mono <= MAX_DURATION_NANOS,
            reportable(self@, mono),
        ensures
            r == state_at(self@, mono),
    {
        let planned = self.planned();
        let elapsed = self.counted_at(mono);
        let remaining = planned - elapsed;
        let up: u128 = if remaining % NANOS_PER_SEC > 0 {
            1
        } else {
            0
        };
        assert(planned / NANOS_PER_SEC <= u64::MAX);
        assert(remaining / NANOS_PER_SEC + up <= u64::MAX);
        TimerState {
            phase: self.phase,
            run: self.run,
            planned_sec: (planned / NANOS_PER_SEC) as u64,
            elapsed_sec: (elapsed / NANOS_PER_SEC) as u64,
            remaining_sec: (remaining / NANOS_PER_SEC + up) as u64,
        }
    }

    /// A read-only snapshot. Does not detect a finished segment or a suspend;
    /// [`Timer::observe`] does that.
    pub fn state(&self) -> (r: TimerState)
        requires
            wf(self@),
            reportable_now(self@),
        ensures
            exists|mono: u128| mono <= MAX_DURATION_NANOS && r == state_at(self@, mono),
    {
        let mono = self.clock.monotonic();
        proof {
            lemma_reportable_now(self@, mono);
        }
        self.state_at(mono)
    }

    fn mark_running_at(&mut self, mono: u128, wall: i128)
        requires
            readings_ok(mono, wall),
        ensures
            final(self).clock_of() == old(self).clock_of(),
            final(self)@ == spec_mark_running(old(self)@, mono, wall),
    {
        self.run = RunState::Running;
        self.since = Some(Mark { mono, wall });
        self.dirty = true;
    }

    fn invalidate(&mut self)
        ensures
            final(self).clock_of() == old(self).clock_of(),
            final(self)@ == spec_invalidate(old(self)@),
    {
        self.run = RunState::Invalidated;
        self.since = None;
        self.banked = 0;
        self.dirty = true;
    }

    fn close(&mut self, outcome: Outcome, actual: u128, ended_at: Option<i128>)
        requires
            bounded(old(self)@),
            actual <= MAX_DURATION_NANOS,
            ended_at matches Some(e) ==> -3 * MAX_DURATION_NANOS <= e <= 3 * MAX_DURATION_NANOS,
        ensures
            final(self).clock_of() == old(self).clock_of(),
            final(self)@ == spec_close(
                old(self)@,
                outcome,
                actual as int,
                match ended_at {
                    Some(e) => Some(e as int),
                    None => None,
                },
            ),
            bounded(final(self)@),
    {
        let start = match self.started_at {
            Some(s) => s,
            None => return ,
        };
        self.started_at = None;
        self.dirty = true;
        let e: i128 = match ended_at {
            Some(e) => e,
            None => start + actual as i128,
        };
        let planned = self.planned();
        assert(planned / NANOS_PER_SEC <= u64::MAX);
        assert(actual / NANOS_PER_SEC <= u64::MAX);
        let record = Ended {
            phase: self.phase,
            planned_sec: (planned / NANOS_PER_SEC) as u64,
            actual_sec: (actual / NANOS_PER_SEC) as u64,
            started_at: start,
            ended_at: if e >= start {
                e
            } else {
                start
            },
            outcome,
            label: None,
        };
        let ghost before = self.ended@;
        self.ended.push(record);
        assert(forall|i: int|
            0 <= i < self.ended@.len() ==> #[trigger] self.ended@[i].started_at
                <= self.ended@[i].ended_at) by {
            assert(forall|i: int| 0 <= i < before.len() ==> self.ended@[i] == before[i]);
        }
    }

    fn abandon_at(&mut self, mono: u128, wall: i128)
        requires
            wf(old(self)@),
            readings_ok(mono, wall),
        ensures
            final(self).clock_of() == old(self).clock_of(),
            final(self)@ == spec_abandon(old(self)@, mono, wall),
            wf(final(self)@),
    {
        let elapsed = self.counted_at(mono);
        if elapsed / NANOS_PER_SEC == 0 {
            self.started_at = None;
            return ;
        }
        self.close(Outcome::Aborted, elapsed, Some(wall));
    }

    /// Segments that ended since the last call. Empty almost every time.
    pub fn take_ended(&mut self) -> (r: Vec<Ended>)
        requires
            wf(old(self)@),
        ensures
            final(self).clock_of() == old(self).clock_of(),
            r@ == old(self)@.ended,
            final(self)@ == (TimerModel { ended: Seq::empty(), ..old(self)@ }),
            wf(final(self)@),
    {
        let mut out: Vec<Ended> = Vec::new();
        std::mem::swap(&mut out, &mut self.ended);
        out
    }
}


impl<C: Clock> Timer<C> {
    /// Advance the timer to the readings `(mono, wall)`: what just changed.
    fn advance_at(&mut self, mono: u128, wall: i128) -> (r: Vec<Transition>)
        requires
            wf(old(self)@),
            readings_ok(mono, wall),
        ensures
            final(self).clock_of() == old(self).clock_of(),
            final(self)@ == spec_observe(old(self)@, mono, wall).0,
            r@ == spec_observe(old(self)@, mono, wall).1,
            wf(final(self)@),
    {
        if self.run != RunState::Running {
            return Vec::new();
        }
        let mark = match self.since {
            Some(m) => m,
            None => {
                self.mark_running_at(mono, wall);
                return Vec::new();
            },
        };
        let d_mono: u128 = if mono >= mark.mono {
            mono - mark.mono
        } else {
            0
        };
        let d_wall: u128 = if wall >= mark.wall {
            (wall - mark.wall) as u128
        } else {
            0
        };
        if d_wall > d_mono + SLEEP_TOLERANCE {
            let slept = d_wall - d_mono;
            let planned = self.planned();
            let total = self.banked + d_mono;
            let counted = if total < planned {
                total
            } else {
                planned
            };
            let phase = self.phase;
            self.close(Outcome::Invalidated, counted, Some(mark.wall + d_mono as i128));
            self.invalidate();
            let mut v: Vec<Transition> = Vec::new();
            assert(counted / NANOS_PER_SEC <= u64::MAX);
            v.push(
                Transition::Invalidated {
                    phase,
                    elapsed_sec: (counted / NANOS_PER_SEC) as u64,
                    slept_sec: (slept / NANOS_PER_SEC) as u64,
                },
            );
            return v;
        }
        let planned = self.planned();
        if self.banked + d_mono < planned {
            return Vec::new();
        }
        let finished = self.phase;
        self.close(Outcome::Completed, planned, Some(wall));
        let next = finished.next();
        self.phase = next;
        self.banked = 0;
        self.since = None;
        self.dirty = true;
        if next.auto_starts() {
            self.started_at = Some(wall);
            self.mark_running_at(mono, wall);
        } else {
            self.run = RunState::Finished;
        }
        let mut v: Vec<Transition> = Vec::new();
        assert(planned / NANOS_PER_SEC <= u64::MAX);
        v.push(
            Transition::Finished {
                phase: finished,
                next,
                planned_sec: (planned / NANOS_PER_SEC) as u64,
            },
        );
        v
    }

    /// Advance the timer to the readings `(mono, wall)` and report what just
    /// changed.
    pub fn observe_at(&mut self, mono: u128, wall: i128) -> (r: (TimerState, Vec<Transition>))
        requires
            wf(old(self)@),
            readings_ok(mono, wall),
            reportable(spec_observe(old(self)@, mono, wall).0, mono),
        ensures
            final(self).clock_of() == old(self).clock_of(),
            final(self)@ == spec_observe(old(self)@, mono, wall).0,
            r.1@ == spec_observe(old(self)@, mono, wall).1,
            r.0 == state_at(final(self)@, mono),
            wf(final(self)@),
    {
        let v = self.advance_at(mono, wall);
        let s = self.state_at(mono);
        (s, v)
    }

    /// Advance the timer to now and report what just changed.
    pub fn observe(&mut self) -> (r: (TimerState, Vec<Transition>))
        requires
            wf(old(self)@),
            observable(old(self)@),
        ensures
            final(self).clock_of() == old(self).clock_of(),
            exists|mono: u128, wall: i128|
                {
                    &&& readings_ok(mono, wall)
                    &&& final(self)@ == spec_observe(old(self)@, mono, wall).0
                    &&& r.1@ == spec_observe(old(self)@, mono, wall).1
                    &&& r.0 == state_at(final(self)@, mono)
                },
            wf(final(self)@),
    {
        let mono = self.clock.monotonic();
        let wall = self.clock.wall();
        let ghost before = self@;
        proof {
            lemma_observable(before, mono, wall);
        }
        let r = self.observe_at(mono, wall);
        assert(readings_ok(mono, wall) && self@ == spec_observe(before, mono, wall).0);
        r
    }

    /// Start the queued segment from zero at the readings `(mono, wall)`,
    /// abandoning the one under way.
    pub fn start_at(&mut self, mono: u128, wall: i128)
        requires
            wf(old(self)@),
            readings_ok(mono, wall),
        ensures
            final(self).clock_of() == old(self).clock_of(),
            final(self)@ == spec_start(old(self)@, mono, wall),
            wf(final(self)@),
    {
        self.abandon_at(mono, wall);
        self.banked = 0;
        self.started_at = Some(wall);
        self.mark_running_at(mono, wall);
    }

    /// Start the queued segment from zero, abandoning the one under way.
    pub fn start(&mut self)
        requires
            wf(old(self)@),
        ensures
            final(self).clock_of() == old(self).clock_of(),
            exists|mono: u128, wall: i128|
                readings_ok(mono, wall) && final(self)@ == spec_start(old(self)@, mono, wall),
            wf(final(self)@),
    {
        let mono = self.clock.monotonic();
        let wall = self.clock.wall();
        let ghost before = self@;
        self.start_at(mono, wall);
        assert(readings_ok(mono, wall) && self@ == spec_start(before, mono, wall));
    }

    /// Space-bar semantics at the readings `(mono, wall)`: running pauses,
    /// paused resumes, anything else starts afresh.
    pub fn toggle_at(&mut self, mono: u128, wall: i128)
        requires
            wf(old(self)@),
            readings_ok(mono, wall),
        ensures
            final(self).clock_of() == old(self).clock_of(),
            final(self)@ == spec_toggle(old(self)@, mono, wall),
            wf(final(self)@),
    {
        match self.run {
            RunState::Running => {
                self.banked = self.counted_at(mono);
                self.run = RunState::Paused;
                self.since = None;
                self.dirty = true;
            },
            RunState::Paused => self.mark_running_at(mono, wall),
            _ => self.start_at(mono, wall),
        }
    }

    /// Space-bar semantics: running pauses, paused resumes, anything else
    /// starts afresh.
    pub fn toggle(&mut self)
        requires
            wf(old(self)@),
        ensures
            final(self).clock_of() == old(self).clock_of(),
            exists|mono: u128, wall: i128|
                readings_ok(mono, wall) && final(self)@ == spec_toggle(old(self)@, mono, wall),
            wf(final(self)@),
    {
        let mono = self.clock.monotonic();
        let wall = self.clock.wall();
        let ghost before = self@;
        self.toggle_at(mono, wall);
        assert(readings_ok(mono, wall) && self@ == spec_toggle(before, mono, wall));
    }

    /// Back to the top of the current segment, not running, at the readings
    /// `(mono, wall)`.
    pub fn reset_at(&mut self, mono: u128, wall: i128)
        requires
            wf(old(self)@),
            readings_ok(mono, wall),
        ensures
            final(self).clock_of() == old(self).clock_of(),
            final(self)@ == spec_reset(old(self)@, mono, wall),
            wf(final(self)@),
    {
        self.abandon_at(mono, wall);
        self.run = RunState::Idle;
        self.banked = 0;
        self.since = None;
        self.dirty = true;
    }

    /// Back to the top of the current segment, not running.
    pub fn reset(&mut self)
        requires
            wf(old(self)@),
        ensures
            final(self).clock_of() == old(self).clock_of(),
            exists|mono: u128, wall: i128|
                readings_ok(mono, wall) && final(self)@ == spec_reset(old(self)@, mono, wall),
            wf(final(self)@),
    {
        let mono = self.clock.monotonic();
        let wall = self.clock.wall();
        let ghost before = self@;
        self.reset_at(mono, wall);
        assert(readings_ok(mono, wall) && self@ == spec_reset(before, mono, wall));
    }

    pub fn set_durations(&mut self, work: u128, brk: u128)
        requires
            wf(old(self)@),
            work <= MAX_DURATION_NANOS,
            brk <= MAX_DURATION_NANOS,
        ensures
            final(self).clock_of() == old(self).clock_of(),
            final(self)@ == spec_set_durations(old(self)@, work, brk),
            wf(final(self)@),
    {
        self.work = work;
        self.brk = brk;
        self.dirty = true;
    }

    pub fn durations(&self) -> (r: (u128, u128))
        ensures
            r == (self@.work, self@.brk),
    {
        (self.work, self.brk)
    }

    /// True when the state file no longer matches what is in memory at
    /// monotonic reading `mono`.
    pub fn persist_due_at(&self, mono: u128) -> (r: bool)
        ensures
            r == spec_persist_due(self@, mono),
    {
        if self.dirty {
            return true;
        }
        if self.run != RunState::Running {
            return false;
        }
        match self.last_persist {
            None => true,
            Some(at) => {
                let d: u128 = if mono >= at {
                    mono - at
                } else {
                    0
                };
                d >= HEARTBEAT_INTERVAL
            },
        }
    }

    /// True when the state file no longer matches what is in memory: a
    /// change not yet written, or a running timer whose heartbeat is stale.
    pub fn persist_due(&self) -> (r: bool)
        ensures
            exists|mono: u128| mono <= MAX_DURATION_NANOS && r == spec_persist_due(self@, mono),
    {
        let mono = self.clock.monotonic();
        self.persist_due_at(mono)
    }

    /// What a cold start needs, as of the readings `(mono, wall)`.
    pub fn persisted_at(&self, mono: u128, wall: i128) -> (r: Persisted)
        requires
            wf(self@),
            readings_ok(mono, wall),
        ensures
            r == spec_persisted(self@, mono, wall),
    {
        let counted = self.counted_at(mono);
        assert(counted / NANOS_PER_SEC <= u64::MAX);
        let heartbeat_unix = match self.run {
            RunState::Running => {
                if wall >= 0 {
                    assert(wall / (NANOS_PER_SEC as i128) <= u64::MAX);
                    Some((wall / NANOS_PER_SEC as i128) as u64)
                } else {
                    None
                }
            },
            _ => None,
        };
        let started_at_unix = match self.started_at {
            Some(s) => {
                if s >= 0 {
                    assert(s / (NANOS_PER_SEC as i128) <= u64::MAX);
                    Some((s / NANOS_PER_SEC as i128) as u64)
                } else {
                    None
                }
            },
            None => None,
        };
        Persisted {
            phase: self.phase,
            run: self.run,
            banked_sec: (counted / NANOS_PER_SEC) as u64,
            heartbeat_unix,
            started_at_unix,
        }
    }

    /// What a cold start needs, as of now. Write it with `fs_atomic`, then
    /// call [`Timer::mark_persisted`].
    pub fn to_persisted(&self) -> (r: Persisted)
        requires
            wf(self@),
        ensures
            exists|mono: u128, wall: i128|
                readings_ok(mono, wall) && r == spec_persisted(self@, mono, wall),
    {
        let mono = self.clock.monotonic();
        let wall = self.clock.wall();
        let r = self.persisted_at(mono, wall);
        assert(readings_ok(mono, wall) && r == spec_persisted(self@, mono, wall));
        r
    }

    /// Note that the state reached the disk at monotonic reading `mono`.
    pub fn mark_persisted_at(&mut self, mono: u128)
        requires
            wf(old(self)@),
            mono <= MAX_DURATION_NANOS,
        ensures
            final(self).clock_of() == old(self).clock_of(),
            final(self)@ == spec_mark_persisted(old(self)@, mono),
            !spec_persist_due(final(self)@, mono),
            wf(final(self)@),
    {
        self.last_persist = Some(mono);
        self.dirty = false;
    }

    /// Write what a cold start needs, as of now, with `write`, then note
    /// that it reached the disk. A failed write changes nothing and its error
    /// comes back, so the state is still due.
    pub fn persist<W: FnOnce(Persisted) -> Result<(), AppError>>(&mut self, write: W) -> (r: Result<(), AppError>)
        requires
            wf(old(self)@),
            forall|p: Persisted| write.requires((p,)),
        ensures
            final(self).clock_of() == old(self).clock_of(),
            wf(final(self)@),
            exists|mono: u128, wall: i128|
                readings_ok(mono, wall) && write.ensures((spec_persisted(old(self)@, mono, wall),), r),
            r is Err ==> final(self)@ == old(self)@,
            r is Ok ==> exists|after: u128|
                after <= MAX_DURATION_NANOS && final(self)@ == spec_mark_persisted(old(self)@, after)
                    && !spec_persist_due(final(self)@, after),
    {
        let mono = self.clock.monotonic();
        let wall = self.clock.wall();
        let record = self.persisted_at(mono, wall);
        let result = write(record);
        assert(readings_ok(mono, wall) && write.ensures((spec_persisted(old(self)@, mono, wall),), result));
        if result.is_ok() {
            self.mark_persisted();
        }
        result
    }

    /// Note that the state just reached the disk.
    pub fn mark_persisted(&mut self)
        requires
            wf(old(self)@),
        ensures
            final(self).clock_of() == old(self).clock_of(),
            exists|mono: u128|
                mono <= MAX_DURATION_NANOS && final(self)@ == spec_mark_persisted(old(self)@, mono)
                    && !spec_persist_due(final(self)@, mono),
            wf(final(self)@),
    {
        let mono = self.clock.monotonic();
        self.mark_persisted_at(mono);
    }

    /// Rebuild a timer from what was persisted, reporting anything that
    /// happened while the app was not running, at the readings `(mono, wall)`.
    /// `None` (no file, or one that would not parse) starts idle.
    pub fn load_at(
        clock: C,
        saved: Option<Persisted>,
        work: u128,
        brk: u128,
        mono: u128,
        wall: i128,
    ) -> (r: (Timer<C>, Vec<Transition>))
        requires
            work <= MAX_DURATION_NANOS,
            brk <= MAX_DURATION_NANOS,
            readings_ok(mono, wall),
            saved matches Some(p) ==> persisted_in_range(p),
        ensures
            r.0@ == spec_load(saved, work, brk, mono, wall).0,
            r.1@ == spec_load(saved, work, brk, mono, wall).1,
            r.0@.work == work,
            r.0@.brk == brk,
            wf(r.0@),
            r.0.clock_of() == clock,
    {
        let mut timer = Timer {
            clock,
            phase: Phase::Work,
            run: RunState::Idle,
            work,
            brk,
            banked: 0,
            since: None,
            started_at: None,
            ended: Vec::new(),
            last_persist: None,
            dirty: false,
        };
        let p = match saved {
            None => return (timer, Vec::new()),
            Some(p) => p,
        };
        timer.phase = p.phase;
        timer.run = p.run;
        timer.banked = p.banked_sec as u128 * NANOS_PER_SEC;
        timer.started_at = match p.started_at_unix {
            Some(s) => Some(s as i128 * NANOS_PER_SEC as i128),
            None => None,
        };
        if p.run != RunState::Running {
            return (timer, Vec::new());
        }
        let heartbeat: Option<i128> = match p.heartbeat_unix {
            Some(hb) => Some(hb as i128 * NANOS_PER_SEC as i128),
            None => None,
        };
        let gap: Option<u128> = match heartbeat {
            Some(hb) => if wall >= hb {
                Some((wall - hb) as u128)
            } else {
                None
            },
            None => None,
        };
        let resumable = match gap {
            Some(g) => g <= RESTORE_TOLERANCE,
            None => false,
        };
        if !resumable {
            let elapsed_sec = p.banked_sec;
            let phase = timer.phase;
            let banked = timer.banked;
            timer.close(Outcome::Invalidated, banked, heartbeat);
            timer.invalidate();
            let slept_sec: u64 = match gap {
                Some(g) => (g / NANOS_PER_SEC) as u64,
                None => 0,
            };
            let mut v: Vec<Transition> = Vec::new();
            v.push(Transition::Invalidated { phase, elapsed_sec, slept_sec });
            return (timer, v);
        }
        let g = match gap {
            Some(g) => g,
            None => 0,
        };
        timer.banked = timer.banked + g;
        timer.mark_running_at(mono, wall);
        let ghost resumed = timer@;
        let transitions = timer.advance_at(mono, wall);
        proof {
            lemma_lengths_kept(resumed, mono, wall);
        }
        (timer, transitions)
    }

    /// Rebuild a timer from what was persisted, reporting anything that
    /// happened while the app was not running.
    pub fn load(clock: C, saved: Option<Persisted>, work: u128, brk: u128) -> (r: (
        Timer<C>,
        Vec<Transition>,
    ))
        requires
            work <= MAX_DURATION_NANOS,
            brk <= MAX_DURATION_NANOS,
            saved matches Some(p) ==> persisted_in_range(p),
        ensures
            exists|mono: u128, wall: i128|
                {
                    &&& readings_ok(mono, wall)
                    &&& r.0@ == spec_load(saved, work, brk, mono, wall).0
                    &&& r.1@ == spec_load(saved, work, brk, mono, wall).1
                },
            r.0@.work == work,
            r.0@.brk == brk,
            wf(r.0@),
            r.0.clock_of() == clock,
    {
        let mono = clock.monotonic();
        let wall = clock.wall();
        let r = Timer::load_at(clock, saved, work, brk, mono, wall);
        assert(readings_ok(mono, wall) && r.0@ == spec_load(saved, work, brk, mono, wall).0);
        r
    }
}

/// The name of the file the timer parks its state in.
pub const STATE_FILE: &'static str = "timer.json";

/// Where the timer parks its state: machine-local runtime state, not user
/// data, so it lives beside `settings.toml` rather than in the vault.
pub fn state_path(config_dir: &str) -> (r: String)
    ensures
        !verbatim(config_dir@) ==> joined(config_dir@, "timer.json"@, r@),
        ends_with(r@, "timer.json"@),
{
    proof {
        reveal_strlit("timer.json");
        assert(STATE_FILE@.len() == 10);
        assert(plain_component(STATE_FILE@));
    }
    join_path(config_dir, STATE_FILE)
}

} // verus!
