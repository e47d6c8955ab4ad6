//! Turning a window of the vault into lines of text.
//!
//! Output is plain ASCII apart from the user's own text, which always comes
//! last on a line so that no column has to guess how wide a glyph is.

use vstd::prelude::*;

use crate::calendar::blocks::{instant_ok, whole_seconds, NANOS_PER_SEC};
use crate::calendar::CalEvent;
use crate::sessions::Session;
use crate::text::{
    digits, pad_left, pad_right, push_char, push_digits, push_line, push_padded_left, push_padded_right,
    is_whitespace, push_repeat, push_str, push_zero_padded, repeat, trim_end, zero_padded,
};
use crate::path::ends_with;
use crate::timer::{Outcome, Phase};

verus! {

pub const SEC_PER_MINUTE: i64 = 60;

/// "8h15m", "45m", "0m": whole minutes, rounded down, negatives as zero.
pub open spec fn duration_text(total_sec: int) -> Seq<char> {
    let minutes = (if total_sec > 0 {
        total_sec
    } else {
        0
    }) / 60;
    let hours = minutes / 60;
    let rest = minutes % 60;
    if hours == 0 {
        digits(rest as nat) + seq!['m']
    } else {
        digits(hours as nat) + seq!['h'] + zero_padded(rest as nat, 2) + seq!['m']
    }
}

/// "8h15m", "45m", "0m" — a duration at a glance rather than to the second.
///
/// Rounded down to the minute: claiming a minute the user has not finished
/// would be the one direction that flatters.
pub fn format_duration(total_sec: i64) -> (r: String)
    ensures
        r@ == duration_text(total_sec as int),
{
    let clamped: i64 = if total_sec > 0 {
        total_sec
    } else {
        0
    };
    let minutes = clamped / SEC_PER_MINUTE;
    let hours = minutes / 60;
    let rest = minutes % 60;
    let mut out = String::new();
    if hours == 0 {
        push_digits(&mut out, rest as u64);
        push_char(&mut out, 'm');
    } else {
        push_digits(&mut out, hours as u64);
        push_char(&mut out, 'h');
        push_zero_padded(&mut out, rest as u64, 2);
        push_char(&mut out, 'm');
    }
    out
}

/// Monday to Sunday, matching the app's week view.
pub const DAYS_PER_WEEK: usize = 7;

/// The width of one row of the week table: its four columns added up.
pub const WEEK_ROW_WIDTH: usize = 34;

pub open spec fn line_text(text: Seq<char>) -> Seq<char> {
    trim_end(text) + seq!['\n']
}

/// Append one line, without the padding that ran off the end of it: every
/// row pads a column that may be the last thing on the line, and trailing
/// spaces are invisible until they turn up in a diff.
pub fn line(out: &mut String, text: &str)
    ensures
        final(out)@ == old(out)@ + line_text(text@),
{
    push_line(out, text);
}

/// A local calendar date, with its weekday counted from Monday = 0.
#[derive(Debug, Clone, Copy, PartialEq, Eq, Structural)]
pub struct LocalDate {
    pub year: i32,
    pub month: u32,
    pub day: u32,
    pub weekday: u32,
}

/// A stretch of local wall-clock time, as hours and minutes.
#[derive(Debug, Clone, Copy, PartialEq, Eq, Structural)]
pub struct ClockSpan {
    pub start_hour: u32,
    pub start_minute: u32,
    pub end_hour: u32,
    pub end_minute: u32,
}

pub open spec fn date_ok(d: LocalDate) -> bool {
    1 <= d.month <= 12 && 1 <= d.day <= 31 && d.weekday < 7
}

pub open spec fn span_ok(s: ClockSpan) -> bool {
    s.start_hour < 24 && s.start_minute < 60 && s.end_hour < 24 && s.end_minute < 60
}

pub open spec fn month_name(m: u32) -> Seq<char> {
    if m == 1 {
        "January"@
    } else if m == 2 {
        "February"@
    } else if m == 3 {
        "March"@
    } else if m == 4 {
        "April"@
    } else if m == 5 {
        "May"@
    } else if m == 6 {
        "June"@
    } else if m == 7 {
        "July"@
    } else if m == 8 {
        "August"@
    } else if m == 9 {
        "September"@
    } else if m == 10 {
        "October"@
    } else if m == 11 {
        "November"@
    } else {
        "December"@
    }
}

pub open spec fn weekday_name(w: u32) -> Seq<char> {
    if w == 0 {
        "Monday"@
    } else if w == 1 {
        "Tuesday"@
    } else if w == 2 {
        "Wednesday"@
    } else if w == 3 {
        "Thursday"@
    } else if w == 4 {
        "Friday"@
    } else if w == 5 {
        "Saturday"@
    } else {
        "Sunday"@
    }
}

/// The first three letters of the weekday's name.
pub open spec fn weekday_abbrev(w: u32) -> Seq<char> {
    weekday_name(w).subrange(0, 3)
}

fn month_name_str(m: u32) -> (r: &'static str)
    ensures
        r@ == month_name(m),
{
    if m == 1 {
        "January"
    } else if m == 2 {
        "February"
    } else if m == 3 {
        "March"
    } else if m == 4 {
        "April"
    } else if m == 5 {
        "May"
    } else if m == 6 {
        "June"
    } else if m == 7 {
        "July"
    } else if m == 8 {
        "August"
    } else if m == 9 {
        "September"
    } else if m == 10 {
        "October"
    } else if m == 11 {
        "November"
    } else {
        "December"
    }
}

fn weekday_name_str(w: u32) -> (r: &'static str)
    ensures
        r@ == weekday_name(w),
{
    if w == 0 {
        "Monday"
    } else if w == 1 {
        "Tuesday"
    } else if w == 2 {
        "Wednesday"
    } else if w == 3 {
        "Thursday"
    } else if w == 4 {
        "Friday"
    } else if w == 5 {
        "Saturday"
    } else {
        "Sunday"
    }
}

fn weekday_abbrev_str(w: u32) -> (r: &'static str)
    ensures
        r@ == weekday_abbrev(w),
{
    proof {
        reveal_strlit("Monday");
        reveal_strlit("Tuesday");
        reveal_strlit("Wednesday");
        reveal_strlit("Thursday");
        reveal_strlit("Friday");
        reveal_strlit("Saturday");
        reveal_strlit("Sunday");
        reveal_strlit("Mon");
        reveal_strlit("Tue");
        reveal_strlit("Wed");
        reveal_strlit("Thu");
        reveal_strlit("Fri");
        reveal_strlit("Sat");
        reveal_strlit("Sun");
    }
    let r = if w == 0 {
        "Mon"
    } else if w == 1 {
        "Tue"
    } else if w == 2 {
        "Wed"
    } else if w == 3 {
        "Thu"
    } else if w == 4 {
        "Fri"
    } else if w == 5 {
        "Sat"
    } else {
        "Sun"
    };
    assert(r@ =~= weekday_abbrev(w));
    r
}

/// The year as `%Y` writes it: four digits at least, and a sign outside
/// 0..=9999.
pub open spec fn year_text(y: int) -> Seq<char> {
    if 0 <= y <= 9999 {
        zero_padded(y as nat, 4)
    } else if y > 9999 {
        seq!['+'] + zero_padded(y as nat, 4)
    } else {
        seq!['-'] + zero_padded((-y) as nat, 4)
    }
}

fn push_year(out: &mut String, y: i32)
    ensures
        final(out)@ == old(out)@ + year_text(y as int),
{
    if 0 <= y && y <= 9999 {
        push_zero_padded(out, y as u64, 4);
    } else if y > 9999 {
        push_char(out, '+');
        push_zero_padded(out, y as u64, 4);
    } else {
        push_char(out, '-');
        push_zero_padded(out, (-(y as i64)) as u64, 4);
    }
}

/// "Sunday, 16 August 2026".
pub open spec fn date_heading(d: LocalDate) -> Seq<char> {
    weekday_name(d.weekday) + ", "@ + digits(d.day as nat) + " "@ + month_name(d.month) + " "@ + year_text(
        d.year as int,
    )
}

/// "16 August", and "16 August 2026" with the year.
pub open spec fn day_month(d: LocalDate) -> Seq<char> {
    digits(d.day as nat) + " "@ + month_name(d.month)
}

pub open spec fn day_month_year(d: LocalDate) -> Seq<char> {
    day_month(d) + " "@ + year_text(d.year as int)
}

fn push_day_month(out: &mut String, d: LocalDate, with_year: bool)
    ensures
        final(out)@ == old(out)@ + if with_year {
            day_month_year(d)
        } else {
            day_month(d)
        },
{
    push_digits(out, d.day as u64);
    push_char(out, ' ');
    push_str(out, month_name_str(d.month));
    if with_year {
        push_char(out, ' ');
        push_year(out, d.year);
    }
    proof {
        reveal_strlit(" ");
    }
}

/// "09:05-09:30".
pub open spec fn span_text(s: ClockSpan) -> Seq<char> {
    zero_padded(s.start_hour as nat, 2) + seq![':'] + zero_padded(s.start_minute as nat, 2) + seq!['-']
        + zero_padded(s.end_hour as nat, 2) + seq![':'] + zero_padded(s.end_minute as nat, 2)
}

fn format_span(s: ClockSpan) -> (r: String)
    ensures
        r@ == span_text(s),
{
    let mut out = String::new();
    push_zero_padded(&mut out, s.start_hour as u64, 2);
    push_char(&mut out, ':');
    push_zero_padded(&mut out, s.start_minute as u64, 2);
    push_char(&mut out, '-');
    push_zero_padded(&mut out, s.end_hour as u64, 2);
    push_char(&mut out, ':');
    push_zero_padded(&mut out, s.end_minute as u64, 2);
    assert(out@ =~= span_text(s));
    out
}

/// Work only, since a break is not focus, and never an invalidated segment:
/// the app has said it cannot vouch for that stretch.
pub open spec fn focus(s: Session) -> bool {
    s.kind == Phase::Work && s.outcome != Outcome::Invalidated
}

/// Does this session count towards time actually spent focusing?
pub fn is_focus(session: &Session) -> (r: bool)
    ensures
        r == focus(*session),
{
    session.kind == Phase::Work && session.outcome != Outcome::Invalidated
}

pub open spec fn secs(t: int) -> int {
    t / (NANOS_PER_SEC as int)
}

/// Whole seconds of `[start, end)` inside `[from, to)`, each end read in
/// whole seconds.
pub open spec fn overlap(start: int, end: int, from: int, to: int) -> int {
    let low = if secs(start) > secs(from) {
        secs(start)
    } else {
        secs(from)
    };
    let high = if secs(end) < secs(to) {
        secs(end)
    } else {
        secs(to)
    };
    if high > low {
        high - low
    } else {
        0
    }
}

/// Planned seconds inside the window: each timed block clipped to it, since
/// an event may run for three days and only the part inside was planned for
/// it. All-day events are left out; a single one would add a day and drown
/// every real block beside it.
pub open spec fn planned_total(events: Seq<CalEvent>, from: int, to: int) -> int
    decreases events.len(),
{
    if events.len() == 0 {
        0
    } else {
        let e = events.last();
        planned_total(events.drop_last(), from, to) + if e.all_day {
            0
        } else {
            overlap(e.start as int, e.end as int, from, to)
        }
    }
}

/// A session counts whole when it started inside the window: `actual_sec` is
/// counted time, and a paused segment does not spread it evenly over the
/// wall clock.
pub open spec fn counts(s: Session, from: int, to: int) -> bool {
    focus(s) && from <= s.started_at.at < to
}

pub open spec fn focused_total(sessions: Seq<Session>, from: int, to: int) -> int
    decreases sessions.len(),
{
    if sessions.len() == 0 {
        0
    } else {
        let s = sessions.last();
        focused_total(sessions.drop_last(), from, to) + if counts(s, from, to) {
            s.actual_sec as int
        } else {
            0
        }
    }
}

/// One window's totals, in seconds. The completion rate, `focused_sec /
/// planned_sec`, is a float and is worked out by the caller.
#[derive(Debug, Clone, Copy, PartialEq, Eq, Structural)]
pub struct Summary {
    pub planned_sec: i64,
    pub focused_sec: i64,
}

pub open spec fn events_ok(events: Seq<CalEvent>) -> bool {
    forall|i: int| 0 <= i < events.len() ==> instant_ok((#[trigger] events[i]).start as int) && instant_ok(
        events[i].end as int,
    )
}

/// Totals that fit the counters they are kept in.
pub open spec fn totals_fit(events: Seq<CalEvent>, sessions: Seq<Session>, from: int, to: int) -> bool {
    planned_total(events, from, to) <= i64::MAX && focused_total(sessions, from, to) <= i64::MAX
}

proof fn lemma_totals_grow(events: Seq<CalEvent>, sessions: Seq<Session>, from: int, to: int)
    ensures
        planned_total(events, from, to) >= 0,
        focused_total(sessions, from, to) >= 0,
        events.len() > 0 ==> planned_total(events.drop_last(), from, to) <= planned_total(events, from, to),
        sessions.len() > 0 ==> focused_total(sessions.drop_last(), from, to) <= focused_total(sessions, from, to),
    decreases events.len() + sessions.len(),
{
    if events.len() > 0 {
        lemma_totals_grow(events.drop_last(), sessions, from, to);
    }
    if sessions.len() > 0 {
        lemma_totals_grow(events, sessions.drop_last(), from, to);
    }
}

/// Add up one window, `[from, to)` in nanoseconds since the Unix epoch.
pub fn summarise(events: &Vec<CalEvent>, sessions: &Vec<Session>, from: i128, to: i128) -> (r: Summary)
    requires
        events_ok(events@),
        instant_ok(from as int),
        instant_ok(to as int),
        totals_fit(events@, sessions@, from as int, to as int),
    ensures
        r.planned_sec == planned_total(events@, from as int, to as int),
        r.focused_sec == focused_total(sessions@, from as int, to as int),
{
    let f = whole_seconds(from);
    let t = whole_seconds(to);
    let mut planned: i128 = 0;
    let mut i: usize = 0;
    while i < events.len()
        invariant
            i <= events@.len(),
            events_ok(events@),
            f == secs(from as int),
            t == secs(to as int),
            totals_fit(events@, sessions@, from as int, to as int),
            planned == planned_total(events@.subrange(0, i as int), from as int, to as int),
        decreases events@.len() - i,
    {
        let e = &events[i];
        proof {
            assert(events@.subrange(0, i + 1).drop_last() =~= events@.subrange(0, i as int));
            lemma_prefix_totals(events@, sessions@, i + 1, 0, from as int, to as int);
            lemma_totals_grow(events@.subrange(0, i + 1), sessions@, from as int, to as int);
        }
        if !e.all_day {
            let s = whole_seconds(e.start);
            let en = whole_seconds(e.end);
            let low = if s > f {
                s
            } else {
                f
            };
            let high = if en < t {
                en
            } else {
                t
            };
            if high > low {
                planned = planned + (high - low);
            }
        }
        i = i + 1;
    }
    assert(events@.subrange(0, i as int) =~= events@);
    let mut focused: i128 = 0;
    let mut k: usize = 0;
    while k < sessions.len()
        invariant
            k <= sessions@.len(),
            totals_fit(events@, sessions@, from as int, to as int),
            focused == focused_total(sessions@.subrange(0, k as int), from as int, to as int),
        decreases sessions@.len() - k,
    {
        let s = &sessions[k];
        proof {
            assert(sessions@.subrange(0, k + 1).drop_last() =~= sessions@.subrange(0, k as int));
            lemma_prefix_totals(events@, sessions@, 0, k + 1, from as int, to as int);
            lemma_totals_grow(events@, sessions@.subrange(0, k + 1), from as int, to as int);
        }
        if is_focus(s) && from <= s.started_at.at && s.started_at.at < to {
            focused = focused + s.actual_sec as i128;
        }
        k = k + 1;
    }
    assert(sessions@.subrange(0, k as int) =~= sessions@);
    proof {
        lemma_totals_grow(events@, sessions@, from as int, to as int);
    }
    Summary { planned_sec: planned as i64, focused_sec: focused as i64 }
}

/// A prefix never adds up to more than the whole.
proof fn lemma_prefix_totals(events: Seq<CalEvent>, sessions: Seq<Session>, n: int, m: int, from: int, to: int)
    requires
        0 <= n <= events.len(),
        0 <= m <= sessions.len(),
    ensures
        planned_total(events.subrange(0, n), from, to) <= planned_total(events, from, to),
        focused_total(sessions.subrange(0, m), from, to) <= focused_total(sessions, from, to),
    decreases events.len() + sessions.len(),
{
    if n < events.len() {
        lemma_totals_grow(events, sessions, from, to);
        assert(events.drop_last().subrange(0, n) =~= events.subrange(0, n));
        lemma_prefix_totals(events.drop_last(), sessions, n, m, from, to);
    } else {
        assert(events.subrange(0, n) =~= events);
    }
    if m < sessions.len() {
        lemma_totals_grow(events, sessions, from, to);
        assert(sessions.drop_last().subrange(0, m) =~= sessions.subrange(0, m));
        lemma_prefix_totals(events, sessions.drop_last(), n, m, from, to);
    } else {
        assert(sessions.subrange(0, m) =~= sessions);
    }
}

proof fn lemma_secs_bound(t: int)
    requires
        instant_ok(t),
    ensures
        -4_000_000_000_000_000_000 <= secs(t) <= 4_000_000_000_000_000_000,
{
    assert(-4_000_000_000_000_000_000 <= t / 1_000_000_000int <= 4_000_000_000_000_000_000) by (nonlinear_arith)
        requires
            -4_000_000_000_000_000_000_000_000_000 <= t <= 4_000_000_000_000_000_000_000_000_000,
    ;
}

/// Whole seconds never go backwards.
proof fn lemma_secs_monotone(a: int, b: int)
    requires
        a <= b,
    ensures
        secs(a) <= secs(b),
{
    vstd::arithmetic::div_mod::lemma_div_is_ordered(a, b, NANOS_PER_SEC as int);
}

/// Splitting a window at any instant inside it splits its totals: what was
/// planned for, and focused on in, `[from, to)` is what was planned and
/// focused in `[from, mid)` plus `[mid, to)`. This is why a week's total row
/// is the sum of its days.
pub proof fn totals_over_adjacent_windows_add_up(
    events: Seq<CalEvent>,
    sessions: Seq<Session>,
    from: int,
    mid: int,
    to: int,
)
    requires
        from <= mid <= to,
    ensures
        planned_total(events, from, to) == planned_total(events, from, mid) + planned_total(events, mid, to),
        focused_total(sessions, from, to) == focused_total(sessions, from, mid) + focused_total(sessions, mid, to),
    decreases events.len() + sessions.len(),
{
    lemma_secs_monotone(from, mid);
    lemma_secs_monotone(mid, to);
    if events.len() > 0 {
        totals_over_adjacent_windows_add_up(events.drop_last(), sessions, from, mid, to);
    }
    if sessions.len() > 0 {
        totals_over_adjacent_windows_add_up(events, sessions.drop_last(), from, mid, to);
    }
}

/// "planned 2h30m | focused 58m | 39%", with the completion rate as the
/// caller worked it out.
pub open spec fn summary_line_text(summary: Summary, ratio: Seq<char>) -> Seq<char> {
    "planned "@ + duration_text(summary.planned_sec as int) + " | focused "@ + duration_text(
        summary.focused_sec as int,
    ) + " | "@ + ratio
}

pub fn summary_line(summary: &Summary, ratio: &str) -> (r: String)
    ensures
        r@ == summary_line_text(*summary, ratio@),
{
    let mut out = String::new();
    push_str(&mut out, "planned ");
    push_str(&mut out, format_duration(summary.planned_sec).as_str());
    push_str(&mut out, " | focused ");
    push_str(&mut out, format_duration(summary.focused_sec).as_str());
    push_str(&mut out, " | ");
    push_str(&mut out, ratio);
    out
}

pub open spec fn report_outcome_word(outcome: Outcome) -> Seq<char> {
    match outcome {
        Outcome::Completed => "completed"@,
        Outcome::Aborted => "aborted"@,
        Outcome::Invalidated => "invalidated"@,
    }
}

/// How a segment ended, in the width the column reserves.
fn outcome_word(outcome: Outcome) -> (r: &'static str)
    ensures
        r@ == report_outcome_word(outcome),
{
    match outcome {
        Outcome::Completed => "completed",
        Outcome::Aborted => "aborted",
        Outcome::Invalidated => "invalidated",
    }
}

pub open spec fn report_phase_word(phase: Phase) -> Seq<char> {
    match phase {
        Phase::Work => "work"@,
        Phase::Break => "break"@,
    }
}

fn phase_word(phase: Phase) -> (r: &'static str)
    ensures
        r@ == report_phase_word(phase),
{
    match phase {
        Phase::Work => "work",
        Phase::Break => "break",
    }
}

/// A planned block: its local span and length, then its summary. An all-day
/// event is a label on the day, with no span and no length.
pub open spec fn event_row(e: CalEvent, span: ClockSpan) -> Seq<char> {
    if e.all_day {
        "  "@ + pad_right("all day"@, 11) + "  "@ + pad_left(Seq::empty(), 6) + "  "@ + e.summary@
    } else {
        "  "@ + pad_right(span_text(span), 11) + "  "@ + pad_left(
            duration_text(secs(e.end as int) - secs(e.start as int)),
            6,
        ) + "  "@ + e.summary@
    }
}

pub open spec fn label_text(label: Option<String>) -> Seq<char> {
    match label {
        Some(l) => l@,
        None => Seq::empty(),
    }
}

/// A session: its local span, counted length, kind and outcome, then its
/// label.
pub open spec fn session_row(s: Session, span: ClockSpan) -> Seq<char> {
    "  "@ + pad_right(span_text(span), 11) + "  "@ + pad_left(duration_text((s.actual_sec as i64) as int), 6)
        + "  "@ + pad_right(report_phase_word(s.kind), 5) + "  "@ + pad_right(report_outcome_word(s.outcome), 11)
        + "  "@ + label_text(s.label)
}

pub open spec fn event_rows(events: Seq<CalEvent>, spans: Seq<ClockSpan>) -> Seq<char>
    decreases events.len(),
{
    if events.len() == 0 {
        Seq::empty()
    } else {
        event_rows(events.drop_last(), spans.drop_last()) + line_text(event_row(events.last(), spans.last()))
    }
}

pub open spec fn session_rows(sessions: Seq<Session>, spans: Seq<ClockSpan>) -> Seq<char>
    decreases sessions.len(),
{
    if sessions.len() == 0 {
        Seq::empty()
    } else {
        session_rows(sessions.drop_last(), spans.drop_last()) + line_text(
            session_row(sessions.last(), spans.last()),
        )
    }
}

pub open spec fn none_if_empty(n: nat) -> Seq<char> {
    if n == 0 {
        line_text("  (none)"@)
    } else {
        Seq::empty()
    }
}

pub open spec fn totals(events: Seq<CalEvent>, sessions: Seq<Session>, from: int, to: int) -> Summary {
    Summary {
        planned_sec: planned_total(events, from, to) as i64,
        focused_sec: focused_total(sessions, from, to) as i64,
    }
}

/// One day in full: what was planned, what actually ran, and the totals.
pub open spec fn day_text(
    events: Seq<CalEvent>,
    event_spans: Seq<ClockSpan>,
    sessions: Seq<Session>,
    session_spans: Seq<ClockSpan>,
    date: LocalDate,
    from: int,
    to: int,
    ratio: Seq<char>,
) -> Seq<char> {
    line_text(date_heading(date)) + "\n"@ + line_text("Planned"@) + none_if_empty(events.len()) + event_rows(
        events,
        event_spans,
    ) + "\n"@ + line_text("Focus"@) + none_if_empty(sessions.len()) + session_rows(sessions, session_spans)
        + "\n"@ + line_text(summary_line_text(totals(events, sessions, from, to), ratio))
}

/// One day in full. `event_spans[i]` and `session_spans[i]` are the local
/// wall-clock spans of the `i`th event and session, `date` the day `from`
/// falls on, and `ratio` the completion rate of `[from, to)` as text.
pub fn day(
    events: &Vec<CalEvent>,
    event_spans: &Vec<ClockSpan>,
    sessions: &Vec<Session>,
    session_spans: &Vec<ClockSpan>,
    date: LocalDate,
    from: i128,
    to: i128,
    ratio: &str,
) -> (r: String)
    requires
        event_spans@.len() == events@.len(),
        session_spans@.len() == sessions@.len(),
        events_ok(events@),
        instant_ok(from as int),
        instant_ok(to as int),
        totals_fit(events@, sessions@, from as int, to as int),
    ensures
        r@ == day_text(events@, event_spans@, sessions@, session_spans@, date, from as int, to as int, ratio@),
{
    let mut out = String::new();
    let mut heading = String::new();
    push_str(&mut heading, weekday_name_str(date.weekday));
    push_str(&mut heading, ", ");
    push_day_month(&mut heading, date, true);
    assert(heading@ =~= date_heading(date));
    line(&mut out, heading.as_str());
    push_char(&mut out, '\n');
    line(&mut out, "Planned");
    if events.len() == 0 {
        line(&mut out, "  (none)");
    }
    let ghost head = out@;
    let mut i: usize = 0;
    while i < events.len()
        invariant
            i <= events@.len(),
            event_spans@.len() == events@.len(),
            events_ok(events@),
            out@ == head + event_rows(events@.subrange(0, i as int), event_spans@.subrange(0, i as int)),
        decreases events@.len() - i,
    {
        let e = &events[i];
        let mut row = String::new();
        proof {
            reveal_strlit("");
            reveal_strlit("  ");
            reveal_strlit("all day");
        }
        push_str(&mut row, "  ");
        if e.all_day {
            push_padded_right(&mut row, "all day", 11);
            push_str(&mut row, "  ");
            push_padded_left(&mut row, "", 6);
        } else {
            push_padded_right(&mut row, format_span(event_spans[i]).as_str(), 11);
            push_str(&mut row, "  ");
            proof {
                lemma_secs_bound(e.end as int);
                lemma_secs_bound(e.start as int);
            }
            let length = whole_seconds(e.end) - whole_seconds(e.start);
            push_padded_left(&mut row, format_duration(length as i64).as_str(), 6);
        }
        push_str(&mut row, "  ");
        push_str(&mut row, e.summary.as_str());
        assert(row@ =~= event_row(*e, event_spans@[i as int]));
        line(&mut out, row.as_str());
        proof {
            assert(events@.subrange(0, i + 1).drop_last() =~= events@.subrange(0, i as int));
            assert(event_spans@.subrange(0, i + 1).drop_last() =~= event_spans@.subrange(0, i as int));
        }
        i = i + 1;
    }
    assert(events@.subrange(0, i as int) =~= events@);
    assert(event_spans@.subrange(0, i as int) =~= event_spans@);
    push_char(&mut out, '\n');
    line(&mut out, "Focus");
    if sessions.len() == 0 {
        line(&mut out, "  (none)");
    }
    let ghost mid = out@;
    let mut k: usize = 0;
    while k < sessions.len()
        invariant
            k <= sessions@.len(),
            session_spans@.len() == sessions@.len(),
            out@ == mid + session_rows(sessions@.subrange(0, k as int), session_spans@.subrange(0, k as int)),
        decreases sessions@.len() - k,
    {
        let s = &sessions[k];
        let mut row = String::new();
        push_str(&mut row, "  ");
        push_padded_right(&mut row, format_span(session_spans[k]).as_str(), 11);
        push_str(&mut row, "  ");
        push_padded_left(&mut row, format_duration(s.actual_sec as i64).as_str(), 6);
        push_str(&mut row, "  ");
        push_padded_right(&mut row, phase_word(s.kind), 5);
        push_str(&mut row, "  ");
        push_padded_right(&mut row, outcome_word(s.outcome), 11);
        push_str(&mut row, "  ");
        match &s.label {
            Some(l) => push_str(&mut row, l.as_str()),
            None => {},
        }
        assert(row@ =~= session_row(*s, session_spans@[k as int]));
        line(&mut out, row.as_str());
        proof {
            assert(sessions@.subrange(0, k + 1).drop_last() =~= sessions@.subrange(0, k as int));
            assert(session_spans@.subrange(0, k + 1).drop_last() =~= session_spans@.subrange(0, k as int));
        }
        k = k + 1;
    }
    assert(sessions@.subrange(0, k as int) =~= sessions@);
    assert(session_spans@.subrange(0, k as int) =~= session_spans@);
    push_char(&mut out, '\n');
    let totals = summarise(events, sessions, from, to);
    line(&mut out, summary_line(&totals, ratio).as_str());
    proof {
        reveal_strlit("\n");
        reveal_strlit("  (none)");
    }
    assert(out@ =~= day_text(events@, event_spans@, sessions@, session_spans@, date, from as int, to as int, ratio@));
    out
}

/// "Week of 10-16 August 2026", widening only as far as the dates force it:
/// `first` is the Monday and `last` the Sunday, not the exclusive end of the
/// window, which would name the wrong day and at the turn of a month the
/// wrong month.
pub open spec fn week_title_text(first: LocalDate, last: LocalDate) -> Seq<char> {
    if first.year == last.year && first.month == last.month {
        "Week of "@ + digits(first.day as nat) + "-"@ + day_month_year(last)
    } else if first.year == last.year {
        "Week of "@ + day_month(first) + " - "@ + day_month_year(last)
    } else {
        "Week of "@ + day_month_year(first) + " - "@ + day_month_year(last)
    }
}

/// The title of the week whose days are `days`, Monday first.
pub fn week_title(days: &Vec<LocalDate>) -> (r: String)
    requires
        days@.len() >= DAYS_PER_WEEK,
    ensures
        r@ == week_title_text(days@[0], days@[DAYS_PER_WEEK - 1]),
{
    let first = days[0];
    let last = days[DAYS_PER_WEEK - 1];
    let mut out = String::new();
    push_str(&mut out, "Week of ");
    if first.year == last.year && first.month == last.month {
        push_digits(&mut out, first.day as u64);
        push_char(&mut out, '-');
        push_day_month(&mut out, last, true);
        proof {
            reveal_strlit("-");
        }
    } else if first.year == last.year {
        push_day_month(&mut out, first, false);
        push_str(&mut out, " - ");
        push_day_month(&mut out, last, true);
    } else {
        push_day_month(&mut out, first, true);
        push_str(&mut out, " - ");
        push_day_month(&mut out, last, true);
    }
    assert(out@ =~= week_title_text(first, last));
    out
}

/// A row of the week table: a label, then three right-aligned columns.
pub open spec fn week_row(label: Seq<char>, planned: Seq<char>, focused: Seq<char>, ratio: Seq<char>) -> Seq<char> {
    "  "@ + pad_right(label, 7) + pad_left(planned, 9) + pad_left(focused, 10) + pad_left(ratio, 8)
}

fn push_week_row(out: &mut String, label: &str, planned: &str, focused: &str, ratio: &str)
    ensures
        final(out)@ == old(out)@ + line_text(week_row(label@, planned@, focused@, ratio@)),
{
    let mut row = String::new();
    push_str(&mut row, "  ");
    push_padded_right(&mut row, label, 7);
    push_padded_left(&mut row, planned, 9);
    push_padded_left(&mut row, focused, 10);
    push_padded_left(&mut row, ratio, 8);
    proof {
        reveal_strlit("  ");
    }
    assert(row@ =~= week_row(label@, planned@, focused@, ratio@));
    line(out, row.as_str());
}

/// "Mon 10".
pub open spec fn day_label(d: LocalDate) -> Seq<char> {
    weekday_abbrev(d.weekday) + " "@ + digits(d.day as nat)
}

pub open spec fn day_row(events: Seq<CalEvent>, sessions: Seq<Session>, starts: Seq<i128>, dates: Seq<LocalDate>, ratios: Seq<String>, i: int) -> Seq<char> {
    let t = totals(events, sessions, starts[i] as int, starts[i + 1] as int);
    line_text(week_row(day_label(dates[i]), duration_text(t.planned_sec as int), duration_text(t.focused_sec as int), ratios[i]@))
}

pub open spec fn day_rows(events: Seq<CalEvent>, sessions: Seq<Session>, starts: Seq<i128>, dates: Seq<LocalDate>, ratios: Seq<String>, n: nat) -> Seq<char>
    decreases n,
{
    if n == 0 {
        Seq::empty()
    } else {
        day_rows(events, sessions, starts, dates, ratios, (n - 1) as nat) + day_row(events, sessions, starts, dates, ratios, n - 1)
    }
}

/// One row per day, then the week's own total: an overview rather than a
/// listing.
pub open spec fn week_text(events: Seq<CalEvent>, sessions: Seq<Session>, starts: Seq<i128>, dates: Seq<LocalDate>, ratios: Seq<String>) -> Seq<char> {
    let t = totals(events, sessions, starts[0] as int, starts[7] as int);
    line_text(week_title_text(dates[0], dates[6])) + "\n"@ + line_text(week_row(Seq::empty(), "planned"@, "focused"@, "ratio"@))
        + day_rows(events, sessions, starts, dates, ratios, 7) + line_text("  "@ + repeat('-', 34))
        + line_text(week_row("Total"@, duration_text(t.planned_sec as int), duration_text(t.focused_sec as int), ratios[7]@))
}

/// The week table. `starts` holds the local midnights from Monday to the
/// next Monday, `dates` the days they begin, and `ratios` each day's
/// completion rate as text, then the week's.
pub fn week(
    events: &Vec<CalEvent>,
    sessions: &Vec<Session>,
    starts: &Vec<i128>,
    dates: &Vec<LocalDate>,
    ratios: &Vec<String>,
) -> (r: String)
    requires
        starts@.len() == DAYS_PER_WEEK + 1,
        dates@.len() >= DAYS_PER_WEEK,
        ratios@.len() == DAYS_PER_WEEK + 1,
        events_ok(events@),
        forall|i: int| 0 <= i < starts@.len() ==> instant_ok(#[trigger] starts@[i] as int),
        forall|i: int| 0 <= i < DAYS_PER_WEEK ==> totals_fit(events@, sessions@, #[trigger] starts@[i] as int, starts@[i + 1] as int),
        totals_fit(events@, sessions@, starts@[0] as int, starts@[7] as int),
    ensures
        r@ == week_text(events@, sessions@, starts@, dates@, ratios@),
{
    let mut out = String::new();
    let title = week_title(dates);
    line(&mut out, title.as_str());
    push_char(&mut out, '\n');
    push_week_row(&mut out, "", "planned", "focused", "ratio");
    let ghost head = out@;
    let mut i: usize = 0;
    while i < DAYS_PER_WEEK
        invariant
            i <= DAYS_PER_WEEK,
            starts@.len() == DAYS_PER_WEEK + 1,
            dates@.len() >= DAYS_PER_WEEK,
            ratios@.len() == DAYS_PER_WEEK + 1,
            events_ok(events@),
            forall|k: int| 0 <= k < starts@.len() ==> instant_ok(#[trigger] starts@[k] as int),
            forall|k: int| 0 <= k < DAYS_PER_WEEK ==> totals_fit(events@, sessions@, #[trigger] starts@[k] as int, starts@[k + 1] as int),
            out@ == head + day_rows(events@, sessions@, starts@, dates@, ratios@, i as nat),
        decreases DAYS_PER_WEEK - i,
    {
        let summary = summarise(events, sessions, starts[i], starts[i + 1]);
        let d = dates[i];
        let mut label = String::new();
        push_str(&mut label, weekday_abbrev_str(d.weekday));
        push_char(&mut label, ' ');
        push_digits(&mut label, d.day as u64);
        proof {
            reveal_strlit(" ");
        }
        assert(label@ =~= day_label(d));
        push_week_row(
            &mut out,
            label.as_str(),
            format_duration(summary.planned_sec).as_str(),
            format_duration(summary.focused_sec).as_str(),
            ratios[i].as_str(),
        );
        i = i + 1;
    }
    let total = summarise(events, sessions, starts[0], starts[DAYS_PER_WEEK]);
    let mut rule = String::new();
    push_str(&mut rule, "  ");
    push_repeat(&mut rule, '-', WEEK_ROW_WIDTH);
    line(&mut out, rule.as_str());
    push_week_row(
        &mut out,
        "Total",
        format_duration(total.planned_sec).as_str(),
        format_duration(total.focused_sec).as_str(),
        ratios[DAYS_PER_WEEK].as_str(),
    );
    proof {
        reveal_strlit("");
        reveal_strlit("\n");
    }
    assert(out@ =~= week_text(events@, sessions@, starts@, dates@, ratios@));
    out
}

/// No character of `s` breaks a line.
pub open spec fn single_line(s: Seq<char>) -> bool {
    forall|i: int| 0 <= i < s.len() ==> s[i] != '\n'
}

/// `t` is whole lines: it ends in a line break, unless empty, and no line
/// has whitespace before its break.
pub open spec fn lines_trimmed(t: Seq<char>) -> bool {
    &&& (t.len() == 0 || t.last() == '\n')
    &&& forall|i: int| 0 < i < t.len() && #[trigger] t[i] == '\n' ==> t[i - 1] == '\n' || !is_whitespace(t[i - 1])
}

proof fn lemma_trim_end_prefix(s: Seq<char>)
    ensures
        trim_end(s).len() <= s.len(),
        trim_end(s) == s.subrange(0, trim_end(s).len() as int),
        trim_end(s).len() > 0 ==> !is_whitespace(trim_end(s).last()),
    decreases s.len(),
{
    if s.len() > 0 && is_whitespace(s.last()) {
        lemma_trim_end_prefix(s.drop_last());
        assert(s.drop_last().subrange(0, trim_end(s).len() as int) =~= s.subrange(0, trim_end(s).len() as int));
    } else {
        assert(s.subrange(0, s.len() as int) =~= s);
    }
}

proof fn lemma_line_text(x: Seq<char>)
    requires
        single_line(x),
    ensures
        lines_trimmed(line_text(x)),
{
    lemma_trim_end_prefix(x);
    let p = trim_end(x);
    let t = line_text(x);
    assert forall|i: int| 0 < i < t.len() && #[trigger] t[i] == '\n' implies t[i - 1] == '\n' || !is_whitespace(
        t[i - 1],
    ) by {
        if i < p.len() {
            assert(t[i] == p[i] && p[i] == x[i]);
        } else {
            assert(t[i - 1] == p.last());
        }
    }
}

proof fn lemma_lines_concat(a: Seq<char>, b: Seq<char>)
    requires
        lines_trimmed(a),
        lines_trimmed(b),
    ensures
        lines_trimmed(a + b),
{
    let t = a + b;
    assert forall|i: int| 0 < i < t.len() && #[trigger] t[i] == '\n' implies t[i - 1] == '\n' || !is_whitespace(
        t[i - 1],
    ) by {
        if i < a.len() {
            assert(t[i] == a[i] && t[i - 1] == a[i - 1]);
        } else if i == a.len() {
            assert(t[i - 1] == a.last());
        } else {
            assert(t[i] == b[i - a.len()] && t[i - 1] == b[i - 1 - a.len()]);
        }
    }
    if b.len() > 0 {
        assert(t.last() == b.last());
    } else {
        assert(t =~= a);
    }
}

proof fn lemma_digits_single_line(n: nat)
    ensures
        single_line(digits(n)),
{
    crate::text::lemma_digits_are_digits(n);
    assert forall|i: int| 0 <= i < digits(n).len() implies digits(n)[i] != '\n' by {
        assert(crate::text::is_ascii_digit(digits(n)[i]));
    }
}

proof fn lemma_zero_padded_single_line(n: nat, w: nat)
    ensures
        single_line(zero_padded(n, w)),
{
    lemma_digits_single_line(n);
}

proof fn lemma_pads_single_line(s: Seq<char>, w: nat)
    requires
        single_line(s),
    ensures
        single_line(pad_left(s, w)),
        single_line(pad_right(s, w)),
{
}

proof fn lemma_duration_single_line(t: int)
    ensures
        single_line(duration_text(t)),
{
    let minutes = (if t > 0 {
        t
    } else {
        0
    }) / 60;
    lemma_digits_single_line((minutes / 60) as nat);
    lemma_digits_single_line((minutes % 60) as nat);
    lemma_zero_padded_single_line((minutes % 60) as nat, 2);
}

proof fn lemma_span_single_line(sp: ClockSpan)
    ensures
        single_line(span_text(sp)),
{
    lemma_zero_padded_single_line(sp.start_hour as nat, 2);
    lemma_zero_padded_single_line(sp.start_minute as nat, 2);
    lemma_zero_padded_single_line(sp.end_hour as nat, 2);
    lemma_zero_padded_single_line(sp.end_minute as nat, 2);
}

proof fn lemma_heading_single_line(d: LocalDate)
    ensures
        single_line(date_heading(d)),
{
    reveal_strlit("Monday");
    reveal_strlit("Tuesday");
    reveal_strlit("Wednesday");
    reveal_strlit("Thursday");
    reveal_strlit("Friday");
    reveal_strlit("Saturday");
    reveal_strlit("Sunday");
    reveal_strlit("January");
    reveal_strlit("February");
    reveal_strlit("March");
    reveal_strlit("April");
    reveal_strlit("May");
    reveal_strlit("June");
    reveal_strlit("July");
    reveal_strlit("August");
    reveal_strlit("September");
    reveal_strlit("October");
    reveal_strlit("November");
    reveal_strlit("December");
    reveal_strlit(", ");
    reveal_strlit(" ");
    assert(single_line(weekday_name(d.weekday)));
    assert(single_line(month_name(d.month)));
    lemma_digits_single_line(d.day as nat);
    let y = d.year as int;
    lemma_zero_padded_single_line((if y < 0 {
        -y
    } else {
        y
    }) as nat, 4);
    assert(single_line(year_text(y)));
}

proof fn lemma_event_row_single_line(e: CalEvent, sp: ClockSpan)
    requires
        single_line(e.summary@),
    ensures
        single_line(event_row(e, sp)),
{
    reveal_strlit("  ");
    reveal_strlit("all day");
    lemma_span_single_line(sp);
    lemma_pads_single_line(span_text(sp), 11);
    lemma_pads_single_line("all day"@, 11);
    lemma_pads_single_line(Seq::empty(), 6);
    lemma_duration_single_line(secs(e.end as int) - secs(e.start as int));
    lemma_pads_single_line(duration_text(secs(e.end as int) - secs(e.start as int)), 6);
}

proof fn lemma_session_row_single_line(s: Session, sp: ClockSpan)
    requires
        single_line(label_text(s.label)),
    ensures
        single_line(session_row(s, sp)),
{
    reveal_strlit("  ");
    reveal_strlit("work");
    reveal_strlit("break");
    reveal_strlit("completed");
    reveal_strlit("aborted");
    reveal_strlit("invalidated");
    lemma_span_single_line(sp);
    lemma_pads_single_line(span_text(sp), 11);
    lemma_duration_single_line((s.actual_sec as i64) as int);
    lemma_pads_single_line(duration_text((s.actual_sec as i64) as int), 6);
    lemma_pads_single_line(report_phase_word(s.kind), 5);
    lemma_pads_single_line(report_outcome_word(s.outcome), 11);
}

proof fn lemma_event_rows_trimmed(events: Seq<CalEvent>, spans: Seq<ClockSpan>)
    requires
        forall|i: int| 0 <= i < events.len() ==> single_line(#[trigger] events[i].summary@),
    ensures
        lines_trimmed(event_rows(events, spans)),
    decreases events.len(),
{
    if events.len() > 0 {
        lemma_event_rows_trimmed(events.drop_last(), spans.drop_last());
        lemma_event_row_single_line(events.last(), spans.last());
        lemma_line_text(event_row(events.last(), spans.last()));
        lemma_lines_concat(
            event_rows(events.drop_last(), spans.drop_last()),
            line_text(event_row(events.last(), spans.last())),
        );
    }
}

proof fn lemma_session_rows_trimmed(sessions: Seq<Session>, spans: Seq<ClockSpan>)
    requires
        forall|i: int| 0 <= i < sessions.len() ==> single_line(label_text(#[trigger] sessions[i].label)),
    ensures
        lines_trimmed(session_rows(sessions, spans)),
    decreases sessions.len(),
{
    if sessions.len() > 0 {
        lemma_session_rows_trimmed(sessions.drop_last(), spans.drop_last());
        lemma_session_row_single_line(sessions.last(), spans.last());
        lemma_line_text(session_row(sessions.last(), spans.last()));
        lemma_lines_concat(
            session_rows(sessions.drop_last(), spans.drop_last()),
            line_text(session_row(sessions.last(), spans.last())),
        );
    }
}

/// A day's report reads cleanly: no line ends in whitespace, the totals
/// line comes last, and a day with nothing planned and nothing run says
/// `(none)` under both headings. This holds as long as the user's own text
/// (a summary, a label) and the ratio keep to one line.
pub proof fn a_day_reads_cleanly(
    events: Seq<CalEvent>,
    event_spans: Seq<ClockSpan>,
    sessions: Seq<Session>,
    session_spans: Seq<ClockSpan>,
    date: LocalDate,
    from: int,
    to: int,
    ratio: Seq<char>,
)
    requires
        forall|i: int| 0 <= i < events.len() ==> single_line(#[trigger] events[i].summary@),
        forall|i: int| 0 <= i < sessions.len() ==> single_line(label_text(#[trigger] sessions[i].label)),
        single_line(ratio),
    ensures
        lines_trimmed(day_text(events, event_spans, sessions, session_spans, date, from, to, ratio)),
        ends_with(
            day_text(events, event_spans, sessions, session_spans, date, from, to, ratio),
            line_text(summary_line_text(totals(events, sessions, from, to), ratio)),
        ),
        events.len() == 0 && sessions.len() == 0 ==> day_text(
            events,
            event_spans,
            sessions,
            session_spans,
            date,
            from,
            to,
            ratio,
        ) == line_text(date_heading(date)) + "\n"@ + line_text("Planned"@) + line_text("  (none)"@) + "\n"@
            + line_text("Focus"@) + line_text("  (none)"@) + "\n"@ + line_text(
            summary_line_text(totals(events, sessions, from, to), ratio),
        ),
{
    reveal_strlit("\n");
    reveal_strlit("Planned");
    reveal_strlit("Focus");
    reveal_strlit("  (none)");
    reveal_strlit("planned ");
    reveal_strlit(" | focused ");
    reveal_strlit(" | ");
    let tot = totals(events, sessions, from, to);
    lemma_duration_single_line(tot.planned_sec as int);
    lemma_duration_single_line(tot.focused_sec as int);
    let blank = "\n"@;
    assert(lines_trimmed(blank));
    lemma_heading_single_line(date);
    lemma_line_text(date_heading(date));
    lemma_line_text("Planned"@);
    lemma_line_text("Focus"@);
    lemma_line_text("  (none)"@);
    lemma_line_text(summary_line_text(tot, ratio));
    assert(lines_trimmed(none_if_empty(events.len())));
    assert(lines_trimmed(none_if_empty(sessions.len())));
    lemma_event_rows_trimmed(events, event_spans);
    lemma_session_rows_trimmed(sessions, session_spans);
    let a1 = line_text(date_heading(date)) + blank;
    lemma_lines_concat(line_text(date_heading(date)), blank);
    let a2 = a1 + line_text("Planned"@);
    lemma_lines_concat(a1, line_text("Planned"@));
    let a3 = a2 + none_if_empty(events.len());
    lemma_lines_concat(a2, none_if_empty(events.len()));
    let a4 = a3 + event_rows(events, event_spans);
    lemma_lines_concat(a3, event_rows(events, event_spans));
    let a5 = a4 + blank;
    lemma_lines_concat(a4, blank);
    let a6 = a5 + line_text("Focus"@);
    lemma_lines_concat(a5, line_text("Focus"@));
    let a7 = a6 + none_if_empty(sessions.len());
    lemma_lines_concat(a6, none_if_empty(sessions.len()));
    let a8 = a7 + session_rows(sessions, session_spans);
    lemma_lines_concat(a7, session_rows(sessions, session_spans));
    let a9 = a8 + blank;
    lemma_lines_concat(a8, blank);
    let last = line_text(summary_line_text(tot, ratio));
    lemma_lines_concat(a9, last);
    let t = day_text(events, event_spans, sessions, session_spans, date, from, to, ratio);
    assert(t == a9 + last);
    assert(t.subrange(t.len() - last.len(), t.len() as int) =~= last);
    if events.len() == 0 && sessions.len() == 0 {
        assert(event_rows(events, event_spans) =~= Seq::<char>::empty());
        assert(session_rows(sessions, session_spans) =~= Seq::<char>::empty());
        assert(a4 =~= a3);
        assert(a8 =~= a7);
    }
}

/// A duration is shown in whole minutes: the seconds of an unfinished
/// minute never show, and a negative one shows as none.
pub proof fn unfinished_minutes_are_not_shown(t: int)
    ensures
        duration_text(t) == duration_text(60 * ((if t > 0 {
            t
        } else {
            0
        }) / 60)),
{
    let m = (if t > 0 {
        t
    } else {
        0
    }) / 60;
    assert(m >= 0);
    assert((60 * m) / 60 == m) by (nonlinear_arith)
        requires
            m >= 0,
    ;
    assert(60 * m >= 0) by (nonlinear_arith)
        requires
            m >= 0,
    ;
}

/// Weekdays are counted from Monday = 0 and named in English: the day
/// report is headed with the full name of its date's weekday, and the week
/// report labels a day's row with the first three letters of it.
pub proof fn weekdays_are_named_from_monday(d: LocalDate)
    requires
        d.weekday < 7,
    ensures
        weekday_name(d.weekday) == seq![
            "Monday"@,
            "Tuesday"@,
            "Wednesday"@,
            "Thursday"@,
            "Friday"@,
            "Saturday"@,
            "Sunday"@,
        ][d.weekday as int],
        date_heading(d).take(weekday_name(d.weekday).len() as int) == weekday_name(d.weekday),
        day_label(d).take(3) == seq!["Mon"@, "Tue"@, "Wed"@, "Thu"@, "Fri"@, "Sat"@, "Sun"@][d.weekday as int],
{
    reveal_strlit("Monday");
    reveal_strlit("Tuesday");
    reveal_strlit("Wednesday");
    reveal_strlit("Thursday");
    reveal_strlit("Friday");
    reveal_strlit("Saturday");
    reveal_strlit("Sunday");
    reveal_strlit("Mon");
    reveal_strlit("Tue");
    reveal_strlit("Wed");
    reveal_strlit("Thu");
    reveal_strlit("Fri");
    reveal_strlit("Sat");
    reveal_strlit("Sun");
    let name = weekday_name(d.weekday);
    let rest = ", "@ + digits(d.day as nat) + " "@ + month_name(d.month) + " "@ + year_text(d.year as int);
    assert(date_heading(d) =~= name + rest);
    assert((name + rest).take(name.len() as int) =~= name);
    let label = weekday_abbrev(d.weekday) + " "@ + digits(d.day as nat);
    assert(label.take(3) =~= weekday_abbrev(d.weekday));
    let abbrevs = seq!["Mon"@, "Tue"@, "Wed"@, "Thu"@, "Fri"@, "Sat"@, "Sun"@];
    assert(weekday_abbrev(d.weekday) =~= abbrevs[d.weekday as int]);
}

/// Months are numbered from January = 1 and named in English.
pub proof fn months_are_named_from_january(m: u32)
    requires
        1 <= m <= 12,
    ensures
        month_name(m) == seq![
            "January"@,
            "February"@,
            "March"@,
            "April"@,
            "May"@,
            "June"@,
            "July"@,
            "August"@,
            "September"@,
            "October"@,
            "November"@,
            "December"@,
        ][m - 1],
{
}

/// A session's row in the day report shows the time it counted, not the
/// time it was planned for: two sessions alike but for their planned
/// length get the same row, and after the span the row's length column is
/// the counted time, right-aligned in six columns.
pub proof fn a_session_row_shows_the_counted_time(s: Session, span: ClockSpan, planned_sec: u64)
    ensures
        session_row(s, span) == session_row((Session { planned_sec, ..s }), span),
        s.actual_sec <= i64::MAX ==> ({
            let head = "  "@ + pad_right(span_text(span), 11) + "  "@ + pad_left(duration_text(s.actual_sec as int), 6);
            session_row(s, span).take(head.len() as int) == head
        }),
{
    if s.actual_sec <= i64::MAX {
        let head = "  "@ + pad_right(span_text(span), 11) + "  "@ + pad_left(duration_text(s.actual_sec as int), 6);
        assert((s.actual_sec as i64) as int == s.actual_sec as int);
        let tail = "  "@ + pad_right(report_phase_word(s.kind), 5) + "  "@ + pad_right(report_outcome_word(s.outcome), 11)
            + "  "@ + label_text(s.label);
        assert(session_row(s, span) =~= head + tail);
        assert((head + tail).take(head.len() as int) =~= head);
    }
}

/// Focus is work that ran: a session adds what it counted, whole, when it
/// is a work session, was not voided and started inside the window, and
/// adds nothing otherwise; what it was planned for plays no part.
pub proof fn focus_is_counted_work_started_in_the_window(
    sessions: Seq<Session>,
    s: Session,
    from: int,
    to: int,
    planned_sec: u64,
)
    ensures
        focused_total(sessions.push(s), from, to) == focused_total(sessions, from, to) + if s.kind == Phase::Work
            && s.outcome != Outcome::Invalidated && from <= s.started_at.at < to {
            s.actual_sec as int
        } else {
            0
        },
        focused_total(sessions.push((Session { planned_sec, ..s })), from, to) == focused_total(
            sessions.push(s),
            from,
            to,
        ),
{
    assert(sessions.push(s).drop_last() =~= sessions);
    assert(sessions.push((Session { planned_sec, ..s })).drop_last() =~= sessions);
}

/// Planned time is the timed blocks clipped to the window: a block adds the
/// whole seconds of it inside the window, and an all-day one adds nothing.
pub proof fn planned_time_is_timed_blocks_clipped_to_the_window(events: Seq<CalEvent>, e: CalEvent, from: int, to: int)
    ensures
        e.all_day ==> planned_total(events.push(e), from, to) == planned_total(events, from, to),
        !e.all_day ==> planned_total(events.push(e), from, to) == planned_total(events, from, to) + overlap(
            e.start as int,
            e.end as int,
            from,
            to,
        ),
        0 <= overlap(e.start as int, e.end as int, from, to),
        overlap(e.start as int, e.end as int, from, to) <= secs(to) - secs(from) || secs(to) <= secs(from),
        secs(from) <= secs(e.start as int) && secs(e.end as int) <= secs(to) && secs(e.start as int) <= secs(
            e.end as int,
        ) ==> overlap(e.start as int, e.end as int, from, to) == secs(e.end as int) - secs(e.start as int),
{
    assert(events.push(e).drop_last() =~= events);
}

} // verus!
