//! Calendar days in a zone: the date and clock time an instant shows there
//! and the offset it is written with, the days on either side of a date,
//! and the instant a day begins. The calendar arithmetic is `chrono`'s.

use vstd::prelude::*;

use chrono::{Datelike, Offset, Timelike};

use crate::calendar::ics::{
    chrono_input_ok, earliest_in, fixed_earliest, fixed_earliest_of, in_chrono, instant_of, moment_at, moment_of,
    nanos_of, zone_ok, Moment, Naive, Zone,
};
use crate::calendar::CalEvent;
use crate::cli::report::{date_ok, span_ok, ClockSpan, LocalDate, DAYS_PER_WEEK};
use crate::sessions::Session;

verus! {

/// What a wall clock in some zone shows at an instant, and how far ahead of
/// UTC it is, in seconds.
#[derive(Debug, Clone, Copy, PartialEq, Eq, Structural)]
pub struct Reading {
    pub date: LocalDate,
    pub hour: u32,
    pub minute: u32,
    pub offset_sec: i32,
}

pub open spec fn reading_ok(r: Reading) -> bool {
    date_ok(r.date) && r.hour < 24 && r.minute < 60 && -86_400 < r.offset_sec < 86_400
}

/// `a` is an earlier calendar date than `b`.
pub open spec fn date_before(a: LocalDate, b: LocalDate) -> bool {
    a.year < b.year || (a.year == b.year && (a.month < b.month || (a.month == b.month && a.day < b.day)))
}

pub open spec fn date_le(a: LocalDate, b: LocalDate) -> bool {
    !date_before(b, a)
}

/// What a clock at a fixed offset shows at an instant.
pub uninterp spec fn fixed_reading_of(offset: i32, t: Moment) -> Reading;

/// Calls `DateTime::from_timestamp`, then `with_timezone` at the offset,
/// and reads the date, the weekday counted from Monday, the hour, the minute
/// and the offset, which is the one asked for.
#[verifier::external_body]
fn fixed_reading(offset: i32, t: Moment) -> (r: Reading)
    requires
        -86_400 < offset < 86_400,
        chrono_input_ok(t),
    ensures
        r == fixed_reading_of(offset, t),
        reading_ok(r),
        r.offset_sec == offset,
{
    let at = chrono::DateTime::from_timestamp(t.secs, t.nanos).unwrap().with_timezone(&chrono::FixedOffset::east_opt(offset).unwrap());
    let date = LocalDate { year: at.year(), month: at.month(), day: at.day(), weekday: at.weekday().num_days_from_monday() };
    Reading { date, hour: at.hour(), minute: at.minute(), offset_sec: at.offset().local_minus_utc() }
}

/// The same as [`fixed_reading`] with `with_timezone(&Local)`. Which
/// offset the machine's zone has at `t` is the machine's, so it is not
/// claimed; what a clock at that offset shows is the fixed reading.
#[verifier::external_body]
fn local_reading(t: Moment) -> (r: Reading)
    requires
        chrono_input_ok(t),
    ensures
        reading_ok(r),
        r == fixed_reading_of(r.offset_sec, t),
{
    let at = chrono::DateTime::from_timestamp(t.secs, t.nanos).unwrap().with_timezone(&chrono::Local);
    let date = LocalDate { year: at.year(), month: at.month(), day: at.day(), weekday: at.weekday().num_days_from_monday() };
    Reading { date, hour: at.hour(), minute: at.minute(), offset_sec: at.offset().fix().local_minus_utc() }
}

/// The day after a date.
pub uninterp spec fn next_day_of(year: i32, month: u32, day: u32) -> Option<LocalDate>;

/// Calls `NaiveDate::from_ymd_opt` and `succ_opt`: the next calendar date,
/// or `None` when the date names no day or is the last one `chrono` holds.
#[verifier::external_body]
pub(crate) fn next_day(d: LocalDate) -> (r: Option<LocalDate>)
    ensures
        r == next_day_of(d.year, d.month, d.day),
        r matches Some(n) ==> date_ok(n) && date_before(d, n),
{
    let next = match chrono::NaiveDate::from_ymd_opt(d.year, d.month, d.day) {
        Some(n) => n.succ_opt(),
        None => None,
    };
    match next {
        Some(n) => Some(LocalDate { year: n.year(), month: n.month(), day: n.day(), weekday: n.weekday().num_days_from_monday() }),
        None => None,
    }
}

/// The date `n` days before a date.
pub uninterp spec fn days_back_of(year: i32, month: u32, day: u32, n: u64) -> Option<LocalDate>;

/// Calls `NaiveDate::from_ymd_opt` and `checked_sub_days`: `None` when the
/// date names no day or the result leaves what `chrono` holds.
#[verifier::external_body]
pub(crate) fn days_back(d: LocalDate, n: u64) -> (r: Option<LocalDate>)
    ensures
        r == days_back_of(d.year, d.month, d.day, n),
        r matches Some(p) ==> date_ok(p),
{
    let back = match chrono::NaiveDate::from_ymd_opt(d.year, d.month, d.day) {
        Some(day) => day.checked_sub_days(chrono::Days::new(n)),
        None => None,
    };
    match back {
        Some(p) => Some(LocalDate { year: p.year(), month: p.month(), day: p.day(), weekday: p.weekday().num_days_from_monday() }),
        None => None,
    }
}

/// What a clock in `zone` shows at `t`, where a clause can say: at a fixed
/// offset. The machine's own zone has no name here.
pub open spec fn reading_in(zone: Zone, t: i128) -> Option<Reading> {
    match zone {
        Zone::Fixed(off) => Some(fixed_reading_of(off, moment_at(t))),
        Zone::Local => None,
    }
}

/// What a clock in `zone` shows at the instant `t`.
pub fn reading_at(zone: Zone, t: i128) -> (r: Reading)
    requires
        zone_ok(zone),
        in_chrono(t as int),
    ensures
        reading_ok(r),
        reading_in(zone, t) matches Some(x) ==> r == x,
        zone matches Zone::Fixed(off) ==> r.offset_sec == off,
{
    let m = moment_of(t);
    match zone {
        Zone::Local => local_reading(m),
        Zone::Fixed(off) => fixed_reading(off, m),
    }
}

/// Whether `a` falls on or before `b`.
pub fn on_or_before(a: &LocalDate, b: &LocalDate) -> (r: bool)
    ensures
        r == date_le(*a, *b),
{
    !(b.year < a.year || (b.year == a.year && (b.month < a.month || (b.month == a.month && b.day < a.day))))
}

/// A date at the top of an hour.
pub open spec fn at_hour(date: LocalDate, hour: u32) -> Naive {
    Naive { year: date.year, month: date.month, day: date.day, hour, minute: 0, second: 0 }
}

/// At a fixed offset, the first hour of `date` from `hour` on that names an
/// instant; past the last hour, midnight read as UTC.
pub open spec fn first_hour_from(offset: i32, date: LocalDate, hour: nat) -> Option<i128>
    decreases 24 - hour,
{
    if hour >= 24 {
        match fixed_earliest_of(0, at_hour(date, 0)) {
            Some(t) => Some(nanos_of(t) as i128),
            None => None,
        }
    } else {
        match fixed_earliest_of(offset, at_hour(date, hour as u32)) {
            Some(t) => Some(nanos_of(t) as i128),
            None => first_hour_from(offset, date, hour + 1),
        }
    }
}

/// When a day begins, where a clause can say: at a fixed offset.
pub open spec fn midnight_in(zone: Zone, date: LocalDate) -> Option<Option<i128>> {
    match zone {
        Zone::Fixed(off) => Some(first_hour_from(off, date, 0)),
        Zone::Local => None,
    }
}

proof fn lemma_whole_seconds_in_chrono(t: Moment)
    requires
        chrono_input_ok(t),
    ensures
        in_chrono(nanos_of(t)),
{
}

/// Midnight at the start of `date` in `zone`.
///
/// A few zones move their clocks at midnight, so that instant happened
/// twice or never: the earliest reading keeps a day contiguous with the one
/// before, and where midnight was skipped the first hour that did exist
/// starts the day. No zone skips a whole day; were one to, midnight is read
/// as UTC rather than failing a report. `None` only when `date` names no
/// day `chrono` can hold.
pub fn midnight(zone: Zone, date: LocalDate) -> (r: Option<i128>)
    requires
        zone_ok(zone),
    ensures
        r matches Some(t) ==> in_chrono(t as int),
        midnight_in(zone, date) matches Some(m) ==> r == m,
{
    let mut hour: u32 = 0;
    while hour < 24
        invariant
            hour <= 24,
            zone_ok(zone),
            zone matches Zone::Fixed(off) ==> first_hour_from(off, date, 0) == first_hour_from(off, date, hour as nat),
        decreases 24 - hour,
    {
        let at = Naive { year: date.year, month: date.month, day: date.day, hour, minute: 0, second: 0 };
        match earliest_in(zone, at) {
            Some(t) => {
                proof {
                    lemma_whole_seconds_in_chrono(t);
                }
                return Some(instant_of(t));
            },
            None => {},
        }
        hour = hour + 1;
    }
    let at = Naive { year: date.year, month: date.month, day: date.day, hour: 0, minute: 0, second: 0 };
    match fixed_earliest(0, at) {
        Some(t) => {
            proof {
                lemma_whole_seconds_in_chrono(t);
            }
            Some(instant_of(t))
        },
        None => None,
    }
}

/// The Monday `weeks_back` weeks before the week holding `date`. Weeks
/// start on Monday, as the app's week view does, so a Sunday belongs to the
/// week that began six days before. `date.weekday` is the date's own, as
/// every reading gives it. `None` past the first day `chrono` holds.
pub fn monday_of(date: LocalDate, weeks_back: u32) -> (r: Option<LocalDate>)
    requires
        date.weekday < 7,
    ensures
        r == days_back_of(date.year, date.month, date.day, (date.weekday + 7 * weeks_back) as u64),
{
    days_back(date, date.weekday as u64 + 7 * weeks_back as u64)
}

/// The half-open day `[start, end)` of `date` in `zone`: its midnight and
/// the next day's.
pub fn day_bounds(zone: Zone, date: LocalDate) -> (r: Option<(i128, i128)>)
    requires
        zone_ok(zone),
    ensures
        r matches Some((start, end)) ==> {
            &&& in_chrono(start as int) && in_chrono(end as int)
            &&& next_day_of(date.year, date.month, date.day) matches Some(next)
            &&& (midnight_in(zone, date) matches Some(m) ==> m == Some(start))
            &&& (midnight_in(zone, next) matches Some(m) ==> m == Some(end))
        },
        midnight_in(zone, date) matches Some(m) ==> (r is None <==> (m is None || match next_day_of(
            date.year,
            date.month,
            date.day,
        ) {
            None => true,
            Some(next) => midnight_in(zone, next) == Some(None::<i128>),
        })),
{
    let start = match midnight(zone, date) {
        Some(t) => t,
        None => return None,
    };
    let next = match next_day(date) {
        Some(n) => n,
        None => return None,
    };
    match midnight(zone, next) {
        Some(end) => Some((start, end)),
        None => None,
    }
}

/// The date `i` days after `monday`, stepping a day at a time; `None` once
/// a step leaves what `chrono` holds.
pub open spec fn week_date(monday: LocalDate, i: nat) -> Option<LocalDate>
    decreases i,
{
    if i == 0 {
        Some(monday)
    } else {
        match week_date(monday, (i - 1) as nat) {
            Some(d) => next_day_of(d.year, d.month, d.day),
            None => None,
        }
    }
}

/// Every one of the eight dates from `monday` exists and, where a clause can
/// say when its day begins, begins at some instant.
pub open spec fn week_fits(zone: Zone, monday: LocalDate) -> bool {
    forall|i: nat|
        i <= DAYS_PER_WEEK ==> (#[trigger] week_date(monday, i) matches Some(d) && (midnight_in(zone, d) matches Some(
            m,
        ) ==> m is Some))
}

/// The eight midnights bounding the seven days from `monday`, with the
/// dates they begin. Built from calendar dates rather than by adding 24
/// hours, so a day that is not 24 hours long still ends on midnight.
pub fn week_of(zone: Zone, monday: LocalDate) -> (r: Option<(Vec<LocalDate>, Vec<i128>)>)
    requires
        zone_ok(zone),
    ensures
        r matches Some((dates, starts)) ==> {
            &&& dates@.len() == DAYS_PER_WEEK + 1
            &&& starts@.len() == DAYS_PER_WEEK + 1
            &&& dates@[0] == monday
            &&& forall|i: int|
                0 <= i < DAYS_PER_WEEK ==> next_day_of(
                    #[trigger] dates@[i].year,
                    dates@[i].month,
                    dates@[i].day,
                ) == Some(dates@[i + 1])
            &&& forall|i: int| 0 <= i <= DAYS_PER_WEEK ==> in_chrono(#[trigger] starts@[i] as int)
            &&& forall|i: int|
                0 <= i <= DAYS_PER_WEEK ==> (midnight_in(zone, #[trigger] dates@[i]) matches Some(m) ==> m == Some(
                    starts@[i],
                ))
            &&& forall|i: int| 0 <= i <= DAYS_PER_WEEK ==> week_date(monday, i as nat) == Some(#[trigger] dates@[i])
        },
        r is Some ==> week_fits(zone, monday),
        zone is Fixed ==> (r is Some <==> week_fits(zone, monday)),
{
    let mut dates: Vec<LocalDate> = Vec::new();
    let mut starts: Vec<i128> = Vec::new();
    let mut day = monday;
    let mut i: usize = 0;
    while i <= DAYS_PER_WEEK
        invariant
            zone_ok(zone),
            i <= DAYS_PER_WEEK + 1,
            dates@.len() == i,
            starts@.len() == i,
            i == 0 ==> day == monday,
            i > 0 ==> dates@[0] == monday,
            i > 0 && i <= DAYS_PER_WEEK ==> next_day_of(dates@[i - 1].year, dates@[i - 1].month, dates@[i - 1].day)
                == Some(day),
            forall|k: int|
                0 <= k < i - 1 ==> next_day_of(#[trigger] dates@[k].year, dates@[k].month, dates@[k].day) == Some(
                    dates@[k + 1],
                ),
            forall|k: int| 0 <= k < i ==> in_chrono(#[trigger] starts@[k] as int),
            forall|k: int|
                0 <= k < i ==> (midnight_in(zone, #[trigger] dates@[k]) matches Some(m) ==> m == Some(starts@[k])),
            forall|k: int| 0 <= k < i ==> week_date(monday, k as nat) == Some(#[trigger] dates@[k]),
            i <= DAYS_PER_WEEK ==> week_date(monday, i as nat) == Some(day),
        decreases DAYS_PER_WEEK + 1 - i,
    {
        let start = match midnight(zone, day) {
            Some(t) => t,
            None => {
                assert(!week_fits(zone, monday) || zone is Local) by {
                    if zone is Fixed {
                        assert(week_date(monday, i as nat) == Some(day));
                    }
                }
                return None;
            },
        };
        dates.push(day);
        starts.push(start);
        if i < DAYS_PER_WEEK {
            day = match next_day(day) {
                Some(n) => n,
                None => {
                    assert(week_date(monday, (i + 1) as nat) is None);
                    return None;
                },
            };
        }
        i = i + 1;
    }
    assert(week_fits(zone, monday)) by {
        assert forall|k: nat| k <= DAYS_PER_WEEK implies (#[trigger] week_date(monday, k) matches Some(d) && (
        midnight_in(zone, d) matches Some(m) ==> m is Some)) by {
            assert(week_date(monday, k) == Some(dates@[k as int]));
        }
    }
    Some((dates, starts))
}

/// The instant a clock is read at for `at`: `at` itself where `chrono` can
/// read it, the epoch otherwise.
pub open spec fn readable_or_epoch(at: i128) -> i128 {
    if in_chrono(at as int) {
        at
    } else {
        0
    }
}

/// The hours and minutes a clock in `zone` shows from `start` to `end`,
/// where a clause can say: at a fixed offset.
pub open spec fn span_in(zone: Zone, start: i128, end: i128) -> Option<ClockSpan> {
    match (reading_in(zone, readable_or_epoch(start)), reading_in(zone, readable_or_epoch(end))) {
        (Some(a), Some(b)) => Some(
            ClockSpan { start_hour: a.hour, start_minute: a.minute, end_hour: b.hour, end_minute: b.minute },
        ),
        _ => None,
    }
}

fn readable(at: i128) -> (r: bool)
    ensures
        r == in_chrono(at as int),
{
    (crate::calendar::ics::CHRONO_MIN_SECS as i128) * 1_000_000_000 <= at && at <= (
    crate::calendar::ics::CHRONO_MAX_SECS as i128) * 1_000_000_000 + 999_999_999
}

/// "09:05-09:30": what a clock in `zone` shows at `start` and at `end`. An
/// instant `chrono` cannot read is shown as the epoch.
pub fn clock_span(zone: Zone, start: i128, end: i128) -> (r: ClockSpan)
    requires
        zone_ok(zone),
    ensures
        span_ok(r),
        span_in(zone, start, end) matches Some(x) ==> r == x,
{
    let s = reading_at(zone, if readable(start) { start } else { 0 });
    let e = reading_at(zone, if readable(end) { end } else { 0 });
    ClockSpan { start_hour: s.hour, start_minute: s.minute, end_hour: e.hour, end_minute: e.minute }
}

/// The clock spans of calendar blocks, one for each, in order.
pub fn event_spans(zone: Zone, events: &Vec<CalEvent>) -> (r: Vec<ClockSpan>)
    requires
        zone_ok(zone),
    ensures
        r@.len() == events@.len(),
        forall|i: int|
            0 <= i < r@.len() ==> span_ok(#[trigger] r@[i]) && (span_in(zone, events@[i].start, events@[i].end) matches Some(
                x,
            ) ==> r@[i] == x),
{
    let mut out: Vec<ClockSpan> = Vec::new();
    let mut i: usize = 0;
    while i < events.len()
        invariant
            i <= events@.len(),
            zone_ok(zone),
            out@.len() == i,
            forall|k: int|
                0 <= k < i ==> span_ok(#[trigger] out@[k]) && (span_in(zone, events@[k].start, events@[k].end) matches Some(
                    x,
                ) ==> out@[k] == x),
        decreases events@.len() - i,
    {
        out.push(clock_span(zone, events[i].start, events[i].end));
        i = i + 1;
    }
    out
}

/// The clock spans of sessions, one for each, in order.
pub fn session_spans(zone: Zone, sessions: &Vec<Session>) -> (r: Vec<ClockSpan>)
    requires
        zone_ok(zone),
    ensures
        r@.len() == sessions@.len(),
        forall|i: int|
            0 <= i < r@.len() ==> span_ok(#[trigger] r@[i]) && (span_in(
                zone,
                sessions@[i].started_at.at,
                sessions@[i].ended_at.at,
            ) matches Some(x) ==> r@[i] == x),
{
    let mut out: Vec<ClockSpan> = Vec::new();
    let mut i: usize = 0;
    while i < sessions.len()
        invariant
            i <= sessions@.len(),
            zone_ok(zone),
            out@.len() == i,
            forall|k: int|
                0 <= k < i ==> span_ok(#[trigger] out@[k]) && (span_in(
                    zone,
                    sessions@[k].started_at.at,
                    sessions@[k].ended_at.at,
                ) matches Some(x) ==> out@[k] == x),
        decreases sessions@.len() - i,
    {
        out.push(clock_span(zone, sessions[i].started_at.at, sessions[i].ended_at.at));
        i = i + 1;
    }
    out
}

} // verus!
