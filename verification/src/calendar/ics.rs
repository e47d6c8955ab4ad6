//! Between the VEVENTs in a shard and the facts the rest of the calendar
//! works on.
//!
//! The shard is parsed and its properties are read by the `icalendar` crate,
//! and the times it holds are resolved to instants with `chrono` and
//! `chrono-tz`. All four RFC 5545 date-time forms are read, because the file
//! belongs to the user and may come from anywhere.

use vstd::prelude::*;

use chrono::{Datelike, TimeZone, Timelike};
use icalendar::CalendarDateTime::{Floating as FloatingTime, Utc as UtcTime, WithTimezone};
use icalendar::DatePerhapsTime::{Date as DateValue, DateTime as DateTimeValue};
use icalendar::{Component, EventLike};

use crate::calendar::blocks::{
    block_end, block_key, blocks_for, duration_of, implied, in_draw_order, window_spec, instant_ok, search_start, views, window_blocks, BlockView, Vevent, MAX_INSTANT,
    OCCURRENCE_LIMIT,
};
use crate::calendar::store::{all_digits, YearMonth};
use crate::text::digits_value;
use crate::calendar::{
    absent, any_recurring, canonical, canonical_spec, check, holding_shards, located, plan_for, Chosen, lemma_holding_shards_distinct, lemma_holding_shards_nonempty, plan_delete, plan_update,
    written_block, CalEvent, EditPlan, EventDraft, Found, Rank,
};
use crate::days::{reading_at, reading_in};
use crate::error::AppError;

verus! {

#[verifier::external_type_specification]
#[verifier::external_body]
pub struct ExCalendar(icalendar::Calendar);

#[verifier::external_type_specification]
#[verifier::external_body]
pub struct ExEvent(icalendar::Event);

#[verifier::external_type_specification]
#[verifier::external_body]
pub struct ExCalendarComponent(icalendar::CalendarComponent);

#[verifier::external_type_specification]
#[verifier::external_body]
pub struct ExDatePerhapsTime(icalendar::DatePerhapsTime);

/// The properties of a VEVENT that occur at most once, by name, each taken
/// by its value: the map `Component::properties` reads.
pub uninterp spec fn event_props(e: icalendar::Event) -> Map<Seq<char>, Seq<char>>;

/// The parameters of each of a VEVENT's single properties (such as the
/// TZID of a DTSTART), by the property's name and then the parameter's.
pub uninterp spec fn event_params(e: icalendar::Event) -> Map<Seq<char>, Map<Seq<char>, Seq<char>>>;

/// The properties of a VEVENT that may repeat, such as `RDATE`: the map
/// `Component::multi_properties` reads, each occurrence as its value and its
/// parameters, in order.
pub uninterp spec fn event_multi(e: icalendar::Event) -> Map<Seq<char>, Seq<(Seq<char>, Map<Seq<char>, Seq<char>>)>>;

/// What a VEVENT holds: its single properties, their parameters, and the
/// properties that may repeat.
pub type EventView = (
    Map<Seq<char>, Seq<char>>,
    Map<Seq<char>, Map<Seq<char>, Seq<char>>>,
    Map<Seq<char>, Seq<(Seq<char>, Map<Seq<char>, Seq<char>>)>>,
);

/// A calendar's components in order: a VEVENT as what it holds (see
/// [`EventView`]), a component of any other kind as `None`.
pub uninterp spec fn calendar_components(cal: icalendar::Calendar) -> Seq<
    Option<(Map<Seq<char>, Seq<char>>, Map<Seq<char>, Map<Seq<char>, Seq<char>>>, Map<Seq<char>, Seq<(Seq<char>, Map<Seq<char>, Seq<char>>)>>)>,
>;

/// A calendar's own properties, in order, each as its name and its value.
pub uninterp spec fn calendar_props(cal: icalendar::Calendar) -> Seq<(Seq<char>, Seq<char>)>;

/// What a VEVENT holds, as a component of a calendar.
pub open spec fn event_view(e: icalendar::Event) -> EventView {
    (event_props(e), event_params(e), event_multi(e))
}

/// The parameters of the property named `key`: none when there is no such
/// property.
pub open spec fn params_of(params: Map<Seq<char>, Map<Seq<char>, Seq<char>>>, key: Seq<char>) -> Map<Seq<char>, Seq<char>> {
    if params.dom().contains(key) {
        params[key]
    } else {
        Map::empty()
    }
}

pub open spec fn no_props() -> Map<Seq<char>, Seq<char>> {
    Map::empty()
}

pub open spec fn no_params() -> Map<Seq<char>, Map<Seq<char>, Seq<char>>> {
    Map::empty()
}

pub open spec fn no_repeats() -> Map<Seq<char>, Seq<(Seq<char>, Map<Seq<char>, Seq<char>>)>> {
    Map::empty()
}

pub open spec fn component_view(c: Option<icalendar::Event>) -> Option<
    EventView,
> {
    match c {
        Some(e) => Some(event_view(e)),
        None => None,
    }
}

pub open spec fn components_view(cs: Seq<Option<icalendar::Event>>) -> Seq<
    Option<EventView>,
> {
    cs.map_values(|c: Option<icalendar::Event>| component_view(c))
}

/// The value of the property named `key`, when there is one.
pub open spec fn prop(props: Map<Seq<char>, Seq<char>>, key: Seq<char>) -> Option<Seq<char>> {
    if props.dom().contains(key) {
        Some(props[key])
    } else {
        None
    }
}

pub open spec fn text_opt(s: Option<String>) -> Option<Seq<char>> {
    match s {
        Some(t) => Some(t@),
        None => None,
    }
}

/// The UID a VEVENT answers to: empty when it has none.
pub open spec fn uid_in(props: Map<Seq<char>, Seq<char>>) -> Seq<char> {
    match prop(props, "UID"@) {
        Some(u) => u,
        None => Seq::empty(),
    }
}

/// A VEVENT repeats when it has an RRULE or an RDATE.
pub open spec fn repeats(v: EventView) -> bool {
    v.0.dom().contains("RRULE"@) || v.2.dom().contains("RDATE"@)
}

/// What `str::parse::<u32>` makes of a text: an optional `+`, then at least
/// one ASCII digit, and a value that fits; anything else is no number.
pub open spec fn parse_u32(text: Seq<char>) -> Option<u32> {
    let d = if text.len() > 0 && text[0] == '+' {
        text.drop_first()
    } else {
        text
    };
    if all_digits(d) && digits_value(d) <= u32::MAX {
        Some(digits_value(d) as u32)
    } else {
        None
    }
}

/// The SEQUENCE a VEVENT claims: `None` when it has none or it is not a
/// number.
pub open spec fn sequence_in(props: Map<Seq<char>, Seq<char>>) -> Option<u32> {
    match prop(props, "SEQUENCE"@) {
        Some(t) => parse_u32(t),
        None => None,
    }
}

/// What `parse_utc_date_time` reads off a UTC date-time
/// (`20260723T050000Z`), as seconds and nanoseconds.
pub uninterp spec fn utc_parse_of(text: Seq<char>) -> Option<Moment>;

/// How recent a VEVENT claims to be, as an instant: its LAST-MODIFIED, or
/// its DTSTAMP for one never edited.
pub open spec fn revised_in(props: Map<Seq<char>, Seq<char>>) -> Option<i128> {
    let lm = match prop(props, "LAST-MODIFIED"@) {
        Some(v) => utc_parse_of(v),
        None => None,
    };
    let st = match prop(props, "DTSTAMP"@) {
        Some(v) => utc_parse_of(v),
        None => None,
    };
    match lm {
        Some(t) => Some(nanos_of(t) as i128),
        None => match st {
            Some(t) => Some(nanos_of(t) as i128),
            None => None,
        },
    }
}

pub open spec fn digit_char(d: nat) -> char {
    (48 + d) as char
}

/// The decimal digits of `n`, as `u32`'s `Display` writes them.
pub open spec fn decimal(n: nat) -> Seq<char>
    decreases n,
{
    if n < 10 {
        seq![digit_char(n)]
    } else {
        decimal(n / 10).push(digit_char(n % 10))
    }
}

/// How `icalendar` writes a UTC date-time (`20260723T050000Z`).
pub uninterp spec fn utc_text_of(at: Moment) -> Seq<char>;

/// `text` is how `icalendar` writes out a calendar with these properties
/// and components. A relation rather than a function: a component with no
/// DTSTAMP or no UID is written with the time of writing and a fresh random
/// UID, and what the two views leave out (parameters, other components)
/// shows in the text too.
pub uninterp spec fn renders(
    props: Seq<(Seq<char>, Seq<char>)>,
    comps: Seq<Option<(Map<Seq<char>, Seq<char>>, Map<Seq<char>, Map<Seq<char>, Seq<char>>>, Map<Seq<char>, Seq<(Seq<char>, Map<Seq<char>, Seq<char>>)>>)>>,
    text: Seq<char>,
) -> bool;

/// What the iCalendar parser makes of a text: the calendar's components, or
/// its complaint.
pub uninterp spec fn parse_of(text: Seq<char>) -> Result<
    Seq<Option<(Map<Seq<char>, Seq<char>>, Map<Seq<char>, Map<Seq<char>, Seq<char>>>, Map<Seq<char>, Seq<(Seq<char>, Map<Seq<char>, Seq<char>>)>>)>>,
    Seq<char>,
>;

/// The first second `chrono` can represent: the start of the year -262143.
pub const CHRONO_MIN_SECS: i64 = -8_334_601_315_200;

/// The last second `chrono` can represent: the end of the year 262142.
pub const CHRONO_MAX_SECS: i64 = 8_210_266_876_799;

/// A date-time `chrono` can represent, as seconds and the nanoseconds past
/// them (up to two seconds' worth, for a leap second).
pub open spec fn chrono_ok(t: Moment) -> bool {
    CHRONO_MIN_SECS <= t.secs <= CHRONO_MAX_SECS && t.nanos < 2_000_000_000
}

/// Like [`chrono_ok`], without a leap second: what can be handed to
/// `chrono` to build a date-time from.
pub open spec fn chrono_input_ok(t: Moment) -> bool {
    CHRONO_MIN_SECS <= t.secs <= CHRONO_MAX_SECS && t.nanos < 1_000_000_000
}

/// An instant, in nanoseconds, inside the range `chrono` can represent.
pub open spec fn in_chrono(t: int) -> bool {
    CHRONO_MIN_SECS * 1_000_000_000 <= t <= CHRONO_MAX_SECS * 1_000_000_000 + 999_999_999
}

/// A date-time as `chrono` hands it over: whole seconds since the epoch and
/// the nanoseconds past them.
#[derive(Debug, Clone, Copy, PartialEq, Eq, Structural)]
pub struct Moment {
    pub secs: i64,
    pub nanos: u32,
}

/// A wall-clock reading with no zone attached.
#[derive(Debug, Clone, Copy, PartialEq, Eq, Structural)]
pub struct Naive {
    pub year: i32,
    pub month: u32,
    pub day: u32,
    pub hour: u32,
    pub minute: u32,
    pub second: u32,
}

/// A DTSTART or DTEND as the file writes it: one of the four RFC 5545
/// forms.
#[derive(Debug, Clone, PartialEq, Eq)]
pub enum Written {
    /// `20260723T050000Z`, as seconds and nanoseconds since the epoch.
    Utc(Moment),
    /// `TZID=Asia/Tokyo:20260723T140000`.
    Zoned { local: Naive, tzid: String },
    /// `20260723T140000`: no zone at all, so it floats to the reader's.
    Floating(Naive),
    /// `VALUE=DATE:20260723`.
    Date { year: i32, month: u32, day: u32 },
}

/// A date-time as the file writes it, as plain values.
pub enum WrittenView {
    Utc(Moment),
    Zoned { local: Naive, tzid: Seq<char> },
    Floating(Naive),
    Date { year: i32, month: u32, day: u32 },
}

pub open spec fn written_view(w: Written) -> WrittenView {
    match w {
        Written::Utc(t) => WrittenView::Utc(t),
        Written::Zoned { local, tzid } => WrittenView::Zoned { local, tzid: tzid@ },
        Written::Floating(local) => WrittenView::Floating(local),
        Written::Date { year, month, day } => WrittenView::Date { year, month, day },
    }
}

pub open spec fn opt_written_view(w: Option<Written>) -> Option<WrittenView> {
    match w {
        Some(x) => Some(written_view(x)),
        None => None,
    }
}

/// What `DatePerhapsTime::from_property` reads off the property `key` with
/// this value and these parameters, in one of the four forms; `None` when
/// it is none of them.
pub uninterp spec fn date_of_property(key: Seq<char>, value: Seq<char>, params: Map<Seq<char>, Seq<char>>) -> Option<
    WrittenView,
>;

/// The date-time a VEVENT holds under `key` (DTSTART or DTEND), in the form
/// it is written in.
pub open spec fn written_at(v: EventView, key: Seq<char>) -> Option<WrittenView> {
    match prop(v.0, key) {
        Some(value) => date_of_property(key, value, params_of(v.1, key)),
        None => None,
    }
}

/// The zone that reads floating times and decides which month an instant
/// falls in: the machine's own, or a fixed offset east of UTC in seconds.
#[derive(Debug, Clone, Copy, PartialEq, Eq, Structural)]
pub enum Zone {
    Local,
    Fixed(i32),
}

pub open spec fn zone_ok(z: Zone) -> bool {
    match z {
        Zone::Local => true,
        Zone::Fixed(off) => -86_400 < off < 86_400,
    }
}

/// Calls `str::parse::<icalendar::Calendar>`: the calendar, or the parser's
/// complaint. Either is a function of the text alone, named by
/// [`parse_of`].
#[verifier::external_body]
fn parse_calendar(text: &str) -> (r: Result<icalendar::Calendar, String>)
    ensures
        match r {
            Ok(c) => parse_of(text@) == Ok::<_, Seq<char>>(calendar_components(c)),
            Err(m) => parse_of(text@) == Err::<Seq<Option<EventView>>, _>(m@),
        },
{
    text.parse::<icalendar::Calendar>()
}

/// Calls `CalendarComponent::as_event` on each of the calendar's components,
/// in order, cloning what it finds: `None` for a component that is not a
/// VEVENT. The derived `Clone` copies the properties as they are.
#[verifier::external_body]
fn component_events(cal: &icalendar::Calendar) -> (r: Vec<Option<icalendar::Event>>)
    ensures
        components_view(r@) == calendar_components(*cal),
{
    cal.components.iter().map(|c| c.as_event().cloned()).collect()
}

/// Calls `Component::get_uid`: the value of the UID property.
#[verifier::external_body]
fn event_uid(e: &icalendar::Event) -> (r: Option<String>)
    ensures
        text_opt(r) == prop(event_props(*e), "UID"@),
{
    e.get_uid().map(|s| s.to_owned())
}

/// Calls `EventLike::get_summary`: the value of the SUMMARY property.
#[verifier::external_body]
fn event_summary(e: &icalendar::Event) -> (r: Option<String>)
    ensures
        text_opt(r) == prop(event_props(*e), "SUMMARY"@),
{
    e.get_summary().map(|s| s.to_owned())
}

/// Calls `Component::get_sequence`: the value of the SEQUENCE property,
/// read by `str::parse::<u32>`.
#[verifier::external_body]
fn event_sequence(e: &icalendar::Event) -> (r: Option<u32>)
    ensures
        r == match prop(event_props(*e), "SEQUENCE"@) {
            Some(t) => parse_u32(t),
            None => None,
        },
{
    e.get_sequence()
}

/// Calls `Component::get_last_modified`, which is `parse_utc_date_time` on
/// the LAST-MODIFIED property: a `DateTime<Utc>`, as seconds and
/// nanoseconds, so within what `chrono` can represent.
#[verifier::external_body]
fn event_last_modified(e: &icalendar::Event) -> (r: Option<Moment>)
    ensures
        r matches Some(t) ==> chrono_ok(t),
        r == match prop(event_props(*e), "LAST-MODIFIED"@) {
            Some(v) => utc_parse_of(v),
            None => None,
        },
{
    e.get_last_modified().map(|t| Moment { secs: t.timestamp(), nanos: t.timestamp_subsec_nanos() })
}

/// Calls `Component::get_timestamp`, the same on DTSTAMP.
#[verifier::external_body]
fn event_stamp(e: &icalendar::Event) -> (r: Option<Moment>)
    ensures
        r matches Some(t) ==> chrono_ok(t),
        r == match prop(event_props(*e), "DTSTAMP"@) {
            Some(v) => utc_parse_of(v),
            None => None,
        },
{
    e.get_timestamp().map(|t| Moment { secs: t.timestamp(), nanos: t.timestamp_subsec_nanos() })
}

/// Calls `Component::property_value`: whether the VEVENT has a property
/// named `key`.
#[verifier::external_body]
fn event_has_property(e: &icalendar::Event, key: &str) -> (r: bool)
    ensures
        r == event_props(*e).dom().contains(key@),
{
    e.property_value(key).is_some()
}

/// Calls `Component::multi_properties`: whether the VEVENT has a property
/// named `key` among those that may repeat.
#[verifier::external_body]
fn event_has_multi_property(e: &icalendar::Event, key: &str) -> (r: bool)
    ensures
        r == event_multi(*e).dom().contains(key@),
{
    e.multi_properties().contains_key(key)
}

/// Calls `EventLike::get_start`, which is `DatePerhapsTime::from_property`
/// on the DTSTART property when there is one, and tells the four variants
/// apart, one arm each: a UTC `DateTime` as seconds and nanoseconds (so
/// within what `chrono` can represent), a `NaiveDateTime` field by field
/// with or without its TZID, and a `NaiveDate` by its year, month and day.
#[verifier::external_body]
fn event_start(e: &icalendar::Event) -> (r: Option<Written>)
    ensures
        opt_written_view(r) == match prop(event_props(*e), "DTSTART"@) {
            Some(v) => date_of_property("DTSTART"@, v, params_of(event_params(*e), "DTSTART"@)),
            None => None,
        },
        r matches Some(Written::Utc(t)) ==> chrono_ok(t),
{
    let n = |n: chrono::NaiveDateTime| Naive { year: n.year(), month: n.month(), day: n.day(), hour: n.hour(), minute: n.minute(), second: n.second() };
    Some(match e.get_start()? {
        DateTimeValue(UtcTime(t)) => Written::Utc(Moment { secs: t.timestamp(), nanos: t.timestamp_subsec_nanos() }),
        DateTimeValue(WithTimezone { date_time, tzid }) => Written::Zoned { local: n(date_time), tzid },
        DateTimeValue(FloatingTime(d)) => Written::Floating(n(d)),
        DateValue(d) => Written::Date { year: d.year(), month: d.month(), day: d.day() },
    })
}

/// The same as [`event_start`] for `EventLike::get_end` and DTEND.
#[verifier::external_body]
fn event_end(e: &icalendar::Event) -> (r: Option<Written>)
    ensures
        opt_written_view(r) == match prop(event_props(*e), "DTEND"@) {
            Some(v) => date_of_property("DTEND"@, v, params_of(event_params(*e), "DTEND"@)),
            None => None,
        },
        r matches Some(Written::Utc(t)) ==> chrono_ok(t),
{
    let n = |n: chrono::NaiveDateTime| Naive { year: n.year(), month: n.month(), day: n.day(), hour: n.hour(), minute: n.minute(), second: n.second() };
    Some(match e.get_end()? {
        DateTimeValue(UtcTime(t)) => Written::Utc(Moment { secs: t.timestamp(), nanos: t.timestamp_subsec_nanos() }),
        DateTimeValue(WithTimezone { date_time, tzid }) => Written::Zoned { local: n(date_time), tzid },
        DateTimeValue(FloatingTime(d)) => Written::Floating(n(d)),
        DateValue(d) => Written::Date { year: d.year(), month: d.month(), day: d.day() },
    })
}

/// What `chrono_tz` makes of a wall-clock reading in the zone named `tzid`.
pub uninterp spec fn tz_earliest_of(tzid: Seq<char>, local: Naive) -> Result<Option<Moment>, ()>;

/// Parses `tzid` as a `chrono_tz::Tz` (`Err` when it names no zone), then
/// calls `from_local_datetime(..).earliest()` on the reading: `None` when the
/// reading names no date-time or falls in a gap the zone skips. The answer
/// depends on nothing but the zone database compiled into `chrono_tz`.
#[verifier::external_body]
fn tz_earliest(tzid: &str, local: Naive) -> (r: Result<Option<Moment>, ()>)
    ensures
        r == tz_earliest_of(tzid@, local),
        r matches Ok(Some(t)) ==> chrono_ok(t),
{
    let zone = tzid.parse::<chrono_tz::Tz>().map_err(|_| ())?;
    let naive = chrono::NaiveDate::from_ymd_opt(local.year, local.month, local.day)
        .and_then(|d| d.and_hms_opt(local.hour, local.minute, local.second));
    Ok(naive.and_then(|n| zone.from_local_datetime(&n).earliest()).map(|t| Moment { secs: t.timestamp(), nanos: t.timestamp_subsec_nanos() }))
}

/// What a fixed offset makes of a wall-clock reading.
pub uninterp spec fn fixed_earliest_of(offset: i32, local: Naive) -> Option<Moment>;

/// Calls `FixedOffset::east_opt(offset)` and `from_local_datetime(..)
/// .earliest()` on the reading: `None` when the reading names no date-time.
/// The reading is in whole seconds and an offset is too, so the instant has
/// no fraction of a second.
#[verifier::external_body]
pub(crate) fn fixed_earliest(offset: i32, local: Naive) -> (r: Option<Moment>)
    requires
        -86_400 < offset < 86_400,
    ensures
        r == fixed_earliest_of(offset, local),
        r matches Some(t) ==> chrono_input_ok(t),
{
    let zone = chrono::FixedOffset::east_opt(offset).unwrap();
    chrono::NaiveDate::from_ymd_opt(local.year, local.month, local.day)
        .and_then(|d| d.and_hms_opt(local.hour, local.minute, local.second))
        .and_then(|n| zone.from_local_datetime(&n).earliest())
        .map(|t| Moment { secs: t.timestamp(), nanos: t.timestamp_subsec_nanos() })
}

/// Calls `chrono::Local.from_local_datetime(..).earliest()` on the reading.
/// The answer depends on the machine's zone, so nothing is claimed of it
/// beyond its range (whole seconds, as above).
#[verifier::external_body]
fn local_earliest(local: Naive) -> (r: Option<Moment>)
    ensures
        r matches Some(t) ==> chrono_input_ok(t),
{
    chrono::NaiveDate::from_ymd_opt(local.year, local.month, local.day)
        .and_then(|d| d.and_hms_opt(local.hour, local.minute, local.second))
        .and_then(|n| chrono::Local.from_local_datetime(&n).earliest())
        .map(|t| Moment { secs: t.timestamp(), nanos: t.timestamp_subsec_nanos() })
}

/// The reading an hour later.
pub uninterp spec fn an_hour_later_of(local: Naive) -> Option<Naive>;

/// Calls `NaiveDateTime::checked_add_signed` with one hour: `None` when the
/// reading names no date-time or the result leaves `chrono`'s range.
#[verifier::external_body]
fn an_hour_later(local: Naive) -> (r: Option<Naive>)
    ensures
        r == an_hour_later_of(local),
{
    chrono::NaiveDate::from_ymd_opt(local.year, local.month, local.day)
        .and_then(|d| d.and_hms_opt(local.hour, local.minute, local.second))
        .and_then(|n| n.checked_add_signed(chrono::TimeDelta::hours(1)))
        .map(|n| Naive { year: n.year(), month: n.month(), day: n.day(), hour: n.hour(), minute: n.minute(), second: n.second() })
}

/// A date-time value that names its own zone: it carries a TZID, or it is
/// one UTC time (ending in `Z`).
pub open spec fn anchored_value(value: Seq<char>, params: Map<Seq<char>, Seq<char>>) -> bool {
    params.dom().contains("TZID"@) || (value.len() > 0 && value.last() == 'Z' && !value.contains(','))
}

/// `rule` sets an UNTIL.
pub open spec fn has_until(rule: Seq<char>) -> bool {
    exists|i: int| 0 <= i && i + 5 <= rule.len() && #[trigger] rule.subrange(i, i + 5) == "UNTIL"@
}

/// Every date-time the recurrence of a VEVENT reads names its own zone: its
/// DTSTART and each RDATE and EXDATE, with no UNTIL in its RRULE. The
/// `rrule` crate reads any other date-time in the machine's zone.
pub open spec fn anchored(v: EventView) -> bool {
    &&& prop(v.0, "DTSTART"@) matches Some(s) && anchored_value(s, params_of(v.1, "DTSTART"@))
    &&& (prop(v.0, "RRULE"@) matches Some(rule) ==> !has_until(rule))
    &&& (v.2.dom().contains("RDATE"@) ==> forall|i: int|
        0 <= i < v.2["RDATE"@].len() ==> anchored_value(
            (#[trigger] v.2["RDATE"@][i]).0,
            v.2["RDATE"@][i].1,
        ))
    &&& (v.2.dom().contains("EXDATE"@) ==> forall|i: int|
        0 <= i < v.2["EXDATE"@].len() ==> anchored_value(
            (#[trigger] v.2["EXDATE"@][i]).0,
            v.2["EXDATE"@][i].1,
        ))
}

/// What `get_recurrence` and `RRuleSet::all` make of a VEVENT holding these
/// properties, between `after` and `before` and up to `limit` occurrences:
/// the occurrences, or why the rule could not be read.
pub uninterp spec fn recurrence_of(
    props: Map<Seq<char>, Seq<char>>,
    params: Map<Seq<char>, Map<Seq<char>, Seq<char>>>,
    multi: Map<Seq<char>, Seq<(Seq<char>, Map<Seq<char>, Seq<char>>)>>,
    after: Moment,
    before: Moment,
    limit: u16,
) -> Result<Seq<Moment>, Seq<char>>;

/// Calls `EventLike::get_recurrence` and walks the rule set from `after` to
/// `before`, stopping at `limit` occurrences; `Err` with the reason when the
/// rule cannot be read. `RRuleSet::all` keeps only the occurrences between
/// the two bounds, both included, and at most `limit` of them. The rule set
/// is read from the text of DTSTART, RRULE, RDATE and EXDATE alone; where
/// one of their date-times floats, `rrule` anchors it in the machine's zone,
/// so only when every one of them names its own zone is the answer named.
#[verifier::external_body]
fn expand_recurrence(e: &icalendar::Event, after: Moment, before: Moment, limit: u16) -> (r: Result<Vec<Moment>, String>)
    requires
        chrono_input_ok(after),
        chrono_input_ok(before),
    ensures
        r matches Ok(v) ==> forall|i: int| 0 <= i < v@.len() ==> chrono_ok(#[trigger] v@[i]),
        r matches Ok(v) ==> v@.len() <= limit,
        r matches Ok(v) ==> forall|i: int|
            0 <= i < v@.len() ==> nanos_of(after) <= nanos_of(#[trigger] v@[i]) <= nanos_of(before),
        anchored(event_view(*e)) ==> match recurrence_of(event_props(*e), event_params(*e), event_multi(*e), after, before, limit) {
            Ok(m) => r matches Ok(v) && v@ == m,
            Err(m) => r matches Err(s) && s@ == m,
        },
{
    let set = e.get_recurrence().map_err(|e| e.to_string())?;
    let after = icalendar::Tz::UTC.from_utc_datetime(&chrono::DateTime::from_timestamp(after.secs, after.nanos).unwrap().naive_utc());
    let before = icalendar::Tz::UTC.from_utc_datetime(&chrono::DateTime::from_timestamp(before.secs, before.nanos).unwrap().naive_utc());
    Ok(set.after(after).before(before).all(limit).dates.iter().map(|d| Moment { secs: d.timestamp(), nanos: d.timestamp_subsec_nanos() }).collect())
}

/// Seconds and nanoseconds as one instant, in nanoseconds.
pub open spec fn nanos_of(t: Moment) -> int {
    t.secs * 1_000_000_000 + t.nanos
}

pub fn instant_of(t: Moment) -> (r: i128)
    requires
        chrono_ok(t),
    ensures
        r == nanos_of(t),
        instant_ok(r as int),
        CHRONO_MIN_SECS * 1_000_000_000 <= r <= CHRONO_MAX_SECS * 1_000_000_000 + 2_000_000_000,
{
    t.secs as i128 * 1_000_000_000 + t.nanos as i128
}

/// A reading at a fixed offset, with the rule for a skipped hour below.
pub open spec fn fixed_instant(off: i32, local: Naive) -> Option<i128> {
    match fixed_earliest_of(off, local) {
        Some(t) => Some(nanos_of(t) as i128),
        None => match an_hour_later_of(local) {
            Some(later) => match fixed_earliest_of(off, later) {
                Some(t) => Some(nanos_of(t) as i128),
                None => None,
            },
            None => None,
        },
    }
}

/// A reading in the zone named `tzid`, with the same rule; `None` when the
/// TZID names no zone.
pub open spec fn named_instant(tzid: Seq<char>, local: Naive) -> Option<i128> {
    match tz_earliest_of(tzid, local) {
        Err(()) => None,
        Ok(Some(t)) => Some(nanos_of(t) as i128),
        Ok(None) => match an_hour_later_of(local) {
            Some(later) => match tz_earliest_of(tzid, later) {
                Ok(Some(t)) => Some(nanos_of(t) as i128),
                _ => None,
            },
            None => None,
        },
    }
}

/// The instant a date-time written in one of the four forms names, read in
/// `zone`, where a clause can say: everywhere but a floating time or a date
/// read in the machine's own zone (the outer `None`).
pub open spec fn written_instant(w: WrittenView, zone: Zone) -> Option<Option<i128>> {
    match w {
        WrittenView::Utc(t) => Some(Some(nanos_of(t) as i128)),
        WrittenView::Zoned { local, tzid } => Some(named_instant(tzid, local)),
        WrittenView::Floating(local) => match zone {
            Zone::Fixed(off) => Some(fixed_instant(off, local)),
            Zone::Local => None,
        },
        WrittenView::Date { year, month, day } => match zone {
            Zone::Fixed(off) => Some(
                fixed_instant(off, Naive { year, month, day, hour: 0, minute: 0, second: 0 }),
            ),
            Zone::Local => None,
        },
    }
}

/// The first hour of a gap a zone skips is no instant at all; rather than
/// drop the event, it is read an hour later, since a block drawn an hour
/// late beats a block the user cannot see. A reading that happened twice is
/// read as the earlier of the two.
fn resolve_in(zone: Zone, local: Naive) -> (r: Option<i128>)
    requires
        zone_ok(zone),
    ensures
        r matches Some(t) ==> instant_ok(t as int),
        zone matches Zone::Fixed(off) ==> r == fixed_instant(off, local),
{
    match earliest_in(zone, local) {
        Some(t) => Some(instant_of(t)),
        None => match an_hour_later(local) {
            Some(later) => match earliest_in(zone, later) {
                Some(t) => Some(instant_of(t)),
                None => None,
            },
            None => None,
        },
    }
}

pub(crate) fn earliest_in(zone: Zone, local: Naive) -> (r: Option<Moment>)
    requires
        zone_ok(zone),
    ensures
        r matches Some(t) ==> chrono_input_ok(t),
        zone matches Zone::Fixed(off) ==> r == fixed_earliest_of(off, local),
{
    match zone {
        Zone::Local => local_earliest(local),
        Zone::Fixed(off) => fixed_earliest(off, local),
    }
}

/// A reading in the zone named `tzid`, with the same rule for a skipped
/// hour; a TZID that names no zone gives no instant.
fn resolve_named(tzid: &str, local: Naive) -> (r: Option<i128>)
    ensures
        r matches Some(t) ==> instant_ok(t as int),
        r == named_instant(tzid@, local),
{
    match tz_earliest(tzid, local) {
        Err(()) => None,
        Ok(Some(t)) => Some(instant_of(t)),
        Ok(None) => match an_hour_later(local) {
            Some(later) => match tz_earliest(tzid, later) {
                Ok(Some(t)) => Some(instant_of(t)),
                _ => None,
            },
            None => None,
        },
    }
}

/// Resolve one of the four forms to an instant: a UTC time as written, a
/// zoned one through its own zone, and a floating time or a date (at
/// midnight) in `zone`, since RFC 5545 says such a time floats to whoever
/// is reading it.
pub fn instant(w: &Written, zone: Zone) -> (r: Option<i128>)
    requires
        zone_ok(zone),
        w matches Written::Utc(t) ==> chrono_ok(*t),
    ensures
        r matches Some(t) ==> instant_ok(t as int),
        written_instant(written_view(*w), zone) matches Some(x) ==> r == x,
{
    match w {
        Written::Utc(t) => Some(instant_of(*t)),
        Written::Zoned { local, tzid } => resolve_named(tzid.as_str(), *local),
        Written::Floating(local) => resolve_in(zone, *local),
        Written::Date { year, month, day } => resolve_in(
            zone,
            Naive { year: *year, month: *month, day: *day, hour: 0, minute: 0, second: 0 },
        ),
    }
}

/// Does this VEVENT repeat? An RRULE or an RDATE makes it so.
pub fn is_recurring(e: &icalendar::Event) -> (r: bool)
    ensures
        r == repeats(event_view(*e)),
{
    event_has_property(e, "RRULE") || event_has_multi_property(e, "RDATE")
}

/// How recent a VEVENT claims to be: SEQUENCE counts revisions (none is
/// zero), and LAST-MODIFIED breaks a tie, with DTSTAMP standing in for an
/// event that was never edited.
pub fn revision(sequence: Option<u32>, last_modified: Option<Moment>, stamp: Option<Moment>) -> (r: (
    u32,
    Option<i128>,
))
    requires
        last_modified matches Some(t) ==> chrono_ok(t),
        stamp matches Some(t) ==> chrono_ok(t),
    ensures
        r.0 == match sequence {
            Some(s) => s,
            None => 0,
        },
        r.1 == match last_modified {
            Some(t) => Some(nanos_of(t) as i128),
            None => match stamp {
                Some(t) => Some(nanos_of(t) as i128),
                None => None,
            },
        },
{
    let seq = match sequence {
        Some(s) => s,
        None => 0,
    };
    let revised = match last_modified {
        Some(t) => Some(instant_of(t)),
        None => match stamp {
            Some(t) => Some(instant_of(t)),
            None => None,
        },
    };
    (seq, revised)
}

/// The month an instant falls in at a fixed offset. `None` for the
/// machine's own zone, whose answer no clause can name.
pub open spec fn month_at(zone: Zone, t: i128) -> Option<YearMonth> {
    match reading_in(zone, t) {
        Some(x) => Some(YearMonth { year: x.date.year, month: x.date.month }),
        None => None,
    }
}

/// `m` is the month `t` falls in, as far as a clause can say.
pub open spec fn month_is(zone: Zone, t: i128, m: YearMonth) -> bool {
    month_at(zone, t) matches Some(x) ==> m == x
}

impl YearMonth {
    /// The month an instant falls in, read in `zone`.
    pub fn of(t: i128, zone: Zone) -> (r: YearMonth)
        requires
            zone_ok(zone),
            in_chrono(t as int),
        ensures
            1 <= r.month <= 12,
            month_at(zone, t) matches Some(m) ==> r == m,
    {
        let seen = reading_at(zone, t);
        YearMonth { year: seen.date.year, month: seen.date.month }
    }
}

pub open spec fn text_or_empty(t: Option<Seq<char>>) -> Seq<char> {
    match t {
        Some(x) => x,
        None => Seq::empty(),
    }
}

/// The instant a VEVENT's date-time under `key` names in `zone`: `None`
/// inside when it has none or names no instant, and the outer `None` where
/// no clause can say (a floating time or a date in the machine's zone).
pub open spec fn instant_at(v: EventView, key: Seq<char>, zone: Zone) -> Option<Option<i128>> {
    match written_at(v, key) {
        None => Some(None),
        Some(w) => written_instant(w, zone),
    }
}

/// `ev` is what the week view reads off a VEVENT holding `v`, in `zone`.
pub open spec fn vevent_fits(ev: Vevent, v: EventView, zone: Zone) -> bool {
    &&& ev.uid@ == uid_in(v.0)
    &&& ev.summary@ == text_or_empty(prop(v.0, "SUMMARY"@))
    &&& (instant_at(v, "DTSTART"@, zone) matches Some(x) ==> ev.start == x)
    &&& (instant_at(v, "DTEND"@, zone) matches Some(x) ==> ev.end == x)
    &&& ev.all_day == (written_at(v, "DTSTART"@) matches Some(WrittenView::Date { .. }))
    &&& ev.recurring == repeats(v)
}

/// A VEVENT with neither RRULE nor RDATE whose DTSTART names the instant
/// `start` is drawn exactly once in a window it overlaps and not at all in
/// one it misses. The block runs to DTEND when that names a later instant,
/// else for an hour, or a day when DTSTART is a date; it is keyed on the UID,
/// or on where the VEVENT was found when it has none, and whatever recurrence
/// expansion is at hand plays no part.
pub proof fn a_one_off_event_is_drawn_once_where_it_overlaps(
    ev: Vevent,
    v: EventView,
    zone: Zone,
    start: i128,
    end: Option<i128>,
    fallback: Seq<char>,
    from: int,
    to: int,
    expansion: Option<Seq<i128>>,
)
    requires
        vevent_fits(ev, v, zone),
        !repeats(v),
        instant_at(v, "DTSTART"@, zone) == Some(Some(start)),
        instant_at(v, "DTEND"@, zone) == Some(end),
    ensures
        ({
            let all_day = written_at(v, "DTSTART"@) matches Some(WrittenView::Date { .. });
            let stop = block_end(start as int, end, all_day);
            blocks_for(ev, fallback, from, to, expansion) == if start < to && stop > from {
                seq![
                    BlockView {
                        id: block_key(uid_in(v.0), fallback),
                        uid: uid_in(v.0),
                        summary: text_or_empty(prop(v.0, "SUMMARY"@)),
                        start: start as int,
                        end: stop,
                        recurring: false,
                        all_day,
                    },
                ]
            } else {
                Seq::empty()
            }
        }),
        implied(false) == 3600 * 1_000_000_000,
        implied(true) == 86400 * 1_000_000_000,
{
}

/// A VEVENT starting at `start` sits in its home shard `shard`: the month
/// `start` falls in, read in `zone`.
pub open spec fn at_home_in(start: Option<i128>, shard: YearMonth, zone: Zone) -> bool {
    start matches Some(t) && in_chrono(t as int) && month_at(zone, t) == Some(shard)
}

/// `rank` is how good the claim of a VEVENT holding `v` found in `shard`
/// is: its SEQUENCE (none counts as zero), its revision instant, and
/// whether its start falls in that month, which a clause can say at a
/// fixed offset.
pub open spec fn rank_fits(rank: Rank, v: EventView, shard: YearMonth, zone: Zone) -> bool {
    &&& rank.sequence == match sequence_in(v.0) {
        Some(n) => n,
        None => 0,
    }
    &&& rank.revised == revised_in(v.0)
    &&& (rank.at_home ==> written_at(v, "DTSTART"@) is Some)
    &&& (zone is Fixed ==> (instant_at(v, "DTSTART"@, zone) matches Some(x) && rank.at_home == at_home_in(
        x,
        shard,
        zone,
    )))
}

/// What the rest of the calendar needs of one VEVENT found at position
/// `index` of `shard`: where it is and how good its claim is, and what the
/// week view reads off it.
pub fn facts_of(e: &icalendar::Event, shard: YearMonth, index: usize, zone: Zone) -> (r: (Found, Vevent))
    requires
        zone_ok(zone),
    ensures
        r.0.shard == shard,
        r.0.index == index,
        r.0.uid@ == r.1.uid@,
        r.0.recurring == r.1.recurring,
        crate::calendar::blocks::vevent_ok(r.1),
        r.0.uid@ == uid_in(event_props(*e)),
        r.0.recurring == repeats(event_view(*e)),
        vevent_fits(r.1, event_view(*e), zone),
        rank_fits(r.0.rank, event_view(*e), shard, zone),
{
    let uid = match event_uid(e) {
        Some(u) => u,
        None => String::new(),
    };
    let summary = match event_summary(e) {
        Some(s) => s,
        None => String::new(),
    };
    let start_written = event_start(e);
    let end_written = event_end(e);
    let start = match &start_written {
        Some(w) => instant(w, zone),
        None => None,
    };
    let end = match &end_written {
        Some(w) => instant(w, zone),
        None => None,
    };
    let all_day = match &start_written {
        Some(Written::Date { .. }) => true,
        _ => false,
    };
    let recurring = is_recurring(e);
    let (sequence, revised) = revision(event_sequence(e), event_last_modified(e), event_stamp(e));
    // An instant past the end of `chrono`'s range, which only a leap second
    // in its very last second could make, is read as away from home.
    let at_home = match start {
        Some(t) => CHRONO_MIN_SECS as i128 * 1_000_000_000 <= t && t <= CHRONO_MAX_SECS as i128 * 1_000_000_000
            + 999_999_999 && YearMonth::of(t, zone) == shard,
        None => false,
    };
    let key = uid.clone();
    (
        Found { shard, index, uid: key, rank: Rank { sequence, revised, at_home }, recurring },
        Vevent { uid, summary, start, end, all_day, recurring },
    )
}

/// An instant in nanoseconds as whole seconds, rounded down, and the
/// nanoseconds past them.
pub open spec fn moment_at(t: i128) -> Moment {
    Moment { secs: (t / 1_000_000_000) as i64, nanos: (t % 1_000_000_000) as u32 }
}

/// An instant inside `chrono`'s range as `chrono` takes it.
pub(crate) fn moment_of(t: i128) -> (r: Moment)
    requires
        in_chrono(t as int),
    ensures
        chrono_input_ok(r),
        nanos_of(r) == t,
        r == moment_at(t),
{
    let secs = crate::calendar::blocks::whole_seconds(t);
    let nanos = t - secs * 1_000_000_000;
    assert(0 <= nanos < 1_000_000_000 && CHRONO_MIN_SECS <= secs <= CHRONO_MAX_SECS) by (nonlinear_arith)
        requires
            secs == t as int / 1_000_000_000int,
            nanos == t - secs * 1_000_000_000,
            in_chrono(t as int),
    ;
    Moment { secs: secs as i64, nanos: nanos as u32 }
}

/// Parse one shard. A shard that is not valid iCalendar is reported with
/// its path, not ignored.
pub fn read_shard(text: &str, path: &str) -> (r: Result<icalendar::Calendar, AppError>)
    ensures
        match parse_of(text@) {
            Ok(components) => r matches Ok(c) && calendar_components(c) == components,
            Err(m) => r matches Err(AppError::IcsDecode { path: p, reason }) && p@ == path@ && reason@ == m,
        },
{
    match parse_calendar(text) {
        Ok(c) => Ok(c),
        Err(reason) => Err(AppError::IcsDecode { path: path.to_owned(), reason }),
    }
}

/// One shard that was read: its month and its calendar.
pub struct Loaded {
    pub shard: YearMonth,
    pub calendar: icalendar::Calendar,
}

/// Every VEVENT of the shards read, in the order found: what the choice
/// between copies needs, what the week view draws, and the VEVENT itself.
pub struct Gathered {
    pub found: Vec<Found>,
    pub events: Vec<Vevent>,
    pub raw: Vec<icalendar::Event>,
}

pub open spec fn gathered_ok(g: Gathered) -> bool {
    &&& g.found@.len() == g.events@.len()
    &&& g.found@.len() == g.raw@.len()
    &&& forall|i: int| 0 <= i < g.events@.len() ==> crate::calendar::blocks::vevent_ok(#[trigger] g.events@[i])
    &&& forall|i: int|
        0 <= i < g.found@.len() ==> (#[trigger] g.found@[i]).uid@ == g.events@[i].uid@ && g.found@[i].recurring
            == g.events@[i].recurring
}

/// The VEVENTs among the first `n` components of `shard`, in order, each
/// with its month, its position among the components and what it holds.
pub open spec fn shard_vevents(
    shard: YearMonth,
    comps: Seq<Option<EventView>>,
    n: int,
) -> Seq<(YearMonth, int, EventView)>
    decreases n,
{
    if n <= 0 {
        Seq::empty()
    } else {
        let before = shard_vevents(shard, comps, n - 1);
        match comps[n - 1] {
            Some(v) => before.push((shard, n - 1, v)),
            None => before,
        }
    }
}

/// The VEVENTs of the first `k` shards read, shard after shard.
pub open spec fn vevents_of(loaded: Seq<Loaded>, k: int) -> Seq<
    (YearMonth, int, EventView),
>
    decreases k,
{
    if k <= 0 {
        Seq::empty()
    } else {
        let comps = calendar_components(loaded[k - 1].calendar);
        vevents_of(loaded, k - 1) + shard_vevents(loaded[k - 1].shard, comps, comps.len() as int)
    }
}

/// Entry `i` of what was gathered is the VEVENT `v` found at `index` of
/// `shard`.
pub open spec fn gathered_at(
    g: Gathered,
    i: int,
    v: (YearMonth, int, EventView),
    zone: Zone,
) -> bool {
    &&& g.found@[i].shard == v.0
    &&& g.found@[i].index == v.1
    &&& event_view(g.raw@[i]) == v.2
    &&& g.found@[i].uid@ == uid_in(v.2.0)
    &&& g.found@[i].recurring == repeats(v.2)
    &&& rank_fits(g.found@[i].rank, v.2, v.0, zone)
    &&& vevent_fits(g.events@[i], v.2, zone)
}

/// Read every VEVENT out of the shards, oldest shard first, each under the
/// position it holds among its shard's components.
pub fn gather(loaded: &Vec<Loaded>, zone: Zone) -> (r: Gathered)
    requires
        zone_ok(zone),
    ensures
        gathered_ok(r),
        r.found@.len() == vevents_of(loaded@, loaded@.len() as int).len(),
        forall|i: int|
            0 <= i < r.found@.len() ==> #[trigger] gathered_at(r, i, vevents_of(loaded@, loaded@.len() as int)[i], zone),
{
    let mut g = Gathered { found: Vec::new(), events: Vec::new(), raw: Vec::new() };
    let mut k: usize = 0;
    while k < loaded.len()
        invariant
            k <= loaded@.len(),
            zone_ok(zone),
            gathered_ok(g),
            g.found@.len() == vevents_of(loaded@, k as int).len(),
            forall|i: int| 0 <= i < g.found@.len() ==> #[trigger] gathered_at(g, i, vevents_of(loaded@, k as int)[i], zone),
        decreases loaded@.len() - k,
    {
        let shard = loaded[k].shard;
        let components = component_events(&loaded[k].calendar);
        let ghost comps = calendar_components(loaded@[k as int].calendar);
        let ghost before = vevents_of(loaded@, k as int);
        assert(before + shard_vevents(shard, comps, 0) =~= before);
        let mut j: usize = 0;
        while j < components.len()
            invariant
                j <= components@.len(),
                k < loaded@.len(),
                shard == loaded@[k as int].shard,
                comps == calendar_components(loaded@[k as int].calendar),
                components_view(components@) == comps,
                before == vevents_of(loaded@, k as int),
                zone_ok(zone),
                gathered_ok(g),
                g.found@.len() == (before + shard_vevents(shard, comps, j as int)).len(),
                forall|i: int|
                    0 <= i < g.found@.len() ==> #[trigger] gathered_at(
                        g,
                        i,
                        (before + shard_vevents(shard, comps, j as int))[i],
                        zone,
                    ),
            decreases components@.len() - j,
        {
            let ghost so_far = before + shard_vevents(shard, comps, j as int);
            let ghost g0 = g;
            assert(comps[j as int] == component_view(components@[j as int]));
            match &components[j] {
                Some(e) => {
                    let (found, event) = facts_of(e, shard, j, zone);
                    g.found.push(found);
                    g.events.push(event);
                    g.raw.push(clone_event(e));
                    let ghost entry = (shard, j as int, event_view(*e));
                    assert(before + shard_vevents(shard, comps, j + 1) =~= so_far.push(entry));
                    assert forall|i: int| 0 <= i < g.found@.len() implies #[trigger] gathered_at(
                        g,
                        i,
                        so_far.push(entry)[i],
                        zone,
                    ) by {
                        if i < g0.found@.len() {
                            assert(gathered_at(g0, i, so_far[i], zone));
                        }
                    }
                },
                None => {
                    assert(before + shard_vevents(shard, comps, j + 1) =~= so_far);
                },
            }
            j = j + 1;
        }
        assert(vevents_of(loaded@, k + 1) =~= before + shard_vevents(shard, comps, comps.len() as int));
        k = k + 1;
    }
    g
}

/// Calls `Event::clone`, which is derived: the copy holds the same
/// properties.
#[verifier::external_body]
fn clone_event(e: &icalendar::Event) -> (r: icalendar::Event)
    ensures
        event_view(r) == event_view(*e),
{
    e.clone()
}

/// Where the recurrence search for `ev` over a window from `from` begins:
/// one block length (at most a year) earlier, or `from` itself where that
/// would leave what `chrono` can name.
pub open spec fn search_from(ev: Vevent, from: int) -> int {
    match ev.start {
        Some(s) => {
            let lo = crate::calendar::blocks::search_start_spec(
                from,
                crate::calendar::blocks::block_end(s as int, ev.end, ev.all_day) - s,
            );
            if CHRONO_MIN_SECS * 1_000_000_000 <= lo {
                lo
            } else {
                from
            }
        },
        None => from,
    }
}

/// What the recurrence rule of the VEVENT behind `ev` yields for a window
/// `[from, to)`: searched from one block length (at most a year) before the
/// window, so an occurrence running into it is found, and `None` when the
/// rule cannot be read or the VEVENT has no start.
/// What the recurrence of a VEVENT holding `v`, drawn as `ev`, gives for a
/// window from `from` to `to`, where a clause can say: when every date-time
/// it reads names its own zone.
pub open spec fn expands_to(v: EventView, ev: Vevent, from: int, to: int, r: Option<Vec<i128>>) -> bool {
    anchored(v) && ev.start is Some ==> match recurrence_of(
        v.0,
        v.1,
        v.2,
        moment_at(search_from(ev, from) as i128),
        moment_at(to as i128),
        OCCURRENCE_LIMIT,
    ) {
        Ok(m) => r matches Some(out) && out@ == m.map_values(|t: Moment| nanos_of(t) as i128),
        Err(_) => r is None,
    }
}

pub fn expansion(raw: &icalendar::Event, ev: &Vevent, from: i128, to: i128) -> (r: Option<Vec<i128>>)
    requires
        crate::calendar::blocks::vevent_ok(*ev),
        in_chrono(from as int),
        in_chrono(to as int),
    ensures
        r matches Some(v) ==> forall|i: int| 0 <= i < v@.len() ==> instant_ok(#[trigger] v@[i] as int),
        ev.start is None ==> r is None,
        r matches Some(v) ==> v@.len() <= OCCURRENCE_LIMIT,
        r matches Some(v) ==> forall|i: int| 0 <= i < v@.len() ==> search_from(*ev, from as int) <= #[trigger] v@[i] <= to,
        expands_to(event_view(*raw), *ev, from as int, to as int, r),
{
    let d = match duration_of(ev) {
        Some(d) => d,
        None => return None,
    };
    let s = search_start(from, d);
    // A search start before what `chrono` can name falls back to the
    // window's own start.
    let s = if CHRONO_MIN_SECS as i128 * 1_000_000_000 <= s {
        s
    } else {
        from
    };
    assert(s == search_from(*ev, from as int));
    match expand_recurrence(raw, moment_of(s), moment_of(to), OCCURRENCE_LIMIT) {
        Ok(found) => {
            let mut out: Vec<i128> = Vec::new();
            let mut i: usize = 0;
            while i < found.len()
                invariant
                    i <= found@.len(),
                    out@.len() == i,
                    found@.len() <= OCCURRENCE_LIMIT,
                    forall|j: int| 0 <= j < found@.len() ==> chrono_ok(#[trigger] found@[j]),
                    forall|j: int|
                        0 <= j < found@.len() ==> search_from(*ev, from as int) <= nanos_of(#[trigger] found@[j]) <= to,
                    forall|j: int| 0 <= j < i ==> instant_ok(#[trigger] out@[j] as int) && out@[j] == nanos_of(found@[j]),
                decreases found@.len() - i,
            {
                out.push(instant_of(found[i]));
                i = i + 1;
            }
            assert(out@ =~= found@.map_values(|t: Moment| nanos_of(t) as i128));
            Some(out)
        },
        Err(_) => None,
    }
}


/// The product this app's own files say wrote them. RFC 5545 asks the
/// writer to identify itself, and a file handed to the user should not
/// claim to come from the library it was built with.
pub const PRODID: &'static str = "-//Hinoki//WabiCalendar//EN";

/// Calls `Calendar::new`, which holds VERSION, a PRODID and CALSCALE and no
/// components.
#[verifier::external_body]
fn new_calendar() -> (r: icalendar::Calendar)
    ensures
        calendar_props(r) == seq![
            ("VERSION"@, "2.0"@),
            ("PRODID"@, "ICALENDAR-RS"@),
            ("CALSCALE"@, "GREGORIAN"@),
        ],
        calendar_components(r) == Seq::<Option<EventView>>::empty(),
{
    icalendar::Calendar::new()
}

/// Drops every top-level property named `key`, matching on
/// `Property::key`; `Vec::retain` keeps the others in order.
#[verifier::external_body]
fn drop_calendar_property(cal: &mut icalendar::Calendar, key: &str)
    ensures
        calendar_props(*final(cal)) == calendar_props(*old(cal)).filter(
            |p: (Seq<char>, Seq<char>)| p.0 != key@,
        ),
        calendar_components(*final(cal)) == calendar_components(*old(cal)),
{
    cal.properties.retain(|p| p.key() != key)
}

/// Calls `Calendar::append_property` with `Property::new(key, value)`,
/// which pushes it after the others.
#[verifier::external_body]
fn append_calendar_property(cal: &mut icalendar::Calendar, key: &str, value: &str)
    ensures
        calendar_props(*final(cal)) == calendar_props(*old(cal)).push((key@, value@)),
        calendar_components(*final(cal)) == calendar_components(*old(cal)),
{
    cal.append_property(icalendar::Property::new(key, value));
}

/// Calls `Calendar::push` with a VEVENT, which goes after the other
/// components.
#[verifier::external_body]
fn push_event(cal: &mut icalendar::Calendar, e: icalendar::Event)
    ensures
        calendar_components(*final(cal)) == calendar_components(*old(cal)).push(Some(event_view(e))),
        calendar_props(*final(cal)) == calendar_props(*old(cal)),
{
    cal.push(e);
}

/// Replaces the component at `index` with a VEVENT, in place.
#[verifier::external_body]
fn replace_component(cal: &mut icalendar::Calendar, index: usize, e: icalendar::Event)
    requires
        index < calendar_components(*old(cal)).len(),
    ensures
        calendar_components(*final(cal)) == calendar_components(*old(cal)).update(index as int, Some(event_view(e))),
        calendar_props(*final(cal)) == calendar_props(*old(cal)),
{
    cal.components[index] = e.into();
}

/// Calls `Vec::remove` on the components at `index`.
#[verifier::external_body]
fn remove_component(cal: &mut icalendar::Calendar, index: usize)
    requires
        index < calendar_components(*old(cal)).len(),
    ensures
        calendar_components(*final(cal)) == calendar_components(*old(cal)).remove(index as int),
        calendar_props(*final(cal)) == calendar_props(*old(cal)),
{
    cal.components.remove(index);
}

/// Calls `Calendar`'s `Display`: the text of the file, written from the
/// calendar's properties and components (see [`renders`] for what is left
/// open).
#[verifier::external_body]
fn calendar_text(cal: &icalendar::Calendar) -> (r: String)
    ensures
        renders(calendar_props(*cal), calendar_components(*cal), r@),
{
    cal.to_string()
}

/// Calls `Event::new`, which is `Default`: no properties at all.
#[verifier::external_body]
fn new_event() -> (r: icalendar::Event)
    ensures
        event_props(r) == no_props(),
        event_params(r) == no_params(),
        event_multi(r) == no_repeats(),
{
    icalendar::Event::new()
}

/// Calls `Component::uid`, which puts a UID property in place of any
/// other.
#[verifier::external_body]
fn set_uid(e: &mut icalendar::Event, uid: &str)
    ensures
        event_props(*final(e)) == event_props(*old(e)).insert("UID"@, uid@),
        event_params(*final(e)) == event_params(*old(e)).insert("UID"@, Map::empty()),
        event_multi(*final(e)) == event_multi(*old(e)),
{
    e.uid(uid);
}

/// Calls `Component::summary`, which puts a SUMMARY property in place of
/// any other.
#[verifier::external_body]
fn set_summary(e: &mut icalendar::Event, summary: &str)
    ensures
        event_props(*final(e)) == event_props(*old(e)).insert("SUMMARY"@, summary@),
        event_params(*final(e)) == event_params(*old(e)).insert("SUMMARY"@, Map::empty()),
        event_multi(*final(e)) == event_multi(*old(e)),
{
    e.summary(summary);
}

/// Calls `EventLike::starts` with a UTC date-time, which is written in
/// form 2 (`20260723T050000Z`) by `format_utc_date_time` in place of any
/// other DTSTART.
#[verifier::external_body]
fn set_start(e: &mut icalendar::Event, at: Moment)
    requires
        chrono_input_ok(at),
    ensures
        event_props(*final(e)) == event_props(*old(e)).insert("DTSTART"@, utc_text_of(at)),
        event_params(*final(e)) == event_params(*old(e)).insert("DTSTART"@, Map::empty()),
        event_multi(*final(e)) == event_multi(*old(e)),
{
    e.starts(chrono::DateTime::from_timestamp(at.secs, at.nanos).unwrap());
}

/// Calls `EventLike::ends` with a UTC date-time, written as above in place
/// of any other DTEND.
#[verifier::external_body]
fn set_end(e: &mut icalendar::Event, at: Moment)
    requires
        chrono_input_ok(at),
    ensures
        event_props(*final(e)) == event_props(*old(e)).insert("DTEND"@, utc_text_of(at)),
        event_params(*final(e)) == event_params(*old(e)).insert("DTEND"@, Map::empty()),
        event_multi(*final(e)) == event_multi(*old(e)),
{
    e.ends(chrono::DateTime::from_timestamp(at.secs, at.nanos).unwrap());
}

/// Calls `Component::timestamp` (DTSTAMP), written by
/// `format_utc_date_time` in place of any other.
#[verifier::external_body]
fn set_stamp(e: &mut icalendar::Event, at: Moment)
    requires
        chrono_input_ok(at),
    ensures
        event_props(*final(e)) == event_props(*old(e)).insert("DTSTAMP"@, utc_text_of(at)),
        event_params(*final(e)) == event_params(*old(e)).insert("DTSTAMP"@, Map::empty()),
        event_multi(*final(e)) == event_multi(*old(e)),
{
    e.timestamp(chrono::DateTime::from_timestamp(at.secs, at.nanos).unwrap());
}

/// Calls `Component::sequence`, which writes the number with `to_string`
/// in place of any other SEQUENCE.
#[verifier::external_body]
fn set_sequence(e: &mut icalendar::Event, sequence: u32)
    ensures
        event_props(*final(e)) == event_props(*old(e)).insert("SEQUENCE"@, decimal(sequence as nat)),
        event_params(*final(e)) == event_params(*old(e)).insert("SEQUENCE"@, Map::empty()),
        event_multi(*final(e)) == event_multi(*old(e)),
{
    e.sequence(sequence);
}

/// Calls `Component::last_modified`, written by `format_utc_date_time` in
/// place of any other LAST-MODIFIED.
#[verifier::external_body]
fn set_last_modified(e: &mut icalendar::Event, at: Moment)
    requires
        chrono_input_ok(at),
    ensures
        event_props(*final(e)) == event_props(*old(e)).insert("LAST-MODIFIED"@, utc_text_of(at)),
        event_params(*final(e)) == event_params(*old(e)).insert("LAST-MODIFIED"@, Map::empty()),
        event_multi(*final(e)) == event_multi(*old(e)),
{
    e.last_modified(chrono::DateTime::from_timestamp(at.secs, at.nanos).unwrap());
}

/// A new, empty shard of this app's: only for a shard that does not exist
/// yet, since an existing file keeps whatever PRODID it arrived with.
/// The properties of a new shard of this app's.
pub open spec fn blank_props() -> Seq<(Seq<char>, Seq<char>)> {
    seq![("VERSION"@, "2.0"@), ("CALSCALE"@, "GREGORIAN"@), ("PRODID"@, PRODID@)]
}

pub fn blank() -> (r: icalendar::Calendar)
    ensures
        calendar_props(r) == blank_props(),
        calendar_components(r).len() == 0,
{
    let mut cal = new_calendar();
    drop_calendar_property(&mut cal, "PRODID");
    append_calendar_property(&mut cal, "PRODID", PRODID);
    proof {
        reveal_strlit("VERSION");
        reveal_strlit("PRODID");
        reveal_strlit("CALSCALE");
        reveal_with_fuel(Seq::<(Seq<char>, Seq<char>)>::filter, 4);
        let props = seq![("VERSION"@, "2.0"@), ("PRODID"@, "ICALENDAR-RS"@), ("CALSCALE"@, "GREGORIAN"@)];
        assert(props.drop_last().drop_last().drop_last() =~= Seq::<(Seq<char>, Seq<char>)>::empty());
        assert(props.drop_last().drop_last() =~= seq![("VERSION"@, "2.0"@)]);
        assert(props.drop_last() =~= seq![("VERSION"@, "2.0"@), ("PRODID"@, "ICALENDAR-RS"@)]);
        assert("VERSION"@.len() == 7 && "PRODID"@.len() == 6 && "CALSCALE"@.len() == 8);
        assert(props.filter(|p: (Seq<char>, Seq<char>)| p.0 != "PRODID"@) =~= seq![
            ("VERSION"@, "2.0"@),
            ("CALSCALE"@, "GREGORIAN"@),
        ]);
    }
    cal
}

/// The parameters of a VEVENT built here: none on any of its properties.
pub open spec fn built_params() -> Map<Seq<char>, Map<Seq<char>, Seq<char>>> {
    no_params().insert("UID"@, Map::empty()).insert("SUMMARY"@, Map::empty()).insert("DTSTART"@, Map::empty()).insert(
        "DTEND"@,
        Map::empty(),
    ).insert("DTSTAMP"@, Map::empty())
}

/// The properties of a VEVENT built for `draft` under `uid`, stamped `now`.
pub open spec fn built_props(uid: Seq<char>, draft: EventDraft, now: Moment) -> Map<Seq<char>, Seq<char>> {
    no_props().insert("UID"@, uid).insert("SUMMARY"@, draft.summary@).insert(
        "DTSTART"@,
        utc_text_of(moment_at(draft.start)),
    ).insert("DTEND"@, utc_text_of(moment_at(draft.end))).insert("DTSTAMP"@, utc_text_of(now))
}

pub open spec fn draft_ok(draft: EventDraft) -> bool {
    in_chrono(draft.start as int) && in_chrono(draft.end as int)
}

/// A brand new VEVENT for `draft`, stamped `now`: DTSTAMP is required by
/// RFC 5545, and some importers reject a VEVENT without it.
pub fn build(uid: &str, draft: &EventDraft, now: Moment) -> (r: icalendar::Event)
    requires
        draft_ok(*draft),
        chrono_input_ok(now),
    ensures
        event_props(r) == built_props(uid@, *draft, now),
        event_params(r) == built_params(),
        event_multi(r) == no_repeats(),
{
    let mut e = new_event();
    set_uid(&mut e, uid);
    set_summary(&mut e, draft.summary.as_str());
    set_start(&mut e, moment_of(draft.start));
    set_end(&mut e, moment_of(draft.end));
    set_stamp(&mut e, now);
    e
}

/// The SEQUENCE an edit writes: one more than the VEVENT had (none counts
/// as zero), stopping at the largest there is.
pub open spec fn next_sequence(current: Option<u32>) -> u32 {
    match current {
        Some(s) => if s < u32::MAX {
            (s + 1) as u32
        } else {
            u32::MAX
        },
        None => 1,
    }
}

/// The parameters an edit leaves: none on the properties it writes.
pub open spec fn edited_params(params: Map<Seq<char>, Map<Seq<char>, Seq<char>>>) -> Map<
    Seq<char>,
    Map<Seq<char>, Seq<char>>,
> {
    params.insert("SUMMARY"@, Map::empty()).insert("DTSTART"@, Map::empty()).insert("DTEND"@, Map::empty()).insert(
        "SEQUENCE"@,
        Map::empty(),
    ).insert("LAST-MODIFIED"@, Map::empty())
}

/// What an edit for `draft` at `now` makes of a VEVENT's properties.
pub open spec fn edited_props(props: Map<Seq<char>, Seq<char>>, draft: EventDraft, now: Moment) -> Map<
    Seq<char>,
    Seq<char>,
> {
    props.insert("SUMMARY"@, draft.summary@).insert("DTSTART"@, utc_text_of(moment_at(draft.start))).insert(
        "DTEND"@,
        utc_text_of(moment_at(draft.end)),
    ).insert("SEQUENCE"@, decimal(next_sequence(sequence_in(props)) as nat)).insert(
        "LAST-MODIFIED"@,
        utc_text_of(now),
    )
}

/// Change only what a drag changed: the summary and the two times, in
/// place rather than rebuilt, since a VEVENT written by hand or imported can
/// carry DESCRIPTION, LOCATION, alarms and X- properties that are not this
/// app's to drop. The revision moves on, so the copy an edit writes always
/// outranks one a crash left behind.
pub fn apply(e: &mut icalendar::Event, draft: &EventDraft, now: Moment)
    requires
        draft_ok(*draft),
        chrono_input_ok(now),
    ensures
        event_props(*final(e)) == edited_props(event_props(*old(e)), *draft, now),
        event_params(*final(e)) == edited_params(event_params(*old(e))),
        event_multi(*final(e)) == event_multi(*old(e)),
{
    set_summary(e, draft.summary.as_str());
    set_start(e, moment_of(draft.start));
    set_end(e, moment_of(draft.end));
    proof {
        reveal_strlit("SEQUENCE");
        reveal_strlit("SUMMARY");
        reveal_strlit("DTSTART");
        reveal_strlit("DTEND");
        assert("SEQUENCE"@.len() == 8 && "SUMMARY"@.len() == 7 && "DTSTART"@.len() == 7 && "DTEND"@.len() == 5);
        let key = "SEQUENCE"@;
        let p0 = event_props(*old(e));
        let p1 = p0.insert("SUMMARY"@, draft.summary@);
        let p2 = p1.insert("DTSTART"@, utc_text_of(moment_at(draft.start)));
        let p3 = p2.insert("DTEND"@, utc_text_of(moment_at(draft.end)));
        assert(p3.dom().contains(key) == p0.dom().contains(key));
        assert(p0.dom().contains(key) ==> p3[key] == p0[key]);
        assert(event_props(*e) == p3);
    }
    let current = event_sequence(e);
    let next = match current {
        Some(s) => s.saturating_add(1),
        None => 1,
    };
    set_sequence(e, next);
    set_last_modified(e, now);
}

/// A component is a VEVENT with the UID `uid`. No VEVENT matches an
/// empty UID.
pub open spec fn has_uid(c: Option<EventView>, uid: Seq<char>) -> bool {
    c matches Some(v) && uid.len() > 0 && prop(v.0, "UID"@) == Some(uid)
}

/// The components from position `from` on, without the VEVENTs with the
/// UID `uid`, in order.
pub open spec fn kept_from(
    comps: Seq<Option<EventView>>,
    uid: Seq<char>,
    from: int,
) -> Seq<Option<EventView>>
    decreases comps.len() - from,
{
    if from < 0 || from >= comps.len() {
        Seq::empty()
    } else if has_uid(comps[from], uid) {
        kept_from(comps, uid, from + 1)
    } else {
        seq![comps[from]] + kept_from(comps, uid, from + 1)
    }
}

/// Remove every VEVENT with this UID from a calendar, keeping everything
/// else in order.
fn drop_uid(cal: &mut icalendar::Calendar, uid: &str)
    ensures
        calendar_components(*final(cal)) == kept_from(calendar_components(*old(cal)), uid@, 0),
        calendar_props(*final(cal)) == calendar_props(*old(cal)),
{
    let components = component_events(cal);
    let ghost comps = calendar_components(*old(cal));
    let mut j = components.len();
    assert(calendar_components(*cal) =~= comps.take(j as int) + kept_from(comps, uid@, j as int));
    while j > 0
        invariant
            j <= components@.len(),
            components_view(components@) == comps,
            calendar_components(*cal) == comps.take(j as int) + kept_from(comps, uid@, j as int),
            calendar_props(*cal) == calendar_props(*old(cal)),
        decreases j,
    {
        j = j - 1;
        let ghost rest = kept_from(comps, uid@, j + 1);
        assert(comps[j as int] == component_view(components@[j as int]));
        let mut dropped = false;
        match &components[j] {
            Some(e) => {
                match event_uid(e) {
                    Some(u) => if crate::text::str_eq(u.as_str(), uid) && !uid.is_empty() {
                        remove_component(cal, j);
                        dropped = true;
                    },
                    None => {},
                }
            },
            None => {},
        }
        if dropped {
            assert(has_uid(comps[j as int], uid@));
            assert((comps.take(j + 1) + rest).remove(j as int) =~= comps.take(j as int) + rest);
        } else {
            assert(!has_uid(comps[j as int], uid@));
            assert(comps.take(j + 1) + rest =~= comps.take(j as int) + (seq![comps[j as int]] + rest));
        }
    }
    assert(comps.take(0) + kept_from(comps, uid@, 0) =~= kept_from(comps, uid@, 0));
}

/// The shards an edit writes, in order: on a move the destination first.
pub open spec fn plan_shards(plan: EditPlan) -> Seq<YearMonth> {
    match plan {
        EditPlan::InPlace { shard } => seq![shard],
        EditPlan::Move { from, to } => seq![to, from],
    }
}

/// The shards a list of writes touches, in order.
pub open spec fn shards_written(writes: Seq<ShardWrite>) -> Seq<YearMonth> {
    Seq::new(writes.len(), |i: int| writes[i].shard)
}

/// The text of one shard to be written.
pub struct ShardWrite {
    pub shard: YearMonth,
    pub text: String,
}


/// The calendar of the first entry for `shard` at or after position
/// `from` of what was read.
pub open spec fn calendar_from(loaded: Seq<Loaded>, shard: YearMonth, from: int) -> Option<icalendar::Calendar>
    decreases loaded.len() - from,
{
    if from < 0 || from >= loaded.len() {
        None
    } else if loaded[from].shard == shard {
        Some(loaded[from].calendar)
    } else {
        calendar_from(loaded, shard, from + 1)
    }
}

/// Every month was read at most once, as a directory holds one file per
/// name.
pub open spec fn shards_distinct(loaded: Seq<Loaded>) -> bool {
    forall|i: int, j: int| 0 <= i < j < loaded.len() ==> (#[trigger] loaded[i]).shard != (#[trigger] loaded[j]).shard
}

/// The properties and components of the calendar read for `shard`, or of
/// a blank one when none was.
pub open spec fn shard_model(loaded: Seq<Loaded>, shard: YearMonth) -> (
    Seq<(Seq<char>, Seq<char>)>,
    Seq<Option<EventView>>,
) {
    match calendar_from(loaded, shard, 0) {
        Some(c) => (calendar_props(c), calendar_components(c)),
        None => (blank_props(), Seq::empty()),
    }
}

proof fn lemma_calendar_from_shift(s: Seq<Loaded>, k: int, b: YearMonth, i: int)
    requires
        0 <= k < s.len(),
        k <= i,
    ensures
        calendar_from(s.remove(k), b, i) == calendar_from(s, b, i + 1),
    decreases s.len() - i,
{
    if i < s.len() - 1 {
        assert(s.remove(k)[i] == s[i + 1]);
        lemma_calendar_from_shift(s, k, b, i + 1);
    }
}

/// Taking out an entry for another month leaves the calendar read for `b`
/// as it was.
proof fn lemma_calendar_from_remove(s: Seq<Loaded>, k: int, b: YearMonth, from: int)
    requires
        0 <= k < s.len(),
        s[k].shard != b,
        0 <= from <= k,
    ensures
        calendar_from(s.remove(k), b, from) == calendar_from(s, b, from),
    decreases k - from,
{
    if from < k {
        assert(s.remove(k)[from] == s[from]);
        lemma_calendar_from_remove(s, k, b, from + 1);
    } else {
        lemma_calendar_from_shift(s, k, b, k);
    }
}

/// With every month read once, the calendar read for the month of entry `k`
/// is that entry's.
proof fn lemma_calendar_from_unique(s: Seq<Loaded>, k: int, from: int)
    requires
        shards_distinct(s),
        0 <= from <= k < s.len(),
    ensures
        calendar_from(s, s[k].shard, from) == Some(s[k].calendar),
    decreases k - from,
{
    if from < k {
        assert(s[from].shard != s[k].shard);
        lemma_calendar_from_unique(s, k, from + 1);
    }
}

proof fn lemma_shard_vevents_located(
    shard: YearMonth,
    comps: Seq<Option<EventView>>,
    n: int,
    j: int,
)
    requires
        n <= comps.len(),
        0 <= j < shard_vevents(shard, comps, n).len(),
    ensures
        shard_vevents(shard, comps, n)[j].0 == shard,
        0 <= shard_vevents(shard, comps, n)[j].1 < n,
        comps[shard_vevents(shard, comps, n)[j].1] == Some(shard_vevents(shard, comps, n)[j].2),
    decreases n,
{
    if n > 0 {
        let before = shard_vevents(shard, comps, n - 1);
        if j < before.len() {
            lemma_shard_vevents_located(shard, comps, n - 1, j);
        }
    }
}

/// Every VEVENT gathered sits, at its position, in an entry read for its
/// month.
proof fn lemma_vevents_located(loaded: Seq<Loaded>, k: int, i: int)
    requires
        0 <= k <= loaded.len(),
        0 <= i < vevents_of(loaded, k).len(),
    ensures
        exists|q: int|
            {
                &&& 0 <= q < k
                &&& #[trigger] loaded[q].shard == vevents_of(loaded, k)[i].0
                &&& 0 <= vevents_of(loaded, k)[i].1 < calendar_components(loaded[q].calendar).len()
                &&& calendar_components(loaded[q].calendar)[vevents_of(loaded, k)[i].1] == Some(
                    vevents_of(loaded, k)[i].2,
                )
            },
    decreases k,
{
    let before = vevents_of(loaded, k - 1);
    if i < before.len() {
        lemma_vevents_located(loaded, k - 1, i);
        let q = choose|q: int|
            {
                &&& 0 <= q < k - 1
                &&& #[trigger] loaded[q].shard == before[i].0
                &&& 0 <= before[i].1 < calendar_components(loaded[q].calendar).len()
                &&& calendar_components(loaded[q].calendar)[before[i].1] == Some(before[i].2)
            };
        assert(loaded[q].shard == vevents_of(loaded, k)[i].0);
    } else {
        let comps = calendar_components(loaded[k - 1].calendar);
        lemma_shard_vevents_located(loaded[k - 1].shard, comps, comps.len() as int, i - before.len());
        assert(loaded[k - 1].shard == vevents_of(loaded, k)[i].0);
    }
}

/// Take the shard `shard` out of what was read, when it was: the first
/// entry for that month leaves the list and its calendar comes back.
fn take_shard(loaded: &mut Vec<Loaded>, shard: YearMonth) -> (r: Option<icalendar::Calendar>)
    ensures
        match r {
            Some(c) => exists|k: int|
                {
                    &&& 0 <= k < old(loaded)@.len()
                    &&& #[trigger] old(loaded)@[k].shard == shard
                    &&& forall|j: int| 0 <= j < k ==> old(loaded)@[j].shard != shard
                    &&& c == old(loaded)@[k].calendar
                    &&& final(loaded)@ == old(loaded)@.remove(k)
                },
            None => {
                &&& forall|k: int| 0 <= k < old(loaded)@.len() ==> old(loaded)@[k].shard != shard
                &&& final(loaded)@ == old(loaded)@
            },
        },
        r == calendar_from(old(loaded)@, shard, 0),
{
    let mut k: usize = 0;
    while k < loaded.len()
        invariant
            k <= loaded@.len(),
            loaded@ == old(loaded)@,
            forall|j: int| 0 <= j < k ==> old(loaded)@[j].shard != shard,
            calendar_from(old(loaded)@, shard, 0) == calendar_from(old(loaded)@, shard, k as int),
        decreases loaded@.len() - k,
    {
        if loaded[k].shard == shard {
            let taken = loaded.remove(k);
            return Some(taken.calendar);
        }
        k = k + 1;
    }
    None
}



/// The properties and components of the shard a new event goes into: the
/// one that exists, or a blank one.
pub open spec fn existing_model(existing: Option<icalendar::Calendar>) -> (
    Seq<(Seq<char>, Seq<char>)>,
    Seq<Option<EventView>>,
) {
    match existing {
        Some(c) => (calendar_props(c), calendar_components(c)),
        None => (blank_props(), Seq::empty()),
    }
}

/// `copies` is what was gathered from `loaded` in `zone`: each copy's
/// month, position, UID, whether it repeats, and its rank.
pub open spec fn found_from(copies: Seq<Found>, loaded: Seq<Loaded>, zone: Zone) -> bool {
    let v = vevents_of(loaded, loaded.len() as int);
    &&& copies.len() == v.len()
    &&& forall|i: int|
        0 <= i < copies.len() ==> {
            &&& (#[trigger] copies[i]).shard == v[i].0
            &&& copies[i].index == v[i].1
            &&& copies[i].uid@ == uid_in(v[i].2.0)
            &&& copies[i].recurring == repeats(v[i].2)
            &&& rank_fits(copies[i].rank, v[i].2, v[i].0, zone)
        }
}

/// The shards an edit of `copy` for `draft` writes: its own shard with the
/// VEVENT edited in its slot, or, on a move to `target`, first the
/// destination without any VEVENT of the UID and with the edited one added
/// last, then the source without it.
pub open spec fn update_writes(
    writes: Seq<ShardWrite>,
    loaded: Seq<Loaded>,
    copy: (YearMonth, int, EventView),
    target: YearMonth,
    uid: Seq<char>,
    draft: EventDraft,
    now: Moment,
) -> bool {
    let edited = Some((edited_props(copy.2.0, draft, now), edited_params(copy.2.1), copy.2.2));
    let source = shard_model(loaded, copy.0);
    if copy.0 == target {
        &&& writes.len() == 1
        &&& renders(source.0, source.1.update(copy.1, edited), writes[0].text@)
    } else {
        let destination = shard_model(loaded, target);
        &&& writes.len() == 2
        &&& renders(destination.0, kept_from(destination.1, uid, 0).push(edited), writes[0].text@)
        &&& renders(source.0, source.1.remove(copy.1), writes[1].text@)
    }
}

/// The text written for a shard a delete touches: the shard as read,
/// without any VEVENT of the UID.
pub open spec fn deleted_from(w: ShardWrite, loaded: Seq<Loaded>, uid: Seq<char>) -> bool {
    let m = shard_model(loaded, w.shard);
    renders(m.0, kept_from(m.1, uid, 0), w.text@)
}

/// Keeping the components from `from` on is filtering them by not having
/// the UID.
proof fn lemma_kept_is_filtered(comps: Seq<Option<EventView>>, uid: Seq<char>, from: int)
    requires
        0 <= from <= comps.len(),
    ensures
        kept_from(comps, uid, from) == comps.skip(from).filter(|c: Option<EventView>| !has_uid(c, uid)),
    decreases comps.len() - from,
{
    let keep = |c: Option<EventView>| !has_uid(c, uid);
    if from == comps.len() {
        assert(comps.skip(from) =~= Seq::<Option<EventView>>::empty());
        assert(comps.skip(from).filter(keep) =~= Seq::<Option<EventView>>::empty()) by {
            reveal(Seq::filter);
        }
    } else {
        lemma_kept_is_filtered(comps, uid, from + 1);
        assert(comps.skip(from) =~= seq![comps[from]] + comps.skip(from + 1));
        comps.skip(from + 1).lemma_filter_prepend(comps[from], keep);
    }
}

/// A shard a delete rewrites keeps every component that is not a VEVENT
/// with the UID, in the order the shard had them, and no VEVENT with it:
/// every copy is swept, not just the one shown.
pub proof fn a_delete_sweeps_every_copy_and_keeps_the_rest(w: ShardWrite, loaded: Seq<Loaded>, uid: Seq<char>)
    requires
        deleted_from(w, loaded, uid),
    ensures
        ({
            let m = shard_model(loaded, w.shard);
            let kept = m.1.filter(|c: Option<EventView>| !has_uid(c, uid));
            &&& renders(m.0, kept, w.text@)
            &&& forall|i: int| 0 <= i < kept.len() ==> !has_uid(#[trigger] kept[i], uid)
        }),
{
    let m = shard_model(loaded, w.shard);
    let keep = |c: Option<EventView>| !has_uid(c, uid);
    lemma_kept_is_filtered(m.1, uid, 0);
    assert(m.1.skip(0) =~= m.1);
    let kept = m.1.filter(keep);
    assert forall|i: int| 0 <= i < kept.len() implies !has_uid(#[trigger] kept[i], uid) by {
        m.1.lemma_filter_pred(keep, i);
    }
}

/// An edit that moves a VEVENT to another month writes the destination with
/// exactly one VEVENT of the UID, the edited copy, last: a copy a crashed
/// move left there is swept first, and everything else there is kept in
/// order. The edited copy still answers to the UID.
pub proof fn a_moved_event_lands_in_its_new_month_once(
    writes: Seq<ShardWrite>,
    loaded: Seq<Loaded>,
    copy: (YearMonth, int, EventView),
    target: YearMonth,
    uid: Seq<char>,
    draft: EventDraft,
    now: Moment,
)
    requires
        update_writes(writes, loaded, copy, target, uid, draft, now),
        copy.0 != target,
        uid.len() > 0,
        uid_in(copy.2.0) == uid,
    ensures
        ({
            let destination = shard_model(loaded, target);
            let edited = Some((edited_props(copy.2.0, draft, now), edited_params(copy.2.1), copy.2.2));
            let comps = destination.1.filter(|c: Option<EventView>| !has_uid(c, uid)).push(edited);
            &&& renders(destination.0, comps, writes[0].text@)
            &&& has_uid(comps.last(), uid)
            &&& forall|i: int| 0 <= i < comps.len() - 1 ==> !has_uid(#[trigger] comps[i], uid)
        }),
{
    let destination = shard_model(loaded, target);
    let keep = |c: Option<EventView>| !has_uid(c, uid);
    lemma_kept_is_filtered(destination.1, uid, 0);
    assert(destination.1.skip(0) =~= destination.1);
    let kept = destination.1.filter(keep);
    let edited = Some((edited_props(copy.2.0, draft, now), edited_params(copy.2.1), copy.2.2));
    let comps = kept.push(edited);
    assert forall|i: int| 0 <= i < comps.len() - 1 implies !has_uid(#[trigger] comps[i], uid) by {
        destination.1.lemma_filter_pred(keep, i);
        assert(comps[i] == kept[i]);
    }
    reveal_strlit("UID");
    reveal_strlit("SUMMARY");
    reveal_strlit("DTSTART");
    reveal_strlit("DTEND");
    reveal_strlit("SEQUENCE");
    reveal_strlit("LAST-MODIFIED");
    assert("UID"@ != "SUMMARY"@ && "UID"@ != "DTSTART"@ && "UID"@ != "DTEND"@ && "UID"@ != "SEQUENCE"@ && "UID"@
        != "LAST-MODIFIED"@) by {
        assert("UID"@.len() != "SUMMARY"@.len());
        assert("UID"@.len() != "DTSTART"@.len());
        assert("UID"@.len() != "DTEND"@.len());
        assert("UID"@.len() != "SEQUENCE"@.len());
        assert("UID"@.len() != "LAST-MODIFIED"@.len());
    }
    assert(prop(edited_props(copy.2.0, draft, now), "UID"@) == prop(copy.2.0, "UID"@));
}

/// A copy with the UID puts its shard among those holding it.
proof fn lemma_holding_covers(copies: Seq<Found>, uid: Seq<char>, i: int)
    requires
        0 <= i < copies.len(),
        copies[i].uid@ == uid,
    ensures
        holding_shards(copies, uid).contains(copies[i].shard),
    decreases copies.len(),
{
    let prev = holding_shards(copies.drop_last(), uid);
    if i < copies.len() - 1 {
        lemma_holding_covers(copies.drop_last(), uid, i);
        assert(prev.contains(copies[i].shard));
        if copies.last().uid@ == uid && !prev.contains(copies.last().shard) {
            assert(prev.push(copies.last().shard)[prev.index_of(copies[i].shard)] == copies[i].shard);
        }
    } else {
        if !prev.contains(copies[i].shard) {
            assert(prev.push(copies[i].shard)[prev.len() as int] == copies[i].shard);
        }
    }
}

/// Every VEVENT among the first `n` components of a shard is listed.
proof fn lemma_shard_vevents_cover(shard: YearMonth, comps: Seq<Option<EventView>>, n: int, j: int)
    requires
        0 <= j < n <= comps.len(),
        comps[j] is Some,
    ensures
        exists|idx: int|
            0 <= idx < shard_vevents(shard, comps, n).len() && #[trigger] shard_vevents(shard, comps, n)[idx] == (
                shard,
                j,
                comps[j]->0,
            ),
    decreases n,
{
    let before = shard_vevents(shard, comps, n - 1);
    if j < n - 1 {
        lemma_shard_vevents_cover(shard, comps, n - 1, j);
        let idx = choose|idx: int|
            0 <= idx < before.len() && #[trigger] before[idx] == (shard, j, comps[j]->0);
        match comps[n - 1] {
            Some(v) => assert(before.push((shard, n - 1, v))[idx] == (shard, j, comps[j]->0)),
            None => assert(shard_vevents(shard, comps, n)[idx] == (shard, j, comps[j]->0)),
        }
    } else {
        assert(shard_vevents(shard, comps, n)[before.len() as int] == (shard, j, comps[j]->0));
    }
}

/// Every VEVENT of the first `k` shards read is listed.
proof fn lemma_vevents_cover(loaded: Seq<Loaded>, k: int, s: int, j: int)
    requires
        0 <= s < k <= loaded.len(),
        0 <= j < calendar_components(loaded[s].calendar).len(),
        calendar_components(loaded[s].calendar)[j] is Some,
    ensures
        exists|i: int|
            0 <= i < vevents_of(loaded, k).len() && #[trigger] vevents_of(loaded, k)[i] == (
                loaded[s].shard,
                j,
                calendar_components(loaded[s].calendar)[j]->0,
            ),
    decreases k,
{
    let comps = calendar_components(loaded[k - 1].calendar);
    let prev = vevents_of(loaded, k - 1);
    let here = shard_vevents(loaded[k - 1].shard, comps, comps.len() as int);
    let entry = (loaded[s].shard, j, calendar_components(loaded[s].calendar)[j]->0);
    assert(vevents_of(loaded, k) == prev + here);
    if s < k - 1 {
        lemma_vevents_cover(loaded, k - 1, s, j);
        let i = choose|i: int| 0 <= i < prev.len() && #[trigger] prev[i] == entry;
        assert(vevents_of(loaded, k)[i] == entry);
    } else {
        lemma_shard_vevents_cover(loaded[k - 1].shard, comps, comps.len() as int, j);
        let idx = choose|idx: int| 0 <= idx < here.len() && #[trigger] here[idx] == entry;
        assert(vevents_of(loaded, k)[prev.len() + idx] == entry);
    }
}

/// The calendar read for a month is one of the shards read, under that month.
proof fn lemma_calendar_from_found(loaded: Seq<Loaded>, shard: YearMonth, from: int)
    requires
        0 <= from,
        calendar_from(loaded, shard, from) is Some,
    ensures
        exists|k: int|
            from <= k < loaded.len() && #[trigger] loaded[k].shard == shard && loaded[k].calendar == calendar_from(
                loaded,
                shard,
                from,
            )->0,
    decreases loaded.len() - from,
{
    if loaded[from].shard != shard {
        lemma_calendar_from_found(loaded, shard, from + 1);
    } else {
        assert(loaded[from].shard == shard);
    }
}

/// A shard a delete leaves alone held no VEVENT with the UID to begin with:
/// together with the shards it rewrites, which it sweeps, no shard holds
/// one afterwards. `found` is every VEVENT of the shards, as gathered.
pub proof fn a_shard_a_delete_leaves_alone_holds_no_copy(
    found: Seq<Found>,
    loaded: Seq<Loaded>,
    zone: Zone,
    uid: Seq<char>,
    shard: YearMonth,
)
    requires
        found_from(found, loaded, zone),
        !holding_shards(found, uid).contains(shard),
    ensures
        forall|j: int|
            0 <= j < shard_model(loaded, shard).1.len() ==> !has_uid(#[trigger] shard_model(loaded, shard).1[j], uid),
{
    let comps = shard_model(loaded, shard).1;
    assert forall|j: int| 0 <= j < comps.len() implies !has_uid(#[trigger] comps[j], uid) by {
        if has_uid(comps[j], uid) {
            lemma_calendar_from_found(loaded, shard, 0);
            let k = choose|k: int|
                0 <= k < loaded.len() && #[trigger] loaded[k].shard == shard && loaded[k].calendar == calendar_from(
                    loaded,
                    shard,
                    0,
                )->0;
            lemma_vevents_cover(loaded, loaded.len() as int, k, j);
            let v = vevents_of(loaded, loaded.len() as int);
            let i = choose|i: int|
                0 <= i < v.len() && #[trigger] v[i] == (
                    loaded[k].shard,
                    j,
                    calendar_components(loaded[k].calendar)[j]->0,
                );
            assert(found[i].shard == v[i].0);
            assert(found[i].uid@ == uid_in(v[i].2.0));
            lemma_holding_covers(found, uid, i);
        }
    }
}

/// What was gathered from `loaded` in `zone` is, copy by copy, what the
/// shards hold.
proof fn lemma_gathered_from(g: Gathered, loaded: Seq<Loaded>, zone: Zone)
    requires
        gathered_ok(g),
        g.found@.len() == vevents_of(loaded, loaded.len() as int).len(),
        forall|i: int|
            0 <= i < g.found@.len() ==> #[trigger] gathered_at(g, i, vevents_of(loaded, loaded.len() as int)[i], zone),
    ensures
        found_from(g.found@, loaded, zone),
        g.events@.len() == vevents_of(loaded, loaded.len() as int).len(),
        forall|i: int|
            0 <= i < g.events@.len() ==> vevent_fits(
                #[trigger] g.events@[i],
                vevents_of(loaded, loaded.len() as int)[i].2,
                zone,
            ),
{
    let v = vevents_of(loaded, loaded.len() as int);
    assert forall|i: int| 0 <= i < g.found@.len() implies {
        &&& (#[trigger] g.found@[i]).shard == v[i].0
        &&& g.found@[i].index == v[i].1
        &&& g.found@[i].uid@ == uid_in(v[i].2.0)
        &&& g.found@[i].recurring == repeats(v[i].2)
        &&& rank_fits(g.found@[i].rank, v[i].2, v[i].0, zone)
    } by {
        assert(gathered_at(g, i, v[i], zone));
    }
    assert forall|i: int| 0 <= i < g.events@.len() implies vevent_fits(#[trigger] g.events@[i], v[i].2, zone) by {
        assert(gathered_at(g, i, v[i], zone));
    }
}

/// Reads and writes the `.ics` shards of one vault in one zone: the zone
/// decides which month file an event belongs in, and reads the times a
/// hand-written file carries with no zone of their own.
pub struct Calendars {
    pub zone: Zone,
}

impl Calendars {
    /// Shards read in `zone`.
    pub fn new(zone: Zone) -> (r: Calendars)
        requires
            zone_ok(zone),
        ensures
            r.zone == zone,
    {
        Calendars { zone }
    }

    /// Shards read in the machine's own zone, as everything in the app
    /// proper does.
    pub fn local() -> (r: Calendars)
        ensures
            r.zone == Zone::Local,
    {
        Calendars { zone: Zone::Local }
    }

    /// Every block that falls inside `[from, to)`, earliest first: one VEVENT
    /// per UID, the copy that wins, expanded when it repeats.
    pub fn range(&self, loaded: &Vec<Loaded>, from: i128, to: i128) -> (r: Vec<CalEvent>)
        requires
            zone_ok(self.zone),
            in_chrono(from as int),
            in_chrono(to as int),
        ensures
            in_draw_order(views(r@)),
            exists|found: Seq<Found>, events: Seq<Vevent>, chosen: Seq<Chosen>, expansions: Seq<Option<Vec<i128>>>|
                #![trigger canonical_spec(found, chosen), window_spec(events, chosen, expansions, from as int, to as int)]
                {
                    &&& found_from(found, loaded@, self.zone)
                    &&& found.len() == events.len()
                    &&& forall|i: int|
                        0 <= i < events.len() ==> vevent_fits(
                            #[trigger] events[i],
                            vevents_of(loaded@, loaded@.len() as int)[i].2,
                            self.zone,
                        )
                    &&& forall|i: int|
                        0 <= i < found.len() ==> (#[trigger] found[i]).uid@ == events[i].uid@ && found[i].recurring
                            == events[i].recurring
                    &&& canonical_spec(found, chosen)
                    &&& chosen.len() == expansions.len()
                    &&& forall|q: int|
                        0 <= q < chosen.len() ==> (!events[(#[trigger] chosen[q]).copy as int].recurring
                            ==> expansions[q] is None)
                    &&& forall|q: int|
                        0 <= q < chosen.len() ==> (events[(#[trigger] chosen[q]).copy as int].recurring ==> expands_to(
                            vevents_of(loaded@, loaded@.len() as int)[chosen[q].copy as int].2,
                            events[chosen[q].copy as int],
                            from as int,
                            to as int,
                            expansions[q],
                        ))
                    &&& views(r@).to_multiset() == window_spec(events, chosen, expansions, from as int, to as int).to_multiset()
                },
    {
        let g = gather(loaded, self.zone);
        proof {
            lemma_gathered_from(g, loaded@, self.zone);
        }
        let chosen = canonical(&g.found);
        let mut expansions: Vec<Option<Vec<i128>>> = Vec::new();
        let mut p: usize = 0;
        while p < chosen.len()
            invariant
                p <= chosen@.len(),
                expansions@.len() == p,
                gathered_ok(g),
                in_chrono(from as int),
                in_chrono(to as int),
                forall|q: int| 0 <= q < chosen@.len() ==> (#[trigger] chosen@[q]).copy < g.found@.len(),
                crate::calendar::blocks::expansions_ok(expansions@),
                canonical_spec(g.found@, chosen@),
                forall|q: int|
                    0 <= q < p ==> (!g.events@[(#[trigger] chosen@[q]).copy as int].recurring ==> expansions@[q] is None),
                g.found@.len() == vevents_of(loaded@, loaded@.len() as int).len(),
                forall|i: int|
                    0 <= i < g.found@.len() ==> #[trigger] gathered_at(
                        g,
                        i,
                        vevents_of(loaded@, loaded@.len() as int)[i],
                        self.zone,
                    ),
                forall|q: int|
                    0 <= q < p ==> (g.events@[(#[trigger] chosen@[q]).copy as int].recurring ==> expands_to(
                        vevents_of(loaded@, loaded@.len() as int)[chosen@[q].copy as int].2,
                        g.events@[chosen@[q].copy as int],
                        from as int,
                        to as int,
                        expansions@[q],
                    )),
            decreases chosen@.len() - p,
        {
            let c = chosen[p].copy;
            assert(gathered_at(g, c as int, vevents_of(loaded@, loaded@.len() as int)[c as int], self.zone));
            let ev = &g.events[c];
            let exp = if ev.recurring {
                expansion(&g.raw[c], ev, from, to)
            } else {
                None
            };
            let ghost before = expansions@;
            expansions.push(exp);
            proof {
                assert forall|q: int|
                    0 <= q < p + 1 && !g.events@[(#[trigger] chosen@[q]).copy as int].recurring implies expansions@[q] is None by {
                    if q < p as int {
                        assert(expansions@[q] == before[q]);
                    }
                }
                assert forall|q: int|
                    0 <= q < p + 1 && g.events@[(#[trigger] chosen@[q]).copy as int].recurring implies expands_to(
                    vevents_of(loaded@, loaded@.len() as int)[chosen@[q].copy as int].2,
                    g.events@[chosen@[q].copy as int],
                    from as int,
                    to as int,
                    expansions@[q],
                ) by {
                    if q < p as int {
                        assert(expansions@[q] == before[q]);
                    }
                }
                assert forall|i: int| 0 <= i < expansions@.len() implies (#[trigger] expansions@[i] matches Some(v) ==> forall|j: int|
                    0 <= j < v@.len() ==> instant_ok(#[trigger] v@[j] as int)) by {
                    if i < p as int {
                        assert(expansions@[i] == before[i]);
                    }
                }
            }
            p = p + 1;
        }
        let r = window_blocks(&g.events, &chosen, &expansions, from, to);
        assert(views(r@).to_multiset() == window_spec(g.events@, chosen@, expansions@, from as int, to as int).to_multiset());
        r
    }

    /// Create an event in the shard of its local start month: `existing` is
    /// that shard when there is one. Returns the write and the block it draws.
    pub fn create(&self, existing: Option<icalendar::Calendar>, uid: &str, draft: &EventDraft, now: Moment) -> (r:
        Result<(ShardWrite, CalEvent), AppError>)
        requires
            draft_ok(*draft),
            chrono_input_ok(now),
            zone_ok(self.zone),
        ensures
            draft.end <= draft.start ==> r == Err::<(ShardWrite, CalEvent), AppError>(AppError::BackwardsEvent),
            draft.end > draft.start ==> (r matches Ok((w, block)) && 1 <= w.shard.month <= 12 && (month_at(self.zone, draft.start) matches Some(m) ==> w.shard == m) && block@ == (BlockView {
                id: uid@,
                uid: uid@,
                summary: draft.summary@,
                start: draft.start as int,
                end: draft.end as int,
                recurring: false,
                all_day: false,
            })),
            r matches Ok((w, _)) ==> renders(
                existing_model(existing).0,
                existing_model(existing).1.push(Some((built_props(uid@, *draft, now), built_params(), no_repeats()))),
                w.text@,
            ),
    {
        match check(draft) {
            Err(e) => return Err(e),
            Ok(()) => {},
        }
        let shard = YearMonth::of(draft.start, self.zone);
        let ghost model = existing_model(existing);
        let mut cal = match existing {
            Some(c) => c,
            None => blank(),
        };
        assert(calendar_props(cal) == model.0 && calendar_components(cal) =~= model.1);
        push_event(&mut cal, build(uid, draft, now));
        let block = written_block(uid, draft);
        Ok((ShardWrite { shard, text: calendar_text(&cal) }, block))
    }

    /// Edit the event `uid` to match `draft`, given every shard: the copy the
    /// week view shows is the one edited, in its old slot when its new start
    /// falls in the same month, and moved otherwise. Returns the shards to
    /// write, in order, and the block it draws. On a move the destination comes
    /// first: a crash between the two writes then leaves the event in both
    /// shards, which the choice between copies resolves, where the other order
    /// would lose it.
    pub fn update(&self, loaded: Vec<Loaded>, uid: &str, draft: &EventDraft, now: Moment) -> (r: Result<
        (Vec<ShardWrite>, CalEvent),
        AppError,
    >)
        requires
            draft_ok(*draft),
            chrono_input_ok(now),
            zone_ok(self.zone),
            shards_distinct(loaded@),
        ensures
            draft.end <= draft.start ==> r == Err::<(Vec<ShardWrite>, CalEvent), AppError>(AppError::BackwardsEvent),
            draft.end > draft.start && uid@.len() == 0 ==> (r matches Err(AppError::EventNotFound(s)) && s@ == uid@),
            r matches Ok((writes, block)) ==> {
                &&& block@ == (BlockView {
                    id: uid@,
                    uid: uid@,
                    summary: draft.summary@,
                    start: draft.start as int,
                    end: draft.end as int,
                    recurring: false,
                    all_day: false,
                })
                &&& writes@.len() == 1 || (writes@.len() == 2 && writes@[0].shard != writes@[1].shard)
                &&& month_at(self.zone, draft.start) matches Some(m) ==> writes@[0].shard == m
            },
            draft.end > draft.start ==> exists|found: Seq<Found>, target: YearMonth|
                #![trigger holding_shards(found, uid@), month_is(self.zone, draft.start, target)]
                {
                    &&& month_is(self.zone, draft.start, target)
                    &&& found_from(found, loaded@, self.zone)
                    &&& match r {
                        Err(AppError::EventNotFound(s)) => s@ == uid@ && (uid@.len() == 0 || absent(found, uid@)),
                        Err(AppError::RecurringNotEditable) => uid@.len() > 0 && exists|c: int|
                            located(found, uid@, c) && #[trigger] found[c].recurring,
                        Ok((writes, _)) => uid@.len() > 0 && exists|c: int|
                            located(found, uid@, c) && !(#[trigger] found[c]).recurring && shards_written(writes@)
                                == plan_shards(plan_for(found[c].shard, target)) && update_writes(
                                writes@,
                                loaded@,
                                vevents_of(loaded@, loaded@.len() as int)[c],
                                target,
                                uid@,
                                *draft,
                                now,
                            ),
                        _ => false,
                    }
                },
    {
        match check(draft) {
            Err(e) => return Err(e),
            Ok(()) => {},
        }
        let mut loaded = loaded;
        let ghost loaded0 = loaded@;
        let g = gather(&loaded, self.zone);
        let ghost v = vevents_of(loaded0, loaded0.len() as int);
        assert(found_from(g.found@, loaded0, self.zone)) by {
            assert forall|i: int| 0 <= i < g.found@.len() implies {
                &&& (#[trigger] g.found@[i]).shard == v[i].0
                &&& g.found@[i].index == v[i].1
                &&& g.found@[i].uid@ == uid_in(v[i].2.0)
                &&& g.found@[i].recurring == repeats(v[i].2)
                &&& rank_fits(g.found@[i].rank, v[i].2, v[i].0, self.zone)
            } by {
                assert(gathered_at(g, i, v[i], self.zone));
            }
        }
        let target = YearMonth::of(draft.start, self.zone);
        let (c, plan) = match plan_update(&g.found, uid, draft, target) {
            Err(e) => {
                assert(holding_shards(g.found@, uid@) == holding_shards(g.found@, uid@));
                assert(month_is(self.zone, draft.start, target));
                return Err(e);
            },
            Ok(found) => found,
        };
        let ghost copy = v[c as int];
        assert(gathered_at(g, c as int, copy, self.zone));
        proof {
            lemma_vevents_located(loaded0, loaded0.len() as int, c as int);
            let q = choose|q: int|
                {
                    &&& 0 <= q < loaded0.len()
                    &&& #[trigger] loaded0[q].shard == copy.0
                    &&& 0 <= copy.1 < calendar_components(loaded0[q].calendar).len()
                    &&& calendar_components(loaded0[q].calendar)[copy.1] == Some(copy.2)
                };
            lemma_calendar_from_unique(loaded0, q, 0);
            assert(calendar_from(loaded0, copy.0, 0) == Some(loaded0[q].calendar));
        }
        let index = g.found[c].index;
        let mut event = clone_event(&g.raw[c]);
        apply(&mut event, draft, now);
        let ghost edited = Some((edited_props(copy.2.0, *draft, now), edited_params(copy.2.1), copy.2.2));
        assert(Some(event_view(event)) == edited);
        let block = written_block(uid, draft);
        let mut writes: Vec<ShardWrite> = Vec::new();
        match plan {
            EditPlan::InPlace { shard } => {
                let mut cal = match take_shard(&mut loaded, shard) {
                    Some(cal) => cal,
                    None => blank(),
                };
                replace_component(&mut cal, index, event);
                writes.push(ShardWrite { shard, text: calendar_text(&cal) });
            },
            EditPlan::Move { from, to } => {
                let mut source = match take_shard(&mut loaded, from) {
                    Some(cal) => cal,
                    None => blank(),
                };
                proof {
                    let k = choose|k: int|
                        {
                            &&& 0 <= k < loaded0.len()
                            &&& #[trigger] loaded0[k].shard == from
                            &&& forall|j: int| 0 <= j < k ==> loaded0[j].shard != from
                            &&& source == loaded0[k].calendar
                            &&& loaded@ == loaded0.remove(k)
                        };
                    lemma_calendar_from_remove(loaded0, k, to, 0);
                }
                remove_component(&mut source, index);
                let ghost dest_model = shard_model(loaded0, to);
                let mut destination = match take_shard(&mut loaded, to) {
                    Some(cal) => cal,
                    None => blank(),
                };
                assert(calendar_props(destination) == dest_model.0 && calendar_components(destination)
                    =~= dest_model.1);
                drop_uid(&mut destination, uid);
                push_event(&mut destination, event);
                writes.push(ShardWrite { shard: to, text: calendar_text(&destination) });
                writes.push(ShardWrite { shard: from, text: calendar_text(&source) });
            },
        }
        assert(update_writes(writes@, loaded0, copy, target, uid@, *draft, now));
        assert(shards_written(writes@) =~= plan_shards(plan));
        assert(holding_shards(g.found@, uid@) == holding_shards(g.found@, uid@));
        assert(month_is(self.zone, draft.start, target));
        assert(located(g.found@, uid@, c as int) && !g.found@[c as int].recurring);
        Ok((writes, block))
    }

    /// Remove the event `uid` from every shard that holds it, given every
    /// shard: not just the copy the week view shows, since a move interrupted
    /// between its writes leaves one behind. Decided in full before anything is
    /// written, so a refusal never lands half-applied. Returns the shards to
    /// write.
    pub fn delete(&self, loaded: Vec<Loaded>, uid: &str) -> (r: Result<Vec<ShardWrite>, AppError>)
        requires
            zone_ok(self.zone),
        ensures
            uid@.len() == 0 ==> (r matches Err(AppError::EventNotFound(s)) && s@ == uid@),
            r matches Ok(writes) ==> writes@.len() > 0 && forall|i: int, j: int|
                0 <= i < j < writes@.len() ==> (#[trigger] writes@[i]).shard != (#[trigger] writes@[j]).shard,
            r matches Ok(writes) ==> forall|i: int| 0 <= i < writes@.len() ==> deleted_from(#[trigger] writes@[i], loaded@, uid@),
            exists|found: Seq<Found>|
                #![trigger holding_shards(found, uid@)]
                {
                    &&& found_from(found, loaded@, self.zone)
                    &&& (uid@.len() == 0 || absent(found, uid@)) ==> (r matches Err(AppError::EventNotFound(s)) && s@
                        == uid@)
                    &&& (uid@.len() > 0 && !absent(found, uid@) && any_recurring(found, uid@)) ==> r == Err::<
                        Vec<ShardWrite>,
                        AppError,
                    >(AppError::RecurringNotEditable)
                    &&& (uid@.len() > 0 && !absent(found, uid@) && !any_recurring(found, uid@)) ==> (r matches Ok(
                        writes,
                    ) && shards_written(writes@) == holding_shards(found, uid@))
                },
    {
        let mut loaded = loaded;
        let ghost loaded0 = loaded@;
        let g = gather(&loaded, self.zone);
        proof {
            lemma_gathered_from(g, loaded0, self.zone);
        }
        let shards = match plan_delete(&g.found, uid) {
            Err(e) => {
                assert(holding_shards(g.found@, uid@) == holding_shards(g.found@, uid@));
                return Err(e);
            },
            Ok(shards) => shards,
        };
        proof {
            lemma_holding_shards_distinct(g.found@, uid@);
            lemma_holding_shards_nonempty(g.found@, uid@);
        }
        assert(forall|a: int, b: int| 0 <= a < b < shards@.len() ==> #[trigger] shards@[a] != #[trigger] shards@[b]);
        let mut writes: Vec<ShardWrite> = Vec::new();
        let mut i: usize = 0;
        while i < shards.len()
            invariant
                i <= shards@.len(),
                writes@.len() == i,
                forall|a: int| 0 <= a < i ==> (#[trigger] writes@[a]).shard == shards@[a],
                forall|a: int, b: int| 0 <= a < b < shards@.len() ==> #[trigger] shards@[a] != #[trigger] shards@[b],
                forall|t: YearMonth|
                    (forall|a: int| 0 <= a < i ==> shards@[a] != t) ==> #[trigger] calendar_from(loaded@, t, 0)
                        == calendar_from(loaded0, t, 0),
                forall|a: int| 0 <= a < i ==> deleted_from(#[trigger] writes@[a], loaded0, uid@),
            decreases shards@.len() - i,
        {
            let shard = shards[i];
            let ghost before = loaded@;
            let ghost model = shard_model(loaded0, shard);
            assert(forall|a: int| 0 <= a < i ==> shards@[a] != shard);
            assert(calendar_from(before, shard, 0) == calendar_from(loaded0, shard, 0));
            let mut cal = match take_shard(&mut loaded, shard) {
                Some(cal) => cal,
                None => blank(),
            };
            assert(calendar_props(cal) == model.0 && calendar_components(cal) =~= model.1);
            proof {
                assert forall|t: YearMonth|
                    (forall|a: int| 0 <= a < i + 1 ==> shards@[a] != t) implies #[trigger] calendar_from(loaded@, t, 0)
                        == calendar_from(loaded0, t, 0) by {
                    assert(shards@[i as int] != t);
                    assert(forall|a: int| 0 <= a < i ==> shards@[a] != t);
                    if loaded@ != before {
                        let k = choose|k: int|
                            {
                                &&& 0 <= k < before.len()
                                &&& #[trigger] before[k].shard == shard
                                &&& forall|j: int| 0 <= j < k ==> before[j].shard != shard
                                &&& cal == before[k].calendar
                                &&& loaded@ == before.remove(k)
                            };
                        lemma_calendar_from_remove(before, k, t, 0);
                    }
                }
            }
            drop_uid(&mut cal, uid);
            let w = ShardWrite { shard, text: calendar_text(&cal) };
            assert(deleted_from(w, loaded0, uid@));
            let ghost wb = writes@;
            writes.push(w);
            assert forall|a: int| 0 <= a < i + 1 implies deleted_from(#[trigger] writes@[a], loaded0, uid@) by {
                if a < i {
                    assert(writes@[a] == wb[a]);
                }
            }
            i = i + 1;
        }
        proof {
            assert forall|a: int, b: int| 0 <= a < b < writes@.len() implies (#[trigger] writes@[a]).shard != (
            #[trigger] writes@[b]).shard by {
                assert(writes@[a].shard == shards@[a] && writes@[b].shard == shards@[b]);
            }
        }
        assert(shards_written(writes@) =~= shards@);
        assert(holding_shards(g.found@, uid@) == holding_shards(g.found@, uid@));
        Ok(writes)
    }
}

} // verus!
