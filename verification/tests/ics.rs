use std::cell::RefCell;

use icalendar::{Component, EventLike};

use calenpomo::calendar::blocks::occurrences;
use calenpomo::calendar::ics::{
    apply, blank, build, expansion, facts_of, gather, is_recurring, read_shard, Calendars, Loaded, Moment, ShardWrite, Zone,
};
use calenpomo::calendar::store::{sorted_shards, YearMonth};
use calenpomo::calendar::{CalEvent, EventDraft};
use calenpomo::error::AppError;

const NS: i128 = 1_000_000_000;
const HOUR: i128 = 3600 * NS;
const JST: Zone = Zone::Fixed(9 * 3600);

/// Seconds since the epoch of a few instants the tests use.
const JULY_1: i128 = 1_782_864_000;
const JULY_23: i128 = 1_784_764_800;

fn at(secs: i128) -> i128 {
    secs * NS
}

fn july23(hour: i128) -> i128 {
    at(JULY_23) + hour * HOUR
}

fn now() -> Moment {
    Moment { secs: 1_784_800_000, nanos: 0 }
}

fn shard(year: i32, month: u32, text: &str) -> Loaded {
    Loaded {
        shard: YearMonth { year, month },
        calendar: read_shard(text, "calendar/x.ics").expect("valid iCalendar"),
    }
}

fn vcal(body: &str) -> String {
    format!("BEGIN:VCALENDAR\r\nVERSION:2.0\r\n{body}END:VCALENDAR\r\n")
}

fn vevent(body: &str) -> String {
    format!("BEGIN:VEVENT\r\n{body}END:VEVENT\r\n")
}

fn draft(summary: &str, start: i128, end: i128) -> EventDraft {
    EventDraft { summary: summary.to_string(), start, end }
}

#[test]
fn a_shard_that_is_not_valid_icalendar_is_reported_not_ignored() {
    match read_shard("this is not a calendar", "calendar/2026-07.ics") {
        Err(AppError::IcsDecode { path, .. }) => assert_eq!(path, "calendar/2026-07.ics"),
        _ => panic!("expected a decode error"),
    }
}

#[test]
fn a_utc_datetime_is_taken_as_written() {
    let text = vcal(&vevent("UID:a\r\nSUMMARY:写论文\r\nDTSTART:20260723T050000Z\r\nDTEND:20260723T060000Z\r\n"));
    let found = Calendars::new(JST).range(&vec![shard(2026, 7, &text)], july23(0), july23(24));
    assert_eq!(found.len(), 1);
    assert_eq!(found[0].uid, "a");
    assert_eq!(found[0].summary, "写论文");
    assert_eq!(found[0].start, july23(5));
    assert_eq!(found[0].end, july23(6));
    assert!(!found[0].recurring);
    assert!(!found[0].all_day);
}

#[test]
fn a_tzid_datetime_is_resolved_through_its_own_zone() {
    let text = vcal(&vevent("UID:a\r\nDTSTART;TZID=Asia/Tokyo:20260723T140000\r\nDTEND;TZID=Asia/Tokyo:20260723T150000\r\n"));
    let found = Calendars::new(Zone::Fixed(0)).range(&vec![shard(2026, 7, &text)], july23(0), july23(24));
    assert_eq!(found[0].start, july23(5));
}

#[test]
fn a_floating_datetime_is_read_in_the_local_zone() {
    let text = vcal(&vevent("UID:a\r\nDTSTART:20260723T140000\r\nDTEND:20260723T150000\r\n"));
    let found = Calendars::new(JST).range(&vec![shard(2026, 7, &text)], july23(0), july23(24));
    assert_eq!(found[0].start, july23(5));
}

#[test]
fn a_date_valued_event_is_marked_all_day_and_lasts_a_day() {
    let text = vcal(&vevent("UID:a\r\nDTSTART;VALUE=DATE:20260723\r\n"));
    let found = Calendars::new(JST).range(&vec![shard(2026, 7, &text)], july23(-24), july23(48));
    assert_eq!(found.len(), 1);
    assert!(found[0].all_day);
    assert_eq!(found[0].start, july23(-9));
    assert_eq!(found[0].end, july23(15));
}

#[test]
fn a_weekly_rule_is_expanded_by_the_library() {
    let text = vcal(&vevent(
        "UID:a\r\nSUMMARY:组会\r\nDTSTART:20260701T010000Z\r\nDTEND:20260701T020000Z\r\nRRULE:FREQ=WEEKLY;BYDAY=WE\r\n",
    ));
    let found = Calendars::new(JST).range(&vec![shard(2026, 7, &text)], at(JULY_1), at(JULY_1) + 31 * 24 * HOUR);
    let starts: Vec<i128> = found.iter().map(|e| e.start).collect();
    let week = 7 * 24 * HOUR;
    let first = at(JULY_1) + HOUR;
    assert_eq!(starts, vec![first, first + week, first + 2 * week, first + 3 * week, first + 4 * week]);
    assert!(found.iter().all(|e| e.recurring && e.uid == "a"));
    assert_ne!(found[0].id, found[1].id);
}

#[test]
fn a_malformed_rrule_costs_the_rule_but_not_the_event() {
    let text = vcal(&vevent("UID:a\r\nDTSTART:20260723T050000Z\r\nDTEND:20260723T060000Z\r\nRRULE:FREQ=NONSENSE\r\n"));
    let found = Calendars::new(JST).range(&vec![shard(2026, 7, &text)], july23(0), july23(24));
    assert_eq!(found.len(), 1);
    assert_eq!(found[0].start, july23(5));
    assert!(found[0].recurring);
}

#[test]
fn an_event_left_in_two_shards_is_shown_once_and_edited_there() {
    let stale = vcal(&vevent(
        "UID:moved\r\nSUMMARY:旧位置\r\nSEQUENCE:0\r\nDTSTAMP:20260720T000000Z\r\nDTSTART:20260730T050000Z\r\nDTEND:20260730T060000Z\r\n",
    ));
    let fresh = vcal(&vevent(
        "UID:moved\r\nSUMMARY:新位置\r\nSEQUENCE:1\r\nDTSTAMP:20260720T000000Z\r\nLAST-MODIFIED:20260725T120000Z\r\nDTSTART:20260804T050000Z\r\nDTEND:20260804T060000Z\r\n",
    ));
    let loaded = vec![shard(2026, 7, &stale), shard(2026, 8, &fresh)];
    let found = Calendars::new(JST).range(&loaded, at(JULY_1), at(JULY_1) + 62 * 24 * HOUR);
    assert_eq!(found.len(), 1);
    assert_eq!(found[0].summary, "新位置");

    let aug5 = at(JULY_23) + 13 * 24 * HOUR;
    let (writes, _) = Calendars::new(JST).update(loaded, "moved", &draft("再动一次", aug5 + 5 * HOUR, aug5 + 6 * HOUR), now())
        .expect("update");
    assert_eq!(writes.len(), 1);
    assert_eq!(writes[0].shard, YearMonth { year: 2026, month: 8 });
    assert!(writes[0].text.contains("SUMMARY:再动一次"), "{}", writes[0].text);
}

#[test]
fn a_created_event_lands_in_the_shard_for_its_local_month_and_reads_back() {
    // 00:30 on 1 July in Tokyo, which is still June in UTC.
    let start = at(JULY_1) - 9 * HOUR + 30 * 60 * NS;
    let (write, block) = Calendars::new(JST).create(None, "u1", &draft("早", start, start + HOUR), now()).expect("create");
    assert_eq!(write.shard, YearMonth { year: 2026, month: 7 });
    assert!(write.text.starts_with("BEGIN:VCALENDAR\r\n"));
    assert!(write.text.contains("PRODID:-//Hinoki//WabiCalendar//EN\r\n"), "{}", write.text);
    assert_eq!(write.text.matches("PRODID:").count(), 1);
    assert!(write.text.contains("DTSTAMP:"));
    let loaded = vec![shard(2026, 7, &write.text)];
    let found = Calendars::new(JST).range(&loaded, start - HOUR, start + 2 * HOUR);
    assert_eq!(found, vec![block]);
}

#[test]
fn an_event_that_ends_before_it_starts_is_refused() {
    assert!(matches!(
        Calendars::new(JST).create(None, "u1", &draft("x", july23(6), july23(5)), now()),
        Err(AppError::BackwardsEvent)
    ));
}

#[test]
fn writing_one_event_leaves_a_hand_written_neighbour_alone() {
    let text = vcal(&vevent(
        "UID:mine\r\nSUMMARY:手写的\r\nDESCRIPTION:别动我\r\nX-MY-FIELD:keep\r\nDTSTART:20260723T010000Z\r\nDTEND:20260723T020000Z\r\n",
    ));
    let existing = read_shard(&text, "x").expect("valid");
    let (write, _) = Calendars::new(JST).create(Some(existing), "u2", &draft("新的", july23(5), july23(6)), now()).expect("create");
    assert!(write.text.contains("UID:mine"));
    assert!(write.text.contains("DESCRIPTION:别动我"));
    assert!(write.text.contains("X-MY-FIELD:keep"));
    assert_eq!(write.text.matches("BEGIN:VEVENT").count(), 2);
}

#[test]
fn moving_an_event_across_a_month_writes_the_destination_first() {
    let text = vcal(&vevent(
        "UID:mine\r\nSUMMARY:旧\r\nDESCRIPTION:备注\r\nDTSTART:20260730T050000Z\r\nDTEND:20260730T060000Z\r\n",
    ));
    let aug4 = at(JULY_23) + 12 * 24 * HOUR;
    let (writes, block) =
        Calendars::new(JST).update(vec![shard(2026, 7, &text)], "mine", &draft("新", aug4 + 5 * HOUR, aug4 + 6 * HOUR), now())
            .expect("update");
    assert_eq!(writes.len(), 2);
    assert_eq!(writes[0].shard, YearMonth { year: 2026, month: 8 });
    assert_eq!(writes[1].shard, YearMonth { year: 2026, month: 7 });
    assert!(writes[0].text.contains("DESCRIPTION:备注"));
    assert!(writes[0].text.contains("SUMMARY:新"));
    assert!(writes[0].text.contains("SEQUENCE:1"));
    assert!(writes[0].text.contains("LAST-MODIFIED:"));
    assert_eq!(writes[1].text.matches("BEGIN:VEVENT").count(), 0);
    assert_eq!(block.start, aug4 + 5 * HOUR);
}

#[test]
fn a_repeating_event_refuses_to_be_edited_or_deleted() {
    let text = vcal(&vevent(
        "UID:weekly\r\nSUMMARY:组会\r\nDTSTART:20260701T010000Z\r\nDTEND:20260701T020000Z\r\nRRULE:FREQ=WEEKLY;BYDAY=WE\r\n",
    ));
    assert!(matches!(
        Calendars::new(JST).update(vec![shard(2026, 7, &text)], "weekly", &draft("组会", july23(2), july23(3)), now()),
        Err(AppError::RecurringNotEditable)
    ));
    assert!(matches!(Calendars::new(JST).delete(vec![shard(2026, 7, &text)], "weekly"), Err(AppError::RecurringNotEditable)));
}

#[test]
fn deleting_sweeps_every_shard_that_still_holds_it() {
    let july = vcal(&vevent("UID:moved\r\nSUMMARY:重复\r\nDTSTART:20260730T050000Z\r\nDTEND:20260730T060000Z\r\n"));
    let august = vcal(&vevent("UID:moved\r\nSUMMARY:重复\r\nDTSTART:20260804T050000Z\r\nDTEND:20260804T060000Z\r\n"));
    let writes = Calendars::new(JST).delete(vec![shard(2026, 7, &july), shard(2026, 8, &august)], "moved").expect("delete");
    assert_eq!(writes.len(), 2);
    assert!(writes.iter().all(|w| w.text.matches("BEGIN:VEVENT").count() == 0));
}

#[test]
fn an_event_that_is_not_there_is_reported_rather_than_created() {
    let text = vcal(&vevent("UID:mine\r\nDTSTART:20260730T050000Z\r\nDTEND:20260730T060000Z\r\n"));
    assert!(matches!(
        Calendars::new(JST).update(vec![shard(2026, 7, &text)], "nope", &draft("x", july23(5), july23(6)), now()),
        Err(AppError::EventNotFound(_))
    ));
    assert!(matches!(Calendars::new(JST).delete(vec![shard(2026, 7, &text)], "nope"), Err(AppError::EventNotFound(_))));
}

/// An RFC 3339 instant, in nanoseconds.
fn utc(text: &str) -> i128 {
    let t = chrono::DateTime::parse_from_rfc3339(text).expect("valid timestamp");
    t.timestamp() as i128 * NS + t.timestamp_subsec_nanos() as i128
}

/// Wrap `body` in a VEVENT and parse it back out, so the scenario takes the
/// same path a hand-edited file does.
fn event(body: &str) -> icalendar::Event {
    let text = format!("BEGIN:VCALENDAR\r\nVERSION:2.0\r\nBEGIN:VEVENT\r\n{body}\r\nEND:VEVENT\r\nEND:VCALENDAR\r\n");
    text.parse::<icalendar::Calendar>()
        .expect("parses")
        .components
        .into_iter()
        .find_map(|c| c.as_event().cloned())
        .expect("one event")
}

/// The blocks one VEVENT draws in `[from, to)`, read at +09:00, with
/// `anon` as the key of an event that has no UID.
fn blocks(e: &icalendar::Event, from: &str, to: &str) -> Vec<CalEvent> {
    let (from, to) = (utc(from), utc(to));
    let (_, ev) = facts_of(e, YearMonth { year: 2026, month: 7 }, 0, JST);
    let expanded = if ev.recurring { expansion(e, &ev, from, to) } else { None };
    let mut out = Vec::new();
    occurrences(&ev, from, to, "anon", expanded.as_ref(), &mut out);
    out
}

/// The calendar half of a vault, held in memory: the text of each shard.
struct Disk {
    files: RefCell<Vec<(YearMonth, String)>>,
}

impl Disk {
    fn new() -> Disk {
        Disk { files: RefCell::new(Vec::new()) }
    }

    fn text(&self, year: i32, month: u32) -> String {
        let ym = YearMonth { year, month };
        self.files.borrow().iter().find(|(s, _)| *s == ym).map(|(_, t)| t.clone()).unwrap_or_default()
    }

    fn has_shard(&self, year: i32, month: u32) -> bool {
        let ym = YearMonth { year, month };
        self.files.borrow().iter().any(|(s, _)| *s == ym)
    }

    fn write(&self, w: &ShardWrite) {
        let mut files = self.files.borrow_mut();
        files.retain(|(s, _)| *s != w.shard);
        files.push((w.shard, w.text.clone()));
    }

    /// Every shard, oldest first, as the app reads them.
    fn loaded(&self) -> Vec<Loaded> {
        let mut files = self.files.borrow().clone();
        files.sort_by_key(|(s, _)| (s.year, s.month));
        files.iter().map(|(s, t)| shard(s.year, s.month, t)).collect()
    }

    /// How many VEVENTs sit in one shard, counted off its text.
    fn vevents(&self, year: i32, month: u32) -> usize {
        self.text(year, month).matches("BEGIN:VEVENT").count()
    }

    fn create(&self, cal: &Calendars, uid: &str, d: &EventDraft) -> CalEvent {
        let month = YearMonth::of(d.start, cal.zone);
        let existing = self.loaded().into_iter().find(|l| l.shard == month).map(|l| l.calendar);
        let (w, block) = cal.create(existing, uid, d, now()).expect("create");
        self.write(&w);
        block
    }

    fn update(&self, cal: &Calendars, uid: &str, d: &EventDraft) -> CalEvent {
        let (writes, block) = cal.update(self.loaded(), uid, d, now()).expect("update");
        for w in &writes {
            self.write(w);
        }
        block
    }

    fn range(&self, cal: &Calendars, from: &str, to: &str) -> Vec<CalEvent> {
        cal.range(&self.loaded(), utc(from), utc(to))
    }
}

fn drafted(summary: &str, start: &str, end: &str) -> EventDraft {
    EventDraft { summary: summary.to_string(), start: utc(start), end: utc(end) }
}

#[test]
fn an_event_with_no_uid_renders_but_is_left_unaddressable() {
    let found = blocks(
        &event("SUMMARY:手写的\r\nDTSTART:20260723T050000Z\r\nDTEND:20260723T060000Z"),
        "2026-07-23T00:00:00Z",
        "2026-07-24T00:00:00Z",
    );
    assert_eq!(found.len(), 1);
    assert_eq!(found[0].uid, "");
    assert_eq!(found[0].id, "anon");
}

#[test]
fn rdate_alone_counts_as_recurring() {
    let with_rdate = event("UID:a\r\nDTSTART:20260723T050000Z\r\nDTEND:20260723T060000Z\r\nRDATE:20260724T050000Z");
    assert!(is_recurring(&with_rdate));
}

#[test]
fn editing_leaves_everything_it_was_not_asked_to_change() {
    let mut original = event(
        "UID:a\r\nSUMMARY:旧标题\r\nDESCRIPTION:手写的备注\r\nLOCATION:研究室\r\nX-MY-FIELD:keep me\r\nDTSTART:20260723T050000Z\r\nDTEND:20260723T060000Z",
    );
    apply(&mut original, &drafted("新标题", "2026-07-23T07:00:00Z", "2026-07-23T08:00:00Z"), now());
    assert_eq!(original.get_summary(), Some("新标题"));
    assert_eq!(original.get_description(), Some("手写的备注"));
    assert_eq!(original.get_location(), Some("研究室"));
    assert_eq!(original.property_value("X-MY-FIELD"), Some("keep me"));
    let found = blocks(&original, "2026-07-23T00:00:00Z", "2026-07-24T00:00:00Z");
    assert_eq!(found[0].start, utc("2026-07-23T07:00:00Z"));
}

#[test]
fn writing_always_produces_utc_timestamps() {
    let mut tz_flavoured = event("UID:a\r\nDTSTART;TZID=Asia/Tokyo:20260723T140000\r\nDTEND;TZID=Asia/Tokyo:20260723T150000");
    apply(&mut tz_flavoured, &drafted("x", "2026-07-23T07:00:00Z", "2026-07-23T08:00:00Z"), now());
    let text = tz_flavoured.to_string();
    assert!(text.contains("DTSTART:20260723T070000Z"), "{text}");
    assert!(!text.contains("TZID"), "{text}");
}

#[test]
fn a_created_event_is_readable_again() {
    let disk = Disk::new();
    let calendars = Calendars::new(JST);
    let made = disk.create(&calendars, "u1", &drafted("写论文", "2026-07-23T05:00:00Z", "2026-07-23T06:00:00Z"));
    let found = disk.range(&calendars, "2026-07-23T00:00:00Z", "2026-07-24T00:00:00Z");
    assert_eq!(found, vec![made]);
}

#[test]
fn a_written_shard_is_a_well_formed_icalendar_file() {
    let disk = Disk::new();
    let calendars = Calendars::new(JST);
    disk.create(&calendars, "u1", &drafted("写论文", "2026-07-23T05:00:00Z", "2026-07-23T06:00:00Z"));
    let text = disk.text(2026, 7);
    assert!(text.starts_with("BEGIN:VCALENDAR\r\n"), "{text}");
    assert!(text.ends_with("END:VCALENDAR\r\n"), "{text}");
    assert!(text.contains("VERSION:2.0\r\n"), "{text}");
    // Ours, not the library's.
    assert!(text.contains("PRODID:-//Hinoki//WabiCalendar//EN\r\n"), "{text}");
    assert_eq!(text.matches("PRODID:").count(), 1, "{text}");
    assert!(text.contains("DTSTART:20260723T050000Z\r\n"), "{text}");
    assert!(text.contains("DTEND:20260723T060000Z\r\n"), "{text}");
    assert!(text.contains("DTSTAMP:"), "{text}");
    assert!(text.contains("SUMMARY:写论文\r\n"), "{text}");
    // CRLF everywhere: no bare newlines.
    assert_eq!(text.matches('\n').count(), text.matches("\r\n").count());
}

#[test]
fn an_event_lands_in_the_shard_for_its_local_month() {
    let disk = Disk::new();
    let calendars = Calendars::new(JST);
    // 00:30 on 1 July in Tokyo, which is still June in UTC.
    disk.create(&calendars, "u1", &drafted("早", "2026-06-30T15:30:00Z", "2026-06-30T16:30:00Z"));
    assert_eq!(disk.vevents(2026, 7), 1);
    assert!(!disk.has_shard(2026, 6));
}

#[test]
fn a_week_spanning_two_months_reads_both_shards() {
    let disk = Disk::new();
    let calendars = Calendars::new(JST);
    disk.create(&calendars, "u1", &drafted("七月", "2026-07-30T05:00:00Z", "2026-07-30T06:00:00Z"));
    disk.create(&calendars, "u2", &drafted("八月", "2026-08-01T05:00:00Z", "2026-08-01T06:00:00Z"));
    // Monday 27 July through Monday 3 August, exclusive.
    let found = disk.range(&calendars, "2026-07-27T00:00:00Z", "2026-08-03T00:00:00Z");
    let summaries: Vec<&str> = found.iter().map(|e| e.summary.as_str()).collect();
    assert_eq!(summaries, vec!["七月", "八月"]);
}

#[test]
fn moving_an_event_across_a_month_leaves_exactly_one_copy() {
    let disk = Disk::new();
    let calendars = Calendars::new(JST);
    let made = disk.create(&calendars, "u1", &drafted("搬家", "2026-07-30T05:00:00Z", "2026-07-30T06:00:00Z"));
    disk.update(&calendars, &made.uid, &drafted("搬家", "2026-08-04T05:00:00Z", "2026-08-04T06:00:00Z"));
    assert_eq!(disk.vevents(2026, 7), 0);
    assert_eq!(disk.vevents(2026, 8), 1);
    let found = disk.range(&calendars, "2026-07-01T00:00:00Z", "2026-09-01T00:00:00Z");
    assert_eq!(found.len(), 1);
    assert_eq!(found[0].start, utc("2026-08-04T05:00:00Z"));
}

#[test]
fn editing_bumps_the_revision() {
    let disk = Disk::new();
    let calendars = Calendars::new(JST);
    let made = disk.create(&calendars, "u1", &drafted("a", "2026-07-23T05:00:00Z", "2026-07-23T06:00:00Z"));
    disk.update(&calendars, &made.uid, &drafted("a", "2026-07-23T07:00:00Z", "2026-07-23T08:00:00Z"));
    let text = disk.text(2026, 7);
    assert!(text.contains("SEQUENCE:1"), "{text}");
    assert!(text.contains("LAST-MODIFIED:"), "{text}");
}

#[test]
fn an_early_morning_event_lands_in_the_local_month() {
    // 00:30 on 1 July in Tokyo is still 15:30 on 30 June in UTC.
    let dt = utc("2026-06-30T15:30:00Z");
    assert_eq!(YearMonth::of(dt, JST), YearMonth { year: 2026, month: 7 });
    assert_eq!(YearMonth::of(dt, Zone::Fixed(0)), YearMonth { year: 2026, month: 6 });
}

#[test]
fn editing_through_a_move_keeps_the_properties_it_was_not_asked_about() {
    let disk = Disk::new();
    let calendars = Calendars::new(JST);
    disk.write(&ShardWrite {
        shard: YearMonth { year: 2026, month: 7 },
        text: "BEGIN:VCALENDAR\r\nVERSION:2.0\r\nBEGIN:VEVENT\r\nUID:mine\r\nSUMMARY:旧\r\nDESCRIPTION:备注\r\nDTSTART:20260730T050000Z\r\nDTEND:20260730T060000Z\r\nEND:VEVENT\r\nEND:VCALENDAR\r\n".to_string(),
    });
    disk.update(&calendars, "mine", &drafted("新", "2026-08-04T05:00:00Z", "2026-08-04T06:00:00Z"));
    let text = disk.text(2026, 8);
    assert!(text.contains("DESCRIPTION:备注"), "{text}");
    assert!(text.contains("SUMMARY:新"), "{text}");
}

#[test]
fn a_repeating_event_is_shown_but_refuses_to_be_edited() {
    let disk = Disk::new();
    let calendars = Calendars::new(JST);
    disk.write(&ShardWrite {
        shard: YearMonth { year: 2026, month: 7 },
        text: "BEGIN:VCALENDAR\r\nVERSION:2.0\r\nBEGIN:VEVENT\r\nUID:weekly\r\nSUMMARY:组会\r\nDTSTART:20260701T010000Z\r\nDTEND:20260701T020000Z\r\nRRULE:FREQ=WEEKLY;BYDAY=WE\r\nEND:VEVENT\r\nEND:VCALENDAR\r\n".to_string(),
    });
    let found = disk.range(&calendars, "2026-07-20T00:00:00Z", "2026-07-27T00:00:00Z");
    assert_eq!(found.len(), 1);
    assert!(found[0].recurring);
    assert_eq!(found[0].start, utc("2026-07-22T01:00:00Z"));
    assert!(matches!(
        calendars.update(disk.loaded(), "weekly", &drafted("组会", "2026-07-22T02:00:00Z", "2026-07-22T03:00:00Z"), now()),
        Err(AppError::RecurringNotEditable)
    ));
    assert!(matches!(calendars.delete(disk.loaded(), "weekly"), Err(AppError::RecurringNotEditable)));
    // And the refusal really did leave the file alone.
    assert!(disk.text(2026, 7).contains("RRULE:FREQ=WEEKLY"));
}

#[test]
fn debris_from_a_crashed_write_is_not_read_as_a_shard() {
    let disk = Disk::new();
    let calendars = Calendars::new(JST);
    disk.create(&calendars, "u1", &drafted("真的", "2026-07-23T05:00:00Z", "2026-07-23T06:00:00Z"));
    // What the directory lists once a crashed write left its staged copy.
    let names = vec!["2026-07.ics".to_string(), ".2026-07.ics.tmp-9999-0-0".to_string()];
    let shards = sorted_shards(&names);
    assert_eq!(shards, vec![YearMonth { year: 2026, month: 7 }]);
    let loaded: Vec<Loaded> = shards.iter().map(|s| shard(s.year, s.month, &disk.text(s.year, s.month))).collect();
    let found = calendars.range(&loaded, utc("2026-07-23T00:00:00Z"), utc("2026-07-24T00:00:00Z"));
    assert_eq!(found.len(), 1);
    assert_eq!(found[0].summary, "真的");
}

#[test]
fn a_new_shard_names_this_app_as_its_producer() {
    let text = blank().to_string();
    assert!(text.contains("PRODID:-//Hinoki//WabiCalendar//EN"), "{text}");
    assert!(!text.contains("ICALENDAR-RS"), "{text}");
    assert!(text.contains("VERSION:2.0"), "{text}");
    assert!(text.contains("CALSCALE:GREGORIAN"), "{text}");
    assert!(!text.contains("BEGIN:VEVENT"), "{text}");
}

#[test]
fn a_built_event_carries_its_uid_summary_times_and_stamp() {
    let e = build("u-1", &drafted("写论文", "2026-07-23T05:00:00Z", "2026-07-23T06:00:00Z"), now());
    assert_eq!(e.get_uid(), Some("u-1"));
    assert_eq!(e.get_summary(), Some("写论文"));
    assert_eq!(e.property_value("DTSTART"), Some("20260723T050000Z"));
    assert_eq!(e.property_value("DTEND"), Some("20260723T060000Z"));
    assert!(e.get_timestamp().is_some());
    assert_eq!(e.get_sequence(), None);
    assert!(!is_recurring(&e));
}

#[test]
fn an_edit_counts_the_sequence_on_from_what_was_there() {
    let mut e = event("UID:a\r\nSEQUENCE:41\r\nDTSTART:20260723T050000Z\r\nDTEND:20260723T060000Z");
    apply(&mut e, &drafted("x", "2026-07-23T07:00:00Z", "2026-07-23T08:00:00Z"), now());
    assert_eq!(e.property_value("SEQUENCE"), Some("42"));
    assert!(e.get_last_modified().is_some());
    let mut at_the_top = event("UID:a\r\nSEQUENCE:4294967295\r\nDTSTART:20260723T050000Z\r\nDTEND:20260723T060000Z");
    apply(&mut at_the_top, &drafted("x", "2026-07-23T07:00:00Z", "2026-07-23T08:00:00Z"), now());
    assert_eq!(at_the_top.property_value("SEQUENCE"), Some("4294967295"));
}

#[test]
fn an_rrule_makes_an_event_recurring() {
    let weekly = event("UID:a\r\nDTSTART:20260723T050000Z\r\nDTEND:20260723T060000Z\r\nRRULE:FREQ=WEEKLY");
    assert!(is_recurring(&weekly));
    let once = event("UID:b\r\nDTSTART:20260723T050000Z\r\nDTEND:20260723T060000Z");
    assert!(!is_recurring(&once));
}

#[test]
fn gathering_keeps_each_vevent_at_its_position_in_its_shard() {
    let todo = "BEGIN:VTODO\r\nUID:t\r\nEND:VTODO\r\n";
    let june = vcal(&format!(
        "{}{}{}",
        vevent("UID:a\r\nDTSTART:20260601T050000Z\r\nDTEND:20260601T060000Z\r\n"),
        todo,
        vevent("UID:b\r\nDTSTART:20260602T050000Z\r\nDTEND:20260602T060000Z\r\nRRULE:FREQ=DAILY\r\n"),
    ));
    let july = vcal(&vevent("UID:c\r\nDTSTART:20260723T050000Z\r\nDTEND:20260723T060000Z\r\n"));
    let loaded = vec![shard(2026, 6, &june), shard(2026, 7, &july)];
    let g = gather(&loaded, JST);
    let seen: Vec<(u32, usize, String, bool)> =
        g.found.iter().map(|f| (f.shard.month, f.index, f.uid.clone(), f.recurring)).collect();
    assert_eq!(
        seen,
        vec![(6, 0, "a".to_string(), false), (6, 2, "b".to_string(), true), (7, 0, "c".to_string(), false)]
    );
    assert_eq!(g.raw.len(), 3);
    assert_eq!(g.raw[1].get_uid(), Some("b"));
}

#[test]
fn a_sequence_written_with_a_plus_sign_still_counts() {
    let mut e = event("UID:a\r\nSEQUENCE:+41\r\nDTSTART:20260723T050000Z\r\nDTEND:20260723T060000Z");
    apply(&mut e, &drafted("x", "2026-07-23T07:00:00Z", "2026-07-23T08:00:00Z"), now());
    assert_eq!(e.property_value("SEQUENCE"), Some("42"));
    let mut junk = event("UID:a\r\nSEQUENCE:-1\r\nDTSTART:20260723T050000Z\r\nDTEND:20260723T060000Z");
    apply(&mut junk, &drafted("x", "2026-07-23T07:00:00Z", "2026-07-23T08:00:00Z"), now());
    assert_eq!(junk.property_value("SEQUENCE"), Some("1"));
}
