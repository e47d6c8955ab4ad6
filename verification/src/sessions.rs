//! The pomodoro half of the vault: `sessions/YYYY-MM-DD.jsonl`, one line per
//! segment that ended.
//!
//! Append-only by construction: a finished pomodoro is a fact about a day
//! that has already happened, so nothing here rewrites or removes a line. A
//! session lives in the file for the local date it started on, because that
//! is the day the user would go looking in.

use vstd::prelude::*;

use crate::text::{digits, push_char, push_digits, push_wide_digits, lemma_seq_lt_irreflexive, lemma_seq_lt_total, lemma_seq_lt_transitive, seq_lt, str_lt};
use crate::calendar::ics::{in_chrono, zone_ok, Zone};
use crate::cli::report::{date_ok, LocalDate};
use crate::days::{date_before, date_le, days_back, days_back_of, next_day, next_day_of, on_or_before, reading_at, reading_in, reading_ok, Reading};
use crate::error::AppError;
use crate::timer::{Ended, Outcome, Phase};

verus! {

broadcast use vstd::seq_lib::group_to_multiset_ensures;

/// How many days before a window a session may have started and still
/// reach into it. Files are keyed on the day a session started, so one
/// running through midnight is filed under the day before; a pomodoro is
/// minutes long, so one day is a wide margin.
pub const REACH_BACK_DAYS: i64 = 1;

/// An instant, in nanoseconds since the Unix epoch, and the UTC offset it is
/// written with.
#[derive(Debug, Clone, Copy, PartialEq, Eq, Structural)]
pub struct Stamp {
    pub at: i128,
    pub offset_sec: i32,
}

/// One segment that ran, as it sits on disk.
#[derive(Debug, Clone, PartialEq, Eq)]
pub struct Session {
    pub id: String,
    /// Work or break: the same enum the timer counts in.
    pub kind: Phase,
    pub planned_sec: u64,
    /// What the monotonic clock counted. Not the wall-clock gap between the
    /// two stamps: a segment paused for ten minutes spans more wall time than
    /// it counted, and both facts are true.
    pub actual_sec: u64,
    pub started_at: Stamp,
    pub ended_at: Stamp,
    pub outcome: Outcome,
    /// What the pomodoro was for, when whoever started it said. Written as
    /// `null` rather than left out otherwise, so every line has the same
    /// shape.
    pub label: Option<String>,
}

/// One session as the week view receives it.
#[derive(Debug, Clone, PartialEq, Eq)]
pub struct SessionView {
    pub id: String,
    pub kind: Phase,
    pub planned_sec: u64,
    pub actual_sec: u64,
    pub started_at: Stamp,
    pub ended_at: Stamp,
    pub outcome: Outcome,
    pub label: Option<String>,
}

fn copy_label(label: &Option<String>) -> (r: Option<String>)
    ensures
        r == *label,
{
    match label {
        Some(l) => Some(l.clone()),
        None => None,
    }
}

impl SessionView {
    /// The same record, for the week view.
    pub fn of(session: &Session) -> (r: SessionView)
        ensures
            r.id == session.id,
            r.kind == session.kind,
            r.planned_sec == session.planned_sec,
            r.actual_sec == session.actual_sec,
            r.started_at == session.started_at,
            r.ended_at == session.ended_at,
            r.outcome == session.outcome,
            r.label == session.label,
    {
        SessionView {
            id: session.id.clone(),
            kind: session.kind,
            planned_sec: session.planned_sec,
            actual_sec: session.actual_sec,
            started_at: session.started_at,
            ended_at: session.ended_at,
            outcome: session.outcome,
            label: copy_label(&session.label),
        }
    }
}

/// The record written for a segment the timer closed, under the fresh `id`,
/// its stamps carrying the offsets the zone had at those instants.
pub open spec fn recorded(ended: Ended, id: String, start_offset: i32, end_offset: i32) -> Session {
    Session {
        id,
        kind: ended.phase,
        planned_sec: ended.planned_sec,
        actual_sec: ended.actual_sec,
        started_at: Stamp { at: ended.started_at, offset_sec: start_offset },
        ended_at: Stamp { at: ended.ended_at, offset_sec: end_offset },
        outcome: ended.outcome,
        label: ended.label,
    }
}

/// The session written for a segment is that segment: its kind, what was
/// planned and what was actually counted, when it began and ended, how it
/// ended and its label, each carried over as the timer closed it, under the
/// fresh id and with the offsets given for its two stamps.
pub proof fn a_session_records_its_segment_as_it_ran(ended: Ended, id: String, start_offset: i32, end_offset: i32)
    ensures
        ({
            let s = recorded(ended, id, start_offset, end_offset);
            &&& s.id == id
            &&& s.kind == ended.phase
            &&& s.planned_sec == ended.planned_sec
            &&& s.actual_sec == ended.actual_sec
            &&& s.started_at.at == ended.started_at && s.started_at.offset_sec == start_offset
            &&& s.ended_at.at == ended.ended_at && s.ended_at.offset_sec == end_offset
            &&& s.outcome == ended.outcome
            &&& s.label == ended.label
        }),
{
}

pub fn session_of(ended: &Ended, id: String, start_offset: i32, end_offset: i32) -> (r: Session)
    ensures
        r == recorded(*ended, id, start_offset, end_offset),
        r.kind == ended.phase,
        r.planned_sec == ended.planned_sec,
        r.actual_sec == ended.actual_sec,
        r.started_at.at == ended.started_at,
        r.ended_at.at == ended.ended_at,
        r.outcome == ended.outcome,
        r.label == ended.label,
{
    Session {
        id,
        kind: ended.phase,
        planned_sec: ended.planned_sec,
        actual_sec: ended.actual_sec,
        started_at: Stamp { at: ended.started_at, offset_sec: start_offset },
        ended_at: Stamp { at: ended.ended_at, offset_sec: end_offset },
        outcome: ended.outcome,
        label: copy_label(&ended.label),
    }
}

/// The window is half-open at both ends, so a session ending exactly when a
/// week begins belongs to the week before.
pub open spec fn overlaps_window(s: Session, from: int, to: int) -> bool {
    s.ended_at.at > from && s.started_at.at < to
}

pub open spec fn in_window_of(from: int, to: int) -> spec_fn(Session) -> bool {
    |s: Session| overlaps_window(s, from, to)
}

/// Sessions come back earliest first, ties broken by id.
pub open spec fn session_lt(a: Session, b: Session) -> bool {
    a.started_at.at < b.started_at.at || (a.started_at.at == b.started_at.at && seq_lt(a.id@, b.id@))
}

pub open spec fn chronological(s: Seq<Session>) -> bool {
    forall|i: int, j: int| 0 <= i < j < s.len() ==> !session_lt(#[trigger] s[j], #[trigger] s[i])
}

fn session_below(a: &Session, b: &Session) -> (r: bool)
    ensures
        r == session_lt(*a, *b),
{
    a.started_at.at < b.started_at.at || (a.started_at.at == b.started_at.at && str_lt(
        a.id.as_str(),
        b.id.as_str(),
    ))
}

/// Of the records read from the day files around a window, the ones that
/// overlap `[from, to)`, earliest first.
pub fn within(records: Vec<Session>, from: i128, to: i128) -> (r: Vec<Session>)
    ensures
        chronological(r@),
        r@.to_multiset() == records@.filter(in_window_of(from as int, to as int)).to_multiset(),
{
    let ghost keep = in_window_of(from as int, to as int);
    let mut rest = records;
    let mut out: Vec<Session> = Vec::new();
    while rest.len() > 0
        invariant
            chronological(out@),
            out@.to_multiset().add(rest@.filter(keep).to_multiset()) == records@.filter(keep).to_multiset(),
            keep == in_window_of(from as int, to as int),
        decreases rest@.len(),
    {
        let ghost old_rest = rest@;
        let ghost old_out = out@;
        let s = rest.pop().unwrap();
        proof {
            assert(old_rest =~= rest@.push(s));
            reveal(Seq::filter);
            assert(old_rest.drop_last() =~= rest@);
        }
        if s.ended_at.at > from && s.started_at.at < to {
            let mut pos: usize = 0;
            while pos < out.len() && session_below(&out[pos], &s)
                invariant
                    pos <= out@.len(),
                    out@ == old_out,
                    forall|k: int| 0 <= k < pos ==> session_lt(#[trigger] out@[k], s),
                decreases out@.len() - pos,
            {
                pos = pos + 1;
            }
            proof {
                lemma_insert_in_order(out@, pos as int, s);
                lemma_insert_multiset(out@, pos as int, s);
                assert(old_rest.filter(keep) =~= rest@.filter(keep).push(s));
            }
            out.insert(pos, s);
            proof {
                assert(out@.to_multiset().add(rest@.filter(keep).to_multiset()) =~= old_out.to_multiset().add(
                    old_rest.filter(keep).to_multiset(),
                ));
            }
        } else {
            proof {
                assert(old_rest.filter(keep) =~= rest@.filter(keep));
            }
        }
    }
    proof {
        reveal(Seq::filter);
        assert(rest@.filter(keep) =~= Seq::<Session>::empty());
        assert(out@.to_multiset().add(rest@.filter(keep).to_multiset()) =~= out@.to_multiset());
    }
    out
}

proof fn lemma_insert_multiset(s: Seq<Session>, pos: int, b: Session)
    requires
        0 <= pos <= s.len(),
    ensures
        s.insert(pos, b).to_multiset() == s.to_multiset().insert(b),
{
    let left = s.take(pos);
    let right = s.skip(pos);
    assert(s =~= left + right);
    assert(s.insert(pos, b) =~= left.push(b) + right);
    vstd::seq_lib::lemma_multiset_commutative(left.push(b), right);
    vstd::seq_lib::lemma_multiset_commutative(left, right);
}

proof fn lemma_insert_in_order(s: Seq<Session>, pos: int, b: Session)
    requires
        0 <= pos <= s.len(),
        chronological(s),
        forall|k: int| 0 <= k < pos ==> session_lt(#[trigger] s[k], b),
        pos < s.len() ==> !session_lt(s[pos], b),
    ensures
        chronological(s.insert(pos, b)),
{
    let n = s.insert(pos, b);
    assert forall|i: int, j: int| 0 <= i < j < n.len() implies !session_lt(#[trigger] n[j], #[trigger] n[i]) by {
        if j < pos {
            assert(n[i] == s[i] && n[j] == s[j]);
        } else if j == pos {
            assert(n[i] == s[i] && n[j] == b);
            lemma_session_order(s[i], b, b);
        } else if i < pos {
            assert(n[i] == s[i] && n[j] == s[j - 1]);
            lemma_session_order(b, s[pos], s[j - 1]);
            lemma_session_order(s[i], b, s[j - 1]);
            lemma_session_order(s[i], s[j - 1], s[j - 1]);
        } else if i == pos {
            assert(n[i] == b && n[j] == s[j - 1]);
            lemma_session_order(b, s[pos], s[j - 1]);
        } else {
            assert(n[i] == s[i - 1] && n[j] == s[j - 1]);
        }
    }
}

/// Ordering by start then id is a total preorder.
proof fn lemma_session_order(a: Session, b: Session, c: Session)
    ensures
        !session_lt(a, a),
        session_lt(a, b) ==> !session_lt(b, a),
        !session_lt(b, a) && !session_lt(c, b) ==> !session_lt(c, a),
        session_lt(a, b) && !session_lt(c, b) ==> session_lt(a, c),
{
    lemma_seq_lt_irreflexive(a.id@);
    lemma_seq_lt_total(a.id@, b.id@);
    lemma_seq_lt_total(b.id@, c.id@);
    lemma_seq_lt_total(a.id@, c.id@);
    if seq_lt(a.id@, b.id@) && seq_lt(b.id@, c.id@) {
        lemma_seq_lt_transitive(a.id@, b.id@, c.id@);
    }
    if seq_lt(c.id@, b.id@) && seq_lt(b.id@, a.id@) {
        lemma_seq_lt_transitive(c.id@, b.id@, a.id@);
    }
}

/// `{nanos}-{pid}-{seq}`: the same scheme as an event's UID.
pub open spec fn session_id_text(nanos: u128, pid: u32, seq: u64) -> Seq<char> {
    digits(nanos as nat) + seq!['-'] + digits(pid as nat) + seq!['-'] + digits(seq as nat)
}

/// The id for a new session record, from the wall clock in nanoseconds,
/// this process's id, and a per-process counter.
pub fn new_id(nanos: u128, pid: u32, seq: u64) -> (r: String)
    ensures
        r@ == session_id_text(nanos, pid, seq),
{
    let mut out = String::new();
    push_wide_digits(&mut out, nanos);
    push_char(&mut out, '-');
    push_digits(&mut out, pid as u64);
    push_char(&mut out, '-');
    push_digits(&mut out, seq);
    out
}

/// Where the walk over day files starts: [`REACH_BACK_DAYS`] before
/// `from`'s local date, or that date itself when `chrono` holds no such day.
pub open spec fn walk_start(zone: Zone, from: i128, first: LocalDate) -> bool {
    &&& date_ok(first)
    &&& reading_in(zone, from) matches Some(x) ==> first == match days_back_of(
        x.date.year,
        x.date.month,
        x.date.day,
        REACH_BACK_DAYS as u64,
    ) {
        Some(p) => p,
        None => x.date,
    }
}

/// Where it ends: `to`'s local date.
pub open spec fn walk_end(zone: Zone, to: i128, last: LocalDate) -> bool {
    &&& date_ok(last)
    &&& reading_in(zone, to) matches Some(x) ==> last == x.date
}

/// `days` are consecutive calendar days from `first`, none after `last`.
pub open spec fn walked(days: Seq<LocalDate>, first: LocalDate, last: LocalDate) -> bool {
    &&& days.len() > 0 ==> days[0] == first
    &&& forall|i: int|
        #![trigger next_day_of(days[i].year, days[i].month, days[i].day)]
        0 <= i < days.len() - 1 ==> next_day_of(days[i].year, days[i].month, days[i].day) == Some(days[i + 1])
    &&& forall|i: int| 0 <= i < days.len() ==> date_le(#[trigger] days[i], last)
}

/// ... and no day through `last` is left out.
pub open spec fn walk_done(days: Seq<LocalDate>, first: LocalDate, last: LocalDate) -> bool {
    if days.len() == 0 {
        !date_le(first, last)
    } else {
        match next_day_of(days.last().year, days.last().month, days.last().day) {
            Some(n) => !date_le(n, last),
            None => true,
        }
    }
}

/// The records of several day files, one file after another.
pub open spec fn flat(parts: Seq<Vec<Session>>) -> Seq<Session>
    decreases parts.len(),
{
    if parts.len() == 0 {
        Seq::empty()
    } else {
        flat(parts.drop_last()) + parts.last()@
    }
}

/// A date as one number, increasing with the date.
spec fn ordinal(d: LocalDate) -> int {
    d.year * 512 + d.month * 32 + d.day
}

proof fn lemma_ordinal(a: LocalDate, b: LocalDate)
    requires
        date_ok(a),
        date_ok(b),
    ensures
        date_before(a, b) ==> ordinal(a) < ordinal(b),
        date_le(a, b) ==> ordinal(a) <= ordinal(b),
{
}

/// Reads and writes the `sessions/` half of one vault, in one zone: the
/// zone decides which day file a session belongs in and the offsets its
/// stamps are written with.
pub struct Sessions {
    pub zone: Zone,
}

impl Sessions {
    /// Sessions kept in `zone`.
    pub fn new(zone: Zone) -> (r: Sessions)
        requires
            zone_ok(zone),
        ensures
            r.zone == zone,
    {
        Sessions { zone }
    }

    /// Sessions kept in the machine's own zone, as everything in the app
    /// proper does.
    pub fn local() -> (r: Sessions)
        ensures
            r.zone == Zone::Local,
    {
        Sessions { zone: Zone::Local }
    }

    /// Write down a segment the timer just closed, under the fresh `id`.
    /// Its stamps carry the offsets the zone has at its two instants, and
    /// `append` is handed the local date it started on, which names the day
    /// file it goes in, with the record. The record comes back once it is
    /// written.
    pub fn record<F: FnOnce(&LocalDate, &Session) -> Result<(), AppError>>(
        &self,
        ended: &Ended,
        id: String,
        append: F,
    ) -> (r: Result<Session, AppError>)
        requires
            zone_ok(self.zone),
            in_chrono(ended.started_at as int),
            in_chrono(ended.ended_at as int),
            forall|d: &LocalDate, s: &Session| #[trigger] append.requires((d, s)),
        ensures
            exists|start: Reading, end: Reading, written: Result<(), AppError>|
                {
                    &&& reading_ok(start) && reading_ok(end)
                    &&& reading_in(self.zone, ended.started_at) matches Some(x) ==> start == x
                    &&& reading_in(self.zone, ended.ended_at) matches Some(x) ==> end == x
                    &&& #[trigger] append.ensures(
                        (&start.date, &recorded(*ended, id, start.offset_sec, end.offset_sec)),
                        written,
                    )
                    &&& match written {
                        Ok(()) => r == Ok::<Session, AppError>(recorded(*ended, id, start.offset_sec, end.offset_sec)),
                        Err(e) => r == Err::<Session, AppError>(e),
                    }
                },
    {
        let start = reading_at(self.zone, ended.started_at);
        let end = reading_at(self.zone, ended.ended_at);
        let ghost fresh = id;
        let session = session_of(ended, id, start.offset_sec, end.offset_sec);
        let written = append(&start.date, &session);
        assert(append.ensures((&start.date, &recorded(*ended, fresh, start.offset_sec, end.offset_sec)), written));
        match written {
            Ok(()) => Ok(session),
            Err(e) => Err(e),
        }
    }

    /// Every session overlapping `[from, to)`, earliest first, ties by id.
    ///
    /// Files are keyed on the local date a session started, so one running
    /// through midnight is filed under the day before: `read_day` is asked,
    /// in order, for each day from [`REACH_BACK_DAYS`] before `from`'s local
    /// date through `to`'s. The first read that fails ends the walk with its
    /// error.
    pub fn range<F: Fn(&LocalDate) -> Result<Vec<Session>, AppError>>(&self, from: i128, to: i128, read_day: F) -> (r:
        Result<Vec<Session>, AppError>)
        requires
            zone_ok(self.zone),
            in_chrono(from as int),
            in_chrono(to as int),
            forall|d: &LocalDate| #[trigger] read_day.requires((d,)),
        ensures
            exists|first: LocalDate, last: LocalDate, days: Seq<LocalDate>, parts: Seq<Vec<Session>>|
                #![trigger walked(days, first, last), flat(parts)]
                {
                    &&& walk_start(self.zone, from, first)
                    &&& walk_end(self.zone, to, last)
                    &&& walked(days, first, last)
                    &&& forall|i: int|
                        0 <= i < parts.len() ==> #[trigger] read_day.ensures(
                            (&days[i],),
                            Ok::<Vec<Session>, AppError>(parts[i]),
                        )
                    &&& match r {
                        Ok(v) => {
                            &&& parts.len() == days.len()
                            &&& walk_done(days, first, last)
                            &&& chronological(v@)
                            &&& v@.to_multiset() == flat(parts).filter(in_window_of(from as int, to as int)).to_multiset()
                        },
                        Err(e) => {
                            &&& parts.len() + 1 == days.len()
                            &&& read_day.ensures((&days[parts.len() as int],), Err::<Vec<Session>, AppError>(e))
                        },
                    }
                },
    {
        let first_date = reading_at(self.zone, from).date;
        let last = reading_at(self.zone, to).date;
        let mut day = match days_back(first_date, REACH_BACK_DAYS as u64) {
            Some(p) => p,
            None => first_date,
        };
        let ghost first = day;
        let mut records: Vec<Session> = Vec::new();
        let ghost mut days: Seq<LocalDate> = Seq::empty();
        let ghost mut parts: Seq<Vec<Session>> = Seq::empty();
        let mut going = on_or_before(&day, &last);
        assert(flat(parts) =~= records@);
        while going
            invariant
                date_ok(day),
                date_ok(last),
                walk_start(self.zone, from, first),
                walk_end(self.zone, to, last),
                days.len() == parts.len(),
                walked(days, first, last),
                going ==> date_le(day, last),
                days.len() == 0 ==> day == first,
                going && days.len() > 0 ==> next_day_of(days.last().year, days.last().month, days.last().day) == Some(day),
                !going ==> walk_done(days, first, last),
                forall|i: int|
                    0 <= i < parts.len() ==> #[trigger] read_day.ensures(
                        (&days[i],),
                        Ok::<Vec<Session>, AppError>(parts[i]),
                    ),
                records@ == flat(parts),
                forall|d: &LocalDate| #[trigger] read_day.requires((d,)),
            decreases (if going {
                ordinal(last) - ordinal(day) + 1
            } else {
                0
            }),
        {
            proof {
                lemma_ordinal(day, last);
            }
            let read = read_day(&day);
            let ghost before_days = days;
            proof {
                days = days.push(day);
                assert(days[days.len() - 1] == day);
                assert forall|i: int|
                    #![trigger next_day_of(days[i].year, days[i].month, days[i].day)]
                    0 <= i < days.len() - 1 implies next_day_of(days[i].year, days[i].month, days[i].day) == Some(
                    days[i + 1],
                ) by {
                    if i < days.len() - 2 {
                        assert(days[i] == before_days[i] && days[i + 1] == before_days[i + 1]);
                        assert(next_day_of(before_days[i].year, before_days[i].month, before_days[i].day) == Some(
                            before_days[i + 1],
                        ));
                    }
                }
                assert forall|i: int| 0 <= i < days.len() implies date_le(#[trigger] days[i], last) by {
                    if i < days.len() - 1 {
                        assert(days[i] == before_days[i]);
                    }
                }
                assert(walked(days, first, last));
            }
            match read {
                Err(e) => {
                    assert(days[parts.len() as int] == day);
                    assert(read_day.ensures((&days[parts.len() as int],), Err::<Vec<Session>, AppError>(e)));
                    return Err(e);
                },
                Ok(found) => {
                    let ghost got = found;
                    let ghost before_parts = parts;
                    let mut found = found;
                    records.append(&mut found);
                    proof {
                        parts = parts.push(got);
                        assert(parts.drop_last() =~= before_parts);
                        assert(flat(parts) =~= records@);
                        assert forall|i: int| 0 <= i < parts.len() implies #[trigger] read_day.ensures(
                            (&days[i],),
                            Ok::<Vec<Session>, AppError>(parts[i]),
                        ) by {
                            if i < parts.len() - 1 {
                                assert(parts[i] == before_parts[i] && days[i] == before_days[i]);
                            }
                        }
                    }
                },
            }
            match next_day(day) {
                Some(n) => {
                    proof {
                        lemma_ordinal(day, n);
                        lemma_ordinal(n, last);
                    }
                    day = n;
                    going = on_or_before(&day, &last);
                },
                None => {
                    going = false;
                },
            }
        }
        let out = within(records, from, to);
        Ok(out)
    }
}

} // verus!
