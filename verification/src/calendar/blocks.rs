//! From the VEVENTs chosen for a window to the flat blocks the week view
//! draws.
//!
//! Instants are nanoseconds since the Unix epoch, already resolved from
//! whichever of the four RFC 5545 forms the file used.

use vstd::multiset::Multiset;
use vstd::prelude::*;

use crate::calendar::{CalEvent, Chosen};
use crate::calendar::store::YearMonth;
use crate::calendar::store::ym_le;
use crate::text::{
    decimal, lemma_seq_lt_irreflexive, lemma_seq_lt_total, lemma_seq_lt_transitive, push_char, push_decimal,
    push_str, seq_lt, str_lt,
};

verus! {

broadcast use vstd::seq_lib::group_to_multiset_ensures;

pub const NANOS_PER_SEC: i128 = 1_000_000_000;

/// What a VEVENT without a DTEND lasts. RFC 5545 reads a missing DTEND on a
/// DATE-TIME event as an instant; a zero-height block is unusable, so the
/// conventional hour is drawn instead.
pub const IMPLIED_NANOS: i128 = 3600 * 1_000_000_000;

/// The same for a DATE-valued event, which RFC 5545 does define: a day.
pub const IMPLIED_ALL_DAY_NANOS: i128 = 86400 * 1_000_000_000;

/// How far back a recurrence search reaches for an occurrence that starts
/// before the window and runs into it.
pub const MAX_WIDEN_NANOS: i128 = 366 * 86400 * 1_000_000_000;

/// Enough occurrences for any one week.
pub const OCCURRENCE_LIMIT: u16 = 2000;

/// The largest instant handled, in either direction: far beyond any date a
/// calendar holds, and small enough that the whole seconds between two such
/// instants fit an `i64`.
pub const MAX_INSTANT: i128 = 4_000_000_000_000_000_000 * 1_000_000_000;

pub open spec fn instant_ok(t: int) -> bool {
    -MAX_INSTANT <= t <= MAX_INSTANT
}

/// What the week view reads off one VEVENT.
#[derive(Debug, Clone, PartialEq, Eq)]
pub struct Vevent {
    /// Empty when the VEVENT has none.
    pub uid: String,
    pub summary: String,
    /// DTSTART as an instant; `None` when it is missing or names no instant.
    pub start: Option<i128>,
    /// DTEND as an instant, when there is one.
    pub end: Option<i128>,
    /// DTSTART is DATE-valued.
    pub all_day: bool,
    /// It carries an RRULE or RDATE.
    pub recurring: bool,
}

pub open spec fn vevent_ok(ev: Vevent) -> bool {
    &&& (ev.start matches Some(s) ==> instant_ok(s as int))
    &&& (ev.end matches Some(e) ==> instant_ok(e as int))
}

/// A block, as values.
pub struct BlockView {
    pub id: Seq<char>,
    pub uid: Seq<char>,
    pub summary: Seq<char>,
    pub start: int,
    pub end: int,
    pub recurring: bool,
    pub all_day: bool,
}

impl View for CalEvent {
    type V = BlockView;

    open spec fn view(&self) -> BlockView {
        BlockView {
            id: self.id@,
            uid: self.uid@,
            summary: self.summary@,
            start: self.start as int,
            end: self.end as int,
            recurring: self.recurring,
            all_day: self.all_day,
        }
    }
}

pub open spec fn implied(all_day: bool) -> int {
    if all_day {
        IMPLIED_ALL_DAY_NANOS as int
    } else {
        IMPLIED_NANOS as int
    }
}

/// Where a block ends: DTEND when it comes after DTSTART, else the implied
/// length. A DTEND at or before DTSTART cannot be drawn, and is not allowed
/// to make the event vanish.
pub open spec fn block_end(start: int, end: Option<i128>, all_day: bool) -> int {
    match end {
        Some(e) => if e > start {
            e as int
        } else {
            start + implied(all_day)
        },
        None => start + implied(all_day),
    }
}

/// The window is half-open at both ends.
pub open spec fn overlaps(start: int, end: int, from: int, to: int) -> bool {
    start < to && end > from
}

/// The handle a block is keyed on: the UID, or the place the VEVENT was
/// found when it has none.
pub open spec fn block_key(uid: Seq<char>, fallback: Seq<char>) -> Seq<char> {
    if uid.len() == 0 {
        fallback
    } else {
        uid
    }
}

/// One occurrence's id: the key, `#`, and its start in whole seconds.
pub open spec fn occurrence_id(key: Seq<char>, at: int) -> Seq<char> {
    key + seq!['#'] + decimal(at / (NANOS_PER_SEC as int))
}

pub open spec fn block_of(ev: Vevent, id: Seq<char>, start: int, end: int, recurring: bool) -> BlockView {
    BlockView { id, uid: ev.uid@, summary: ev.summary@, start, end, recurring, all_day: ev.all_day }
}

/// The blocks the occurrences at `ats` contribute, each lasting `d`.
pub open spec fn repeated_blocks(ev: Vevent, key: Seq<char>, ats: Seq<i128>, d: int, from: int, to: int) -> Seq<
    BlockView,
>
    decreases ats.len(),
{
    if ats.len() == 0 {
        Seq::empty()
    } else {
        let prev = repeated_blocks(ev, key, ats.drop_last(), d, from, to);
        let at = ats.last() as int;
        if overlaps(at, at + d, from, to) {
            prev.push(block_of(ev, occurrence_id(key, at), at, at + d, true))
        } else {
            prev
        }
    }
}

/// Every block `ev` contributes to `[from, to)`. `expansion` is what the
/// recurrence rule yields for the search window, or `None` when the rule
/// cannot be read: a malformed rule costs the rule, not the event, which is
/// still drawn once and still counts as repeating, so no edit from this side
/// can quietly drop it.
pub open spec fn blocks_for(ev: Vevent, fallback: Seq<char>, from: int, to: int, expansion: Option<Seq<i128>>) -> Seq<
    BlockView,
> {
    match ev.start {
        None => Seq::empty(),
        Some(s) => {
            let s = s as int;
            let e = block_end(s, ev.end, ev.all_day);
            let key = block_key(ev.uid@, fallback);
            if ev.recurring && expansion is Some {
                repeated_blocks(ev, key, expansion->0, e - s, from, to)
            } else if overlaps(s, e, from, to) {
                seq![block_of(ev, key, s, e, ev.recurring)]
            } else {
                Seq::empty()
            }
        },
    }
}

/// Where a recurrence search starts: one block length (at most a year)
/// before the window, so an occurrence running into it is still found.
pub open spec fn search_start_spec(from: int, duration: int) -> int {
    from - if duration < MAX_WIDEN_NANOS {
        duration
    } else {
        MAX_WIDEN_NANOS as int
    }
}

/// Where the recurrence search for an event lasting `duration` begins.
pub fn search_start(from: i128, duration: i128) -> (r: i128)
    requires
        instant_ok(from as int),
        0 <= duration,
    ensures
        r == search_start_spec(from as int, duration as int),
{
    if duration < MAX_WIDEN_NANOS {
        from - duration
    } else {
        from - MAX_WIDEN_NANOS
    }
}

/// How long `ev` lasts, for the recurrence search: `None` when it has no
/// start to measure from.
pub fn duration_of(ev: &Vevent) -> (r: Option<i128>)
    requires
        vevent_ok(*ev),
    ensures
        match ev.start {
            None => r is None,
            Some(s) => r == Some((block_end(s as int, ev.end, ev.all_day) - s) as i128),
        },
        r matches Some(d) ==> 0 < d <= 2 * MAX_INSTANT,
{
    match ev.start {
        None => None,
        Some(s) => Some(end_of(s, ev.end, ev.all_day) - s),
    }
}

fn end_of(start: i128, end: Option<i128>, all_day: bool) -> (r: i128)
    requires
        instant_ok(start as int),
        end matches Some(e) ==> instant_ok(e as int),
    ensures
        r == block_end(start as int, end, all_day),
{
    let fallback = if all_day {
        start + IMPLIED_ALL_DAY_NANOS
    } else {
        start + IMPLIED_NANOS
    };
    match end {
        Some(e) => if e > start {
            e
        } else {
            fallback
        },
        None => fallback,
    }
}

fn block(ev: &Vevent, id: String, start: i128, end: i128, recurring: bool) -> (r: CalEvent)
    ensures
        r@ == block_of(*ev, id@, start as int, end as int, recurring),
{
    CalEvent {
        id,
        uid: copy_text(&ev.uid),
        summary: copy_text(&ev.summary),
        start,
        end,
        recurring,
        all_day: ev.all_day,
    }
}

fn copy_text(s: &String) -> (r: String)
    ensures
        r@ == s@,
{
    let mut out = String::new();
    push_str(&mut out, s.as_str());
    out
}

/// An instant in whole seconds, rounded down: what `timestamp()` reads.
pub fn whole_seconds(at: i128) -> (r: i128)
    requires
        instant_ok(at as int),
    ensures
        r == at as int / (NANOS_PER_SEC as int),
{
    let secs: i128 = if at >= 0 {
        at / NANOS_PER_SEC
    } else {
        -((-at + (NANOS_PER_SEC - 1)) / NANOS_PER_SEC)
    };
    proof {
        let a = at as int;
        let d = 1_000_000_000int;
        if a < 0 {
            let q = (-a + d - 1) / d;
            assert(-q == a / d) by (nonlinear_arith)
                requires
                    a < 0,
                    d == 1_000_000_000,
                    q == (-a + d - 1) / d,
            ;
        }
    }
    secs
}

fn format_occurrence_id(key: &str, at: i128) -> (r: String)
    requires
        instant_ok(at as int),
    ensures
        r@ == occurrence_id(key@, at as int),
{
    let mut out = String::new();
    push_str(&mut out, key);
    push_char(&mut out, '#');
    let secs = whole_seconds(at);
    proof {
        assert(i64::MIN <= at as int / 1_000_000_000int <= i64::MAX) by (nonlinear_arith)
            requires
                -MAX_INSTANT <= at as int <= MAX_INSTANT,
        ;
    }
    push_decimal(&mut out, secs as i64);
    out
}

/// Append every block `ev` contributes to `[from, to)` to `out`.
///
/// `fallback` stands in for the UID of a VEVENT that has none, so even an
/// unaddressable event renders under a stable, unique id.
pub fn occurrences(
    ev: &Vevent,
    from: i128,
    to: i128,
    fallback: &str,
    expansion: Option<&Vec<i128>>,
    out: &mut Vec<CalEvent>,
)
    requires
        vevent_ok(*ev),
        instant_ok(from as int),
        instant_ok(to as int),
        expansion matches Some(ats) ==> forall|i: int| 0 <= i < ats@.len() ==> instant_ok(#[trigger] ats@[i] as int),
    ensures
        views(final(out)@) == views(old(out)@) + blocks_for(
            *ev,
            fallback@,
            from as int,
            to as int,
            match expansion {
                Some(v) => Some(v@),
                None => None,
            },
        ),
{
    let ghost before = out@.map_values(|b: CalEvent| b@);
    let ghost exp: Option<Seq<i128>> = match expansion {
        Some(v) => Some(v@),
        None => None,
    };
    let start = match ev.start {
        None => {
            assert(out@.map_values(|b: CalEvent| b@) =~= before + blocks_for(*ev, fallback@, from as int, to as int, exp));
            return;
        },
        Some(s) => s,
    };
    let end = end_of(start, ev.end, ev.all_day);
    let duration = end - start;
    let key: &str = if ev.uid.as_str().is_empty() {
        fallback
    } else {
        ev.uid.as_str()
    };
    assert(key@ == block_key(ev.uid@, fallback@));
    match expansion {
        Some(ats) if ev.recurring => {
            let mut i: usize = 0;
            while i < ats.len()
                invariant
                    i <= ats@.len(),
                    vevent_ok(*ev),
                    instant_ok(from as int),
                    instant_ok(to as int),
                    forall|j: int| 0 <= j < ats@.len() ==> instant_ok(#[trigger] ats@[j] as int),
                    ev.start == Some(start),
                    duration == block_end(start as int, ev.end, ev.all_day) - start,
                    0 < duration <= 2 * MAX_INSTANT,
                    key@ == block_key(ev.uid@, fallback@),
                    out@.map_values(|b: CalEvent| b@) == before + repeated_blocks(
                        *ev,
                        key@,
                        ats@.subrange(0, i as int),
                        duration as int,
                        from as int,
                        to as int,
                    ),
                decreases ats@.len() - i,
            {
                let at = ats[i];
                assert(ats@.subrange(0, i + 1).drop_last() =~= ats@.subrange(0, i as int));
                let stop = at + duration;
                let ghost prev_out = out@;
                let ghost sub = ats@.subrange(0, i + 1);
                assert(sub.last() == at);
                if at < to && stop > from {
                    let id = format_occurrence_id(key, at);
                    let b = block(ev, id, at, stop, true);
                    out.push(b);
                    assert(out@.map_values(|b: CalEvent| b@) =~= prev_out.map_values(|b: CalEvent| b@).push(b@));
                }
                assert(out@.map_values(|b: CalEvent| b@) =~= before + repeated_blocks(
                    *ev,
                    key@,
                    ats@.subrange(0, i + 1),
                    duration as int,
                    from as int,
                    to as int,
                ));
                i = i + 1;
            }
            assert(ats@.subrange(0, i as int) =~= ats@);
        },
        _ => {
            if start < to && end > from {
                let b = block(ev, copy_text_str(key), start, end, ev.recurring);
                out.push(b);
            }
            assert(out@.map_values(|b: CalEvent| b@) =~= before + blocks_for(*ev, fallback@, from as int, to as int, exp));
        },
    }
}

fn copy_text_str(s: &str) -> (r: String)
    ensures
        r@ == s@,
{
    let mut out = String::new();
    push_str(&mut out, s);
    out
}

/// The order blocks are drawn in: by start, then by id.
pub open spec fn block_lt(a: BlockView, b: BlockView) -> bool {
    a.start < b.start || (a.start == b.start && seq_lt(a.id, b.id))
}

/// No block is drawn before one that sorts below it.
pub open spec fn in_draw_order(s: Seq<BlockView>) -> bool {
    forall|i: int, j: int| 0 <= i < j < s.len() ==> !block_lt(#[trigger] s[j], #[trigger] s[i])
}

fn block_below(a: &CalEvent, b: &CalEvent) -> (r: bool)
    ensures
        r == block_lt(a@, b@),
{
    a.start < b.start || (a.start == b.start && str_lt(a.id.as_str(), b.id.as_str()))
}

pub open spec fn views(s: Seq<CalEvent>) -> Seq<BlockView> {
    s.map_values(|b: CalEvent| b@)
}

/// `blocks`, put in draw order. Nothing is added or lost.
pub fn in_order(blocks: Vec<CalEvent>) -> (r: Vec<CalEvent>)
    ensures
        in_draw_order(views(r@)),
        views(r@).to_multiset() == views(blocks@).to_multiset(),
{
    let mut rest = blocks;
    let mut out: Vec<CalEvent> = Vec::new();
    while rest.len() > 0
        invariant
            in_draw_order(views(out@)),
            views(out@).to_multiset().add(views(rest@).to_multiset()) == views(blocks@).to_multiset(),
        decreases rest@.len(),
    {
        let ghost old_rest = rest@;
        let ghost old_out = out@;
        let b = rest.pop().unwrap();
        assert(views(old_rest) =~= views(rest@).push(b@));
        let mut pos: usize = 0;
        while pos < out.len() && block_below(&out[pos], &b)
            invariant
                pos <= out@.len(),
                out@ == old_out,
                forall|k: int| 0 <= k < pos ==> block_lt(#[trigger] out@[k]@, b@),
            decreases out@.len() - pos,
        {
            pos = pos + 1;
        }
        proof {
            lemma_insert_keeps_order(out@, pos as int, b);
            assert(views(out@.insert(pos as int, b)) =~= views(out@).insert(pos as int, b@));
            lemma_insert_multiset(views(out@), pos as int, b@);
        }
        out.insert(pos, b);
        proof {
            assert(views(out@).to_multiset() =~= views(old_out).to_multiset().insert(b@));
            assert(views(old_rest).to_multiset() =~= views(rest@).to_multiset().insert(b@));
            assert(views(out@).to_multiset().add(views(rest@).to_multiset()) =~= views(old_out).to_multiset().add(
                views(old_rest).to_multiset(),
            ));
        }
    }
    assert(views(rest@).to_multiset() =~= Multiset::empty());
    assert(views(out@).to_multiset().add(views(rest@).to_multiset()) =~= views(out@).to_multiset());
    out
}

proof fn lemma_insert_multiset<A>(s: Seq<A>, pos: int, b: A)
    requires
        0 <= pos <= s.len(),
    ensures
        s.insert(pos, b).to_multiset() == s.to_multiset().insert(b),
{
    let left = s.take(pos);
    let right = s.skip(pos);
    assert(s =~= left + right);
    assert(s.insert(pos, b) =~= left.push(b) + right);
    vstd::seq_lib::lemma_multiset_commutative(left.push(b), right);
    vstd::seq_lib::lemma_multiset_commutative(left, right);
}

/// The recurrence expansion handed in for one chosen VEVENT, as values.
pub open spec fn expansion_view(e: Option<Vec<i128>>) -> Option<Seq<i128>> {
    match e {
        Some(v) => Some(v@),
        None => None,
    }
}

/// Every block the chosen VEVENTs contribute to `[from, to)`, in the order
/// chosen.
pub open spec fn window_spec(
    events: Seq<Vevent>,
    chosen: Seq<Chosen>,
    expansions: Seq<Option<Vec<i128>>>,
    from: int,
    to: int,
) -> Seq<BlockView>
    decreases chosen.len(),
{
    if chosen.len() == 0 {
        Seq::empty()
    } else {
        let c = chosen.last();
        window_spec(events, chosen.drop_last(), expansions.drop_last(), from, to) + blocks_for(
            events[c.copy as int],
            c.key@,
            from,
            to,
            expansion_view(expansions[chosen.len() - 1]),
        )
    }
}

pub open spec fn expansions_ok(expansions: Seq<Option<Vec<i128>>>) -> bool {
    forall|i: int|
        0 <= i < expansions.len() ==> (#[trigger] expansions[i] matches Some(v) ==> forall|j: int|
            0 <= j < v@.len() ==> instant_ok(#[trigger] v@[j] as int))
}

/// Everything the week view draws for `[from, to)`: the blocks of each
/// chosen VEVENT, earliest first, ties broken by id. `expansions[i]` is what
/// the recurrence rule of the `i`th chosen VEVENT yields for its search
/// window (see [`search_start`]).
pub fn window_blocks(
    events: &Vec<Vevent>,
    chosen: &Vec<Chosen>,
    expansions: &Vec<Option<Vec<i128>>>,
    from: i128,
    to: i128,
) -> (r: Vec<CalEvent>)
    requires
        chosen@.len() == expansions@.len(),
        forall|i: int| 0 <= i < chosen@.len() ==> (#[trigger] chosen@[i]).copy < events@.len(),
        forall|i: int| 0 <= i < events@.len() ==> vevent_ok(#[trigger] events@[i]),
        expansions_ok(expansions@),
        instant_ok(from as int),
        instant_ok(to as int),
    ensures
        in_draw_order(views(r@)),
        views(r@).to_multiset() == window_spec(events@, chosen@, expansions@, from as int, to as int).to_multiset(),
{
    let mut all: Vec<CalEvent> = Vec::new();
    let mut i: usize = 0;
    while i < chosen.len()
        invariant
            i <= chosen@.len(),
            chosen@.len() == expansions@.len(),
            forall|k: int| 0 <= k < chosen@.len() ==> (#[trigger] chosen@[k]).copy < events@.len(),
            forall|k: int| 0 <= k < events@.len() ==> vevent_ok(#[trigger] events@[k]),
            expansions_ok(expansions@),
            instant_ok(from as int),
            instant_ok(to as int),
            views(all@) == window_spec(
                events@,
                chosen@.subrange(0, i as int),
                expansions@.subrange(0, i as int),
                from as int,
                to as int,
            ),
        decreases chosen@.len() - i,
    {
        let c = &chosen[i];
        let ev = &events[c.copy];
        proof {
            assert(chosen@.subrange(0, i + 1).drop_last() =~= chosen@.subrange(0, i as int));
            assert(expansions@.subrange(0, i + 1).drop_last() =~= expansions@.subrange(0, i as int));
        }
        let exp: Option<&Vec<i128>> = match &expansions[i] {
            Some(v) => Some(v),
            None => None,
        };
        occurrences(ev, from, to, c.key.as_str(), exp, &mut all);
        i = i + 1;
    }
    assert(chosen@.subrange(0, i as int) =~= chosen@);
    assert(expansions@.subrange(0, i as int) =~= expansions@);
    in_order(all)
}

proof fn lemma_insert_keeps_order(s: Seq<CalEvent>, pos: int, b: CalEvent)
    requires
        0 <= pos <= s.len(),
        in_draw_order(views(s)),
        forall|k: int| 0 <= k < pos ==> block_lt(#[trigger] s[k]@, b@),
        pos < s.len() ==> !block_lt(s[pos]@, b@),
    ensures
        in_draw_order(views(s.insert(pos, b))),
{
    let v = views(s);
    let n = views(s.insert(pos, b));
    assert forall|i: int, j: int| 0 <= i < j < n.len() implies !block_lt(#[trigger] n[j], #[trigger] n[i]) by {
        if j < pos {
            assert(n[i] == v[i] && n[j] == v[j]);
        } else if j == pos {
            assert(n[i] == s[i]@ && n[j] == b@);
            lemma_block_order(s[i]@, b@, b@);
        } else if i < pos {
            assert(n[i] == s[i]@ && n[j] == s[j - 1]@);
            if pos < j - 1 {
                assert(v[pos] == s[pos]@ && v[j - 1] == s[j - 1]@);
                assert(!block_lt(v[j - 1], v[pos]));
            }
            lemma_block_order(b@, s[pos]@, s[j - 1]@);
            lemma_block_order(s[i]@, b@, s[j - 1]@);
            lemma_block_order(s[i]@, s[j - 1]@, s[j - 1]@);
        } else if i == pos {
            assert(n[i] == b@ && n[j] == s[j - 1]@);
            if pos < j - 1 {
                assert(v[pos] == s[pos]@ && v[j - 1] == s[j - 1]@);
                assert(!block_lt(v[j - 1], v[pos]));
            }
            lemma_block_order(b@, s[pos]@, s[j - 1]@);
        } else {
            assert(n[i] == v[i - 1] && n[j] == v[j - 1]);
        }
    }
}

/// Sorting by start then id is a total preorder.
proof fn lemma_block_order(a: BlockView, b: BlockView, c: BlockView)
    ensures
        !block_lt(a, a),
        block_lt(a, b) ==> !block_lt(b, a),
        !block_lt(b, a) && !block_lt(c, b) ==> !block_lt(c, a),
        block_lt(a, b) && !block_lt(c, b) ==> block_lt(a, c),
{
    lemma_seq_lt_irreflexive(a.id);
    lemma_seq_lt_total(a.id, b.id);
    lemma_seq_lt_total(b.id, c.id);
    lemma_seq_lt_total(a.id, c.id);
    if seq_lt(a.id, b.id) && seq_lt(b.id, c.id) {
        lemma_seq_lt_transitive(a.id, b.id, c.id);
    }
    if seq_lt(c.id, b.id) && seq_lt(b.id, a.id) {
        lemma_seq_lt_transitive(c.id, b.id, a.id);
    }
}

/// The shards a window ending in month `last` reads: every one up to it.
/// Nothing that starts after the window can reach back into it; shards
/// before it are still read, since a repeating event's rule lives with its
/// DTSTART, which may be years earlier.
pub fn shards_up_to(shards: &Vec<YearMonth>, last: YearMonth) -> (r: Vec<YearMonth>)
    ensures
        r@ == shards@.filter(|s: YearMonth| ym_le(s, last)),
{
    let mut out: Vec<YearMonth> = Vec::new();
    let mut i: usize = 0;
    while i < shards.len()
        invariant
            i <= shards@.len(),
            out@ == shards@.subrange(0, i as int).filter(|s: YearMonth| ym_le(s, last)),
        decreases shards@.len() - i,
    {
        let s = shards[i];
        proof {
            reveal(Seq::filter);
            assert(shards@.subrange(0, i + 1).drop_last() =~= shards@.subrange(0, i as int));
        }
        if !s.is_after(&last) {
            out.push(s);
        }
        i = i + 1;
    }
    assert(shards@.subrange(0, i as int) =~= shards@);
    out
}

/// The order a day's plan is listed in: by start, then by end, then by id.
pub open spec fn day_lt(a: BlockView, b: BlockView) -> bool {
    a.start < b.start || (a.start == b.start && (a.end < b.end || (a.end == b.end && seq_lt(a.id, b.id))))
}

pub open spec fn in_day_order(s: Seq<BlockView>) -> bool {
    forall|i: int, j: int| 0 <= i < j < s.len() ==> !day_lt(#[trigger] s[j], #[trigger] s[i])
}

fn day_below(a: &CalEvent, b: &CalEvent) -> (r: bool)
    ensures
        r == day_lt(a@, b@),
{
    a.start < b.start || (a.start == b.start && (a.end < b.end || (a.end == b.end && str_lt(
        a.id.as_str(),
        b.id.as_str(),
    ))))
}

proof fn lemma_day_order(a: BlockView, b: BlockView, c: BlockView)
    ensures
        !day_lt(a, a),
        day_lt(a, b) ==> !day_lt(b, a),
        !day_lt(b, a) && !day_lt(c, b) ==> !day_lt(c, a),
        day_lt(a, b) && !day_lt(c, b) ==> day_lt(a, c),
{
    lemma_seq_lt_irreflexive(a.id);
    lemma_seq_lt_total(a.id, b.id);
    lemma_seq_lt_total(b.id, c.id);
    lemma_seq_lt_total(a.id, c.id);
    if seq_lt(a.id, b.id) && seq_lt(b.id, c.id) {
        lemma_seq_lt_transitive(a.id, b.id, c.id);
    }
    if seq_lt(c.id, b.id) && seq_lt(b.id, a.id) {
        lemma_seq_lt_transitive(c.id, b.id, a.id);
    }
}

proof fn lemma_insert_keeps_day_order(s: Seq<CalEvent>, pos: int, b: CalEvent)
    requires
        0 <= pos <= s.len(),
        in_day_order(views(s)),
        forall|k: int| 0 <= k < pos ==> day_lt(#[trigger] s[k]@, b@),
        pos < s.len() ==> !day_lt(s[pos]@, b@),
    ensures
        in_day_order(views(s.insert(pos, b))),
{
    let v = views(s);
    let n = views(s.insert(pos, b));
    assert forall|i: int, j: int| 0 <= i < j < n.len() implies !day_lt(#[trigger] n[j], #[trigger] n[i]) by {
        if j < pos {
            assert(n[i] == v[i] && n[j] == v[j]);
        } else if j == pos {
            assert(n[i] == s[i]@ && n[j] == b@);
            lemma_day_order(s[i]@, b@, b@);
        } else if i < pos {
            assert(n[i] == s[i]@ && n[j] == s[j - 1]@);
            if pos < j - 1 {
                assert(v[pos] == s[pos]@ && v[j - 1] == s[j - 1]@);
                assert(!day_lt(v[j - 1], v[pos]));
            }
            lemma_day_order(b@, s[pos]@, s[j - 1]@);
            lemma_day_order(s[i]@, b@, s[j - 1]@);
            lemma_day_order(s[i]@, s[j - 1]@, s[j - 1]@);
        } else if i == pos {
            assert(n[i] == b@ && n[j] == s[j - 1]@);
            if pos < j - 1 {
                assert(v[pos] == s[pos]@ && v[j - 1] == s[j - 1]@);
                assert(!day_lt(v[j - 1], v[pos]));
            }
            lemma_day_order(b@, s[pos]@, s[j - 1]@);
        } else {
            assert(n[i] == v[i - 1] && n[j] == v[j - 1]);
        }
    }
}

/// A day's plan, in the order it reads top to bottom: by start, then end,
/// then id. Nothing is added or lost.
/// A day's plan reads top to bottom, earliest first: no block starts
/// before one listed above it, and of two that start together the one that
/// ends first comes first.
pub proof fn a_day_plan_runs_earliest_first(s: Seq<BlockView>)
    requires
        in_day_order(s),
    ensures
        forall|i: int, j: int| 0 <= i < j < s.len() ==> (#[trigger] s[i]).start <= (#[trigger] s[j]).start,
        forall|i: int, j: int|
            0 <= i < j < s.len() && (#[trigger] s[i]).start == (#[trigger] s[j]).start ==> s[i].end <= s[j].end,
{
    assert forall|i: int, j: int| 0 <= i < j < s.len() implies (#[trigger] s[i]).start <= (#[trigger] s[j]).start
        && (s[i].start == s[j].start ==> s[i].end <= s[j].end) by {
        assert(!day_lt(s[j], s[i]));
    }
}

/// The week view draws blocks earliest first: none starts before one drawn
/// ahead of it.
pub proof fn blocks_are_drawn_earliest_first(s: Seq<BlockView>)
    requires
        in_draw_order(s),
    ensures
        forall|i: int, j: int| 0 <= i < j < s.len() ==> (#[trigger] s[i]).start <= (#[trigger] s[j]).start,
{
    assert forall|i: int, j: int| 0 <= i < j < s.len() implies (#[trigger] s[i]).start <= (#[trigger] s[j]).start by {
        assert(!block_lt(s[j], s[i]));
    }
}

pub fn in_day_order_of(blocks: Vec<CalEvent>) -> (r: Vec<CalEvent>)
    ensures
        in_day_order(views(r@)),
        views(r@).to_multiset() == views(blocks@).to_multiset(),
{
    let mut rest = blocks;
    let mut out: Vec<CalEvent> = Vec::new();
    while rest.len() > 0
        invariant
            in_day_order(views(out@)),
            views(out@).to_multiset().add(views(rest@).to_multiset()) == views(blocks@).to_multiset(),
        decreases rest@.len(),
    {
        let ghost old_rest = rest@;
        let ghost old_out = out@;
        let b = rest.pop().unwrap();
        assert(views(old_rest) =~= views(rest@).push(b@));
        let mut pos: usize = 0;
        while pos < out.len() && day_below(&out[pos], &b)
            invariant
                pos <= out@.len(),
                out@ == old_out,
                forall|k: int| 0 <= k < pos ==> day_lt(#[trigger] out@[k]@, b@),
            decreases out@.len() - pos,
        {
            pos = pos + 1;
        }
        proof {
            lemma_insert_keeps_day_order(out@, pos as int, b);
            assert(views(out@.insert(pos as int, b)) =~= views(out@).insert(pos as int, b@));
            lemma_insert_multiset(views(out@), pos as int, b@);
        }
        out.insert(pos, b);
        proof {
            assert(views(out@).to_multiset() =~= views(old_out).to_multiset().insert(b@));
            assert(views(old_rest).to_multiset() =~= views(rest@).to_multiset().insert(b@));
            assert(views(out@).to_multiset().add(views(rest@).to_multiset()) =~= views(old_out).to_multiset().add(
                views(old_rest).to_multiset(),
            ));
        }
    }
    assert(views(rest@).to_multiset() =~= Multiset::empty());
    assert(views(out@).to_multiset().add(views(rest@).to_multiset()) =~= views(out@).to_multiset());
    out
}

} // verus!
