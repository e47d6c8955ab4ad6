//! The calendar half of the vault: `calendar/YYYY-MM.ics`, one file per month.
//!
//! An event lives in the shard its start falls in, read in the local zone. A
//! move across a month boundary writes the destination before rewriting the
//! source, so a crash in between leaves one UID in two shards; the rules here
//! decide which copy counts.
//!
//! Instants are nanoseconds since the Unix epoch.

pub mod blocks;
pub mod ics;
pub mod store;

use vstd::prelude::*;

use crate::calendar::blocks::{block_end, block_key, block_of, blocks_for, overlaps, BlockView, Vevent};
use crate::calendar::store::{push_signed_padded, signed_padded, YearMonth};
use crate::error::AppError;
use crate::text::{push_char, push_digits, push_wide_digits, seq_lt, str_eq, str_lt, zero_padded, push_zero_padded, digits, lemma_seq_lt_irreflexive, lemma_seq_lt_total, lemma_seq_lt_transitive};

verus! {

/// One block on the grid.
#[derive(Debug, Clone, PartialEq, Eq)]
pub struct CalEvent {
    /// Unique among the blocks of one query. For a repeating event this is
    /// the UID plus the occurrence's start.
    pub id: String,
    /// The VEVENT's UID, and the handle every edit is addressed by. Empty when
    /// the VEVENT had none, which makes the block read-only.
    pub uid: String,
    pub summary: String,
    pub start: i128,
    pub end: i128,
    /// Produced by an RRULE or RDATE: read-only.
    pub recurring: bool,
    /// A DATE-valued event, drawn above the grid.
    pub all_day: bool,
}

/// The fields a drag can change.
#[derive(Debug, Clone, PartialEq, Eq)]
pub struct EventDraft {
    pub summary: String,
    pub start: i128,
    pub end: i128,
}

/// An event has to end after it starts.
pub fn check(draft: &EventDraft) -> (r: Result<(), AppError>)
    ensures
        draft.end <= draft.start ==> r == Err::<(), AppError>(AppError::BackwardsEvent),
        draft.end > draft.start ==> r is Ok,
{
    if draft.end <= draft.start {
        return Err(AppError::BackwardsEvent);
    }
    Ok(())
}

/// The block a freshly written one-off event is drawn as: created or
/// updated events are never recurring and never all-day.
pub fn written_block(uid: &str, draft: &EventDraft) -> (r: CalEvent)
    ensures
        r.id@ == uid@,
        r.uid@ == uid@,
        r.summary@ == draft.summary@,
        r.start == draft.start,
        r.end == draft.end,
        !r.recurring,
        !r.all_day,
{
    CalEvent {
        id: uid.to_owned(),
        uid: uid.to_owned(),
        summary: draft.summary.clone(),
        start: draft.start,
        end: draft.end,
        recurring: false,
        all_day: false,
    }
}

/// A VEVENT holding what a create or an edit writes (the draft's summary
/// and times under a non-empty UID, one-off and timed) is drawn as exactly
/// the block [`written_block`] reports, in every window it overlaps, and not
/// at all in a window it does not; whatever a recurrence search would have
/// yielded plays no part.
pub proof fn a_written_event_is_drawn_as_reported(
    ev: Vevent,
    draft: EventDraft,
    reported: CalEvent,
    fallback: Seq<char>,
    from: int,
    to: int,
    expansion: Option<Seq<i128>>,
)
    requires
        ev.uid@.len() > 0,
        draft.end > draft.start,
        ev.summary@ == draft.summary@,
        ev.start == Some(draft.start),
        ev.end == Some(draft.end),
        !ev.all_day,
        !ev.recurring,
        reported.id@ == ev.uid@,
        reported.uid@ == ev.uid@,
        reported.summary@ == draft.summary@,
        reported.start == draft.start,
        reported.end == draft.end,
        !reported.recurring,
        !reported.all_day,
    ensures
        blocks_for(ev, fallback, from, to, expansion) == if overlaps(draft.start as int, draft.end as int, from, to) {
            seq![reported@]
        } else {
            Seq::<BlockView>::empty()
        },
{
    let s = draft.start as int;
    assert(block_end(s, ev.end, ev.all_day) == draft.end as int);
    assert(block_key(ev.uid@, fallback) == ev.uid@);
    if overlaps(s, draft.end as int, from, to) {
        assert(block_of(ev, ev.uid@, s, draft.end as int, false) == reported@);
    }
}

/// How good a claim one copy of a UID has to being the copy: its revision
/// (SEQUENCE, then LAST-MODIFIED or DTSTAMP), then whether it sits in the
/// shard its own start belongs to.
#[derive(Debug, Clone, Copy, PartialEq, Eq, Structural)]
pub struct Rank {
    pub sequence: u32,
    pub revised: Option<i128>,
    pub at_home: bool,
}

pub open spec fn opt_lt(a: Option<i128>, b: Option<i128>) -> bool {
    match (a, b) {
        (None, Some(_)) => true,
        (Some(x), Some(y)) => x < y,
        _ => false,
    }
}

/// The order of `((sequence, revised), at_home)` tuples: lexicographic, with
/// no date below any date and `false` below `true`.
pub open spec fn rank_lt(a: Rank, b: Rank) -> bool {
    a.sequence < b.sequence || (a.sequence == b.sequence && (opt_lt(a.revised, b.revised) || (
    a.revised == b.revised && !a.at_home && b.at_home)))
}

pub fn rank_below(a: &Rank, b: &Rank) -> (r: bool)
    ensures
        r == rank_lt(*a, *b),
{
    if a.sequence != b.sequence {
        return a.sequence < b.sequence;
    }
    match (a.revised, b.revised) {
        (None, Some(_)) => true,
        (Some(_), None) => false,
        (Some(x), Some(y)) if x != y => x < y,
        _ => !a.at_home && b.at_home,
    }
}

pub proof fn lemma_rank_order(a: Rank, b: Rank, c: Rank)
    ensures
        !rank_lt(a, a),
        rank_lt(a, b) ==> !rank_lt(b, a),
        a != b ==> rank_lt(a, b) || rank_lt(b, a),
        rank_lt(a, b) && rank_lt(b, c) ==> rank_lt(a, c),
{
}

/// One VEVENT found in a shard: where it is, its UID (empty when it has
/// none), and its rank.
#[derive(Debug, Clone, PartialEq, Eq)]
pub struct Found {
    pub shard: YearMonth,
    pub index: usize,
    pub uid: String,
    pub rank: Rank,
    /// It carries an RRULE or RDATE.
    pub recurring: bool,
}

/// The VEVENT chosen to be drawn, with the fallback key it is rendered under
/// when it has no UID.
#[derive(Debug, Clone, PartialEq, Eq)]
pub struct Chosen {
    pub key: String,
    /// Position of the chosen VEVENT among the copies handed in.
    pub copy: usize,
}

/// `YYYY-MM#index`: where a VEVENT sits, as a stable name for one that has no
/// UID.
pub open spec fn copy_key(shard: YearMonth, index: nat) -> Seq<char> {
    signed_padded(shard.year as int, 4) + seq!['-'] + zero_padded(shard.month as nat, 2) + seq!['#']
        + digits(index)
}

pub fn format_copy_key(shard: YearMonth, index: usize) -> (r: String)
    ensures
        r@ == copy_key(shard, index as nat),
{
    let mut out = String::new();
    push_signed_padded(&mut out, shard.year, 4);
    push_char(&mut out, '-');
    push_zero_padded(&mut out, shard.month as u64, 2);
    push_char(&mut out, '#');
    push_digits(&mut out, index as u64);
    assert(out@ =~= copy_key(shard, index as nat));
    out
}

/// `c` stands for its UID among the first `n` copies: none of those with
/// that UID outranks it, and every earlier one ranks strictly below it.
pub open spec fn wins_in(copies: Seq<Found>, c: int, n: int) -> bool {
    &&& 0 <= c < n <= copies.len()
    &&& forall|j: int|
        0 <= j < n && #[trigger] copies[j].uid@ == copies[c].uid@ ==> !rank_lt(
            copies[c].rank,
            copies[j].rank,
        ) && (j < c ==> rank_lt(copies[j].rank, copies[c].rank))
}

/// `c` is the copy that stands for its UID: no copy with that UID outranks
/// it, and every earlier one ranks strictly below it. Ties go to the copy
/// found first, which is the oldest shard.
pub open spec fn wins(copies: Seq<Found>, c: int) -> bool {
    wins_in(copies, c, copies.len() as int)
}

/// The positions of the copies that have no UID, in order.
pub open spec fn anonymous(copies: Seq<Found>) -> Seq<int>
    decreases copies.len(),
{
    if copies.len() == 0 {
        Seq::empty()
    } else if copies.last().uid@.len() == 0 {
        anonymous(copies.drop_last()).push(copies.len() - 1)
    } else {
        anonymous(copies.drop_last())
    }
}

/// The copies chosen to stand for their UIDs, as positions.
pub open spec fn chosen_copies(out: Seq<Chosen>, k: int) -> Seq<usize> {
    out.take(k).map_values(|c: Chosen| c.copy)
}

/// What the week view draws of the VEVENTs found: one copy per UID, the one
/// that wins, ordered by UID; then every VEVENT without a UID, in the order
/// found. Each goes under the key of the place it was found.
pub open spec fn canonical_spec(copies: Seq<Found>, out: Seq<Chosen>) -> bool {
    let anon = anonymous(copies);
    let k = out.len() - anon.len();
    &&& 0 <= k
    &&& winners_ok(copies, chosen_copies(out, k), copies.len() as int)
    &&& forall|a: int| 0 <= a < anon.len() ==> #[trigger] out[k + a].copy == anon[a]
    &&& forall|p: int|
        0 <= p < out.len() ==> (#[trigger] out[p]).key@ == copy_key(
            copies[out[p].copy as int].shard,
            copies[out[p].copy as int].index as nat,
        )
}

proof fn lemma_anonymous_bound(copies: Seq<Found>)
    ensures
        forall|a: int| 0 <= a < anonymous(copies).len() ==> 0 <= #[trigger] anonymous(copies)[a] < copies.len()
            && copies[anonymous(copies)[a]].uid@.len() == 0,
        anonymous(copies).len() <= copies.len(),
    decreases copies.len(),
{
    if copies.len() > 0 {
        lemma_anonymous_bound(copies.drop_last());
        let prev = anonymous(copies.drop_last());
        assert forall|a: int| 0 <= a < prev.len() implies copies[#[trigger] prev[a]] == copies.drop_last()[prev[a]] by {}
    }
}

/// The UIDs of the copies at the positions in `w`.
pub open spec fn uid_keys(copies: Seq<Found>, w: Seq<usize>) -> Seq<Seq<char>> {
    w.map_values(|c: usize| copies[c as int].uid@)
}

/// Each key sorts strictly before every later one.
pub open spec fn strictly_sorted(ks: Seq<Seq<char>>) -> bool {
    forall|p: int, q: int| 0 <= p < q < ks.len() ==> seq_lt(#[trigger] ks[p], #[trigger] ks[q])
}

/// Every position in `w` holds a copy with a UID that wins among the first
/// `n` copies.
pub open spec fn all_win(copies: Seq<Found>, w: Seq<usize>, n: int) -> bool {
    forall|p: int|
        0 <= p < w.len() ==> {
            let c = #[trigger] w[p] as int;
            &&& copies[c].uid@.len() > 0
            &&& wins_in(copies, c, n)
        }
}

/// Every UID among the first `n` copies is one of `ks`.
pub open spec fn covers(copies: Seq<Found>, ks: Seq<Seq<char>>, n: int) -> bool {
    forall|j: int| 0 <= j < n && copies[j].uid@.len() > 0 ==> ks.contains(#[trigger] copies[j].uid@)
}

/// `w` lists, in UID order, one winning copy for every UID among the first
/// `n` copies.
pub open spec fn winners_ok(copies: Seq<Found>, w: Seq<usize>, n: int) -> bool {
    &&& 0 <= n <= copies.len()
    &&& all_win(copies, w, n)
    &&& strictly_sorted(uid_keys(copies, w))
    &&& covers(copies, uid_keys(copies, w), n)
}

/// A winner stays one past a copy with another UID.
proof fn lemma_wins_past_other(copies: Seq<Found>, c: int, n: int)
    requires
        wins_in(copies, c, n),
        n < copies.len(),
        copies[n].uid@ != copies[c].uid@,
    ensures
        wins_in(copies, c, n + 1),
{
}

/// A winner stays one past a copy of its UID that does not outrank it.
proof fn lemma_wins_past_lesser(copies: Seq<Found>, c: int, n: int)
    requires
        wins_in(copies, c, n),
        n < copies.len(),
        copies[n].uid@ == copies[c].uid@,
        !rank_lt(copies[c].rank, copies[n].rank),
    ensures
        wins_in(copies, c, n + 1),
{
}

/// A copy that outranks the winner of its UID wins in its place.
proof fn lemma_wins_takeover(copies: Seq<Found>, c: int, n: int)
    requires
        wins_in(copies, c, n),
        n < copies.len(),
        copies[n].uid@ == copies[c].uid@,
        rank_lt(copies[c].rank, copies[n].rank),
    ensures
        wins_in(copies, n, n + 1),
{
    assert forall|j: int| 0 <= j < n + 1 && #[trigger] copies[j].uid@ == copies[n].uid@ implies !rank_lt(
        copies[n].rank,
        copies[j].rank,
    ) && (j < n ==> rank_lt(copies[j].rank, copies[n].rank)) by {
        lemma_rank_order(copies[j].rank, copies[c].rank, copies[n].rank);
        lemma_rank_order(copies[n].rank, copies[j].rank, copies[n].rank);
        lemma_rank_order(copies[c].rank, copies[j].rank, copies[n].rank);
    }
}

/// A copy whose UID no earlier copy has wins at once.
proof fn lemma_wins_first(copies: Seq<Found>, n: int)
    requires
        0 <= n < copies.len(),
        forall|j: int| 0 <= j < n ==> #[trigger] copies[j].uid@ != copies[n].uid@,
    ensures
        wins_in(copies, n, n + 1),
{
    lemma_rank_order(copies[n].rank, copies[n].rank, copies[n].rank);
}

proof fn lemma_keys_distinct(ks: Seq<Seq<char>>, p: int, q: int)
    requires
        strictly_sorted(ks),
        0 <= p < ks.len(),
        0 <= q < ks.len(),
        p != q,
    ensures
        ks[p] != ks[q],
{
    lemma_seq_lt_irreflexive(ks[p]);
    if p < q {
        assert(seq_lt(ks[p], ks[q]));
    } else {
        assert(seq_lt(ks[q], ks[p]));
    }
}

proof fn lemma_sorted_insert(ks: Seq<Seq<char>>, pos: int, u: Seq<char>)
    requires
        strictly_sorted(ks),
        0 <= pos <= ks.len(),
        forall|p: int| 0 <= p < pos ==> seq_lt(#[trigger] ks[p], u),
        forall|p: int| pos <= p < ks.len() ==> seq_lt(u, #[trigger] ks[p]),
    ensures
        strictly_sorted(ks.insert(pos, u)),
{
    let nk = ks.insert(pos, u);
    assert forall|p: int, q: int| 0 <= p < q < nk.len() implies seq_lt(#[trigger] nk[p], #[trigger] nk[q]) by {
        if q < pos {
            assert(nk[p] == ks[p] && nk[q] == ks[q]);
        } else if q == pos {
            assert(nk[p] == ks[p]);
        } else if p < pos {
            assert(nk[p] == ks[p] && nk[q] == ks[q - 1]);
            lemma_seq_lt_transitive(ks[p], u, ks[q - 1]);
        } else if p == pos {
            assert(nk[q] == ks[q - 1]);
        } else {
            assert(nk[p] == ks[p - 1] && nk[q] == ks[q - 1]);
        }
    }
}

proof fn lemma_skip_anonymous(copies: Seq<Found>, w: Seq<usize>, i: int)
    requires
        winners_ok(copies, w, i),
        i < copies.len(),
        copies[i].uid@.len() == 0,
    ensures
        winners_ok(copies, w, i + 1),
{
    let ks = uid_keys(copies, w);
    assert forall|p: int| 0 <= p < w.len() implies wins_in(copies, #[trigger] w[p] as int, i + 1) by {
        lemma_wins_past_other(copies, w[p] as int, i);
    }
}

/// Found `i` takes over from the winner at `pos`, which it outranks.
proof fn lemma_replace(copies: Seq<Found>, w: Seq<usize>, i: usize, pos: int)
    requires
        winners_ok(copies, w, i as int),
        i < copies.len(),
        0 <= pos < w.len(),
        copies[w[pos] as int].uid@ == copies[i as int].uid@,
        rank_lt(copies[w[pos] as int].rank, copies[i as int].rank),
    ensures
        winners_ok(copies, w.update(pos, i), i + 1),
{
    let ks = uid_keys(copies, w);
    let nw = w.update(pos, i);
    assert(uid_keys(copies, nw) =~= ks);
    assert forall|p: int| 0 <= p < nw.len() implies {
        let c = #[trigger] nw[p] as int;
        &&& copies[c].uid@.len() > 0
        &&& wins_in(copies, c, i + 1)
    } by {
        if p == pos {
            lemma_wins_takeover(copies, w[pos] as int, i as int);
        } else {
            assert(nw[p] == w[p]);
            assert(ks[p] == copies[w[p] as int].uid@);
            assert(ks[pos] == copies[w[pos] as int].uid@);
            lemma_keys_distinct(ks, p, pos);
            lemma_wins_past_other(copies, w[p] as int, i as int);
        }
    }
    assert forall|j: int| 0 <= j < i + 1 && copies[j].uid@.len() > 0 implies ks.contains(
        #[trigger] copies[j].uid@,
    ) by {
        if j == i {
            assert(ks[pos] == copies[j].uid@);
        }
    }
}

/// Found `i` does not outrank the winner at `pos`, which keeps its place.
proof fn lemma_keep(copies: Seq<Found>, w: Seq<usize>, i: usize, pos: int)
    requires
        winners_ok(copies, w, i as int),
        i < copies.len(),
        0 <= pos < w.len(),
        copies[w[pos] as int].uid@ == copies[i as int].uid@,
        !rank_lt(copies[w[pos] as int].rank, copies[i as int].rank),
    ensures
        winners_ok(copies, w, i + 1),
{
    let ks = uid_keys(copies, w);
    assert forall|p: int| 0 <= p < w.len() implies wins_in(copies, #[trigger] w[p] as int, i + 1) by {
        if p == pos {
            lemma_wins_past_lesser(copies, w[p] as int, i as int);
        } else {
            assert(ks[p] == copies[w[p] as int].uid@);
            assert(ks[pos] == copies[w[pos] as int].uid@);
            lemma_keys_distinct(ks, p, pos);
            lemma_wins_past_other(copies, w[p] as int, i as int);
        }
    }
    assert forall|j: int| 0 <= j < i + 1 && copies[j].uid@.len() > 0 implies ks.contains(
        #[trigger] copies[j].uid@,
    ) by {
        if j == i {
            assert(ks[pos] == copies[j].uid@);
        }
    }
}

/// Found `i` has a UID no earlier copy has, and goes in at `pos`, the place
/// its UID sorts to.
proof fn lemma_insert(copies: Seq<Found>, w: Seq<usize>, i: usize, pos: int)
    requires
        winners_ok(copies, w, i as int),
        i < copies.len(),
        copies[i as int].uid@.len() > 0,
        0 <= pos <= w.len(),
        forall|p: int| 0 <= p < pos ==> seq_lt(copies[#[trigger] w[p] as int].uid@, copies[i as int].uid@),
        pos < w.len() ==> !seq_lt(copies[w[pos] as int].uid@, copies[i as int].uid@)
            && copies[w[pos] as int].uid@ != copies[i as int].uid@,
    ensures
        winners_ok(copies, w.insert(pos, i), i + 1),
{
    let u = copies[i as int].uid@;
    let ks = uid_keys(copies, w);
    let nw = w.insert(pos, i);
    assert forall|p: int| 0 <= p < pos implies seq_lt(#[trigger] ks[p], u) by {
        assert(ks[p] == copies[w[p] as int].uid@);
    }
    if pos < w.len() {
        lemma_seq_lt_total(ks[pos], u);
    }
    assert forall|p: int| pos <= p < ks.len() implies seq_lt(u, #[trigger] ks[p]) by {
        if p > pos {
            lemma_seq_lt_transitive(u, ks[pos], ks[p]);
        }
    }
    lemma_sorted_insert(ks, pos, u);
    assert(uid_keys(copies, nw) =~= ks.insert(pos, u));
    assert forall|p: int| 0 <= p < ks.len() implies #[trigger] ks[p] != u by {
        lemma_seq_lt_irreflexive(u);
    }
    assert forall|j: int| 0 <= j < i implies #[trigger] copies[j].uid@ != u by {
        if copies[j].uid@ == u {
            assert(ks.contains(u));
        }
    }
    lemma_wins_first(copies, i as int);
    assert forall|p: int| 0 <= p < nw.len() implies {
        let c = #[trigger] nw[p] as int;
        &&& copies[c].uid@.len() > 0
        &&& wins_in(copies, c, i + 1)
    } by {
        if p != pos {
            let q = if p < pos { p } else { p - 1 };
            assert(nw[p] == w[q]);
            assert(ks[q] == copies[w[q] as int].uid@);
            lemma_wins_past_other(copies, w[q] as int, i as int);
        }
    }
    let nks = uid_keys(copies, nw);
    assert forall|j: int| 0 <= j < i + 1 && copies[j].uid@.len() > 0 implies nks.contains(
        #[trigger] copies[j].uid@,
    ) by {
        if j == i {
            assert(nks[pos] == u);
        } else {
            let q = choose|q: int| 0 <= q < ks.len() && ks[q] == copies[j].uid@;
            if q < pos {
                assert(nks[q] == ks[q]);
            } else {
                assert(nks[q + 1] == ks[q]);
            }
        }
    }
}

/// Account for copy `i`, which has a UID.
fn upsert(copies: &Vec<Found>, winners: &mut Vec<usize>, i: usize)
    requires
        winners_ok(copies@, old(winners)@, i as int),
        i < copies@.len(),
        copies@[i as int].uid@.len() > 0,
    ensures
        winners_ok(copies@, final(winners)@, i + 1),
{
    let cur = &copies[i];
    let mut pos: usize = 0;
    while pos < winners.len() && str_lt(copies[winners[pos]].uid.as_str(), cur.uid.as_str())
        invariant
            pos <= winners@.len(),
            winners_ok(copies@, winners@, i as int),
            i < copies@.len(),
            cur == copies@[i as int],
            forall|p: int| 0 <= p < pos ==> seq_lt(copies@[#[trigger] winners@[p] as int].uid@, cur.uid@),
        decreases winners@.len() - pos,
    {
        pos = pos + 1;
    }
    if pos < winners.len() && copies[winners[pos]].uid == cur.uid {
        let e = winners[pos];
        if rank_below(&copies[e].rank, &cur.rank) {
            proof {
                lemma_replace(copies@, winners@, i, pos as int);
            }
            winners.set(pos, i);
        } else {
            proof {
                lemma_keep(copies@, winners@, i, pos as int);
            }
        }
    } else {
        proof {
            lemma_insert(copies@, winners@, i, pos as int);
        }
        winners.insert(pos, i);
    }
}

/// The positions of the copies without a UID.
fn anonymous_positions(copies: &Vec<Found>) -> (r: Vec<usize>)
    ensures
        r@.len() == anonymous(copies@).len(),
        forall|a: int| 0 <= a < r@.len() ==> #[trigger] r@[a] as int == anonymous(copies@)[a],
{
    let mut out: Vec<usize> = Vec::new();
    let mut i: usize = 0;
    while i < copies.len()
        invariant
            i <= copies@.len(),
            out@.len() == anonymous(copies@.subrange(0, i as int)).len(),
            forall|a: int| 0 <= a < out@.len() ==> #[trigger] out@[a] as int == anonymous(copies@.subrange(0, i as int))[a],
        decreases copies@.len() - i,
    {
        assert(copies@.subrange(0, i + 1).drop_last() =~= copies@.subrange(0, i as int));
        if copies[i].uid.as_str().is_empty() {
            out.push(i);
        }
        i = i + 1;
    }
    assert(copies@.subrange(0, i as int) =~= copies@);
    out
}

/// One VEVENT per UID, the copy that wins, in UID order; then every VEVENT
/// without a UID, each under its own key.
pub fn canonical(copies: &Vec<Found>) -> (r: Vec<Chosen>)
    ensures
        canonical_spec(copies@, r@),
        forall|p: int| 0 <= p < r@.len() ==> (#[trigger] r@[p]).copy < copies@.len(),
{
    let n = copies.len();
    let mut winners: Vec<usize> = Vec::new();
    let mut i: usize = 0;
    while i < n
        invariant
            n == copies@.len(),
            i <= n,
            winners_ok(copies@, winners@, i as int),
        decreases n - i,
    {
        if copies[i].uid.as_str().is_empty() {
            proof {
                lemma_skip_anonymous(copies@, winners@, i as int);
            }
        } else {
            upsert(copies, &mut winners, i);
        }
        i = i + 1;
    }
    let anon = anonymous_positions(copies);
    proof {
        lemma_anonymous_bound(copies@);
    }
    let mut out: Vec<Chosen> = Vec::new();
    let mut p: usize = 0;
    while p < winners.len()
        invariant
            n == copies@.len(),
            winners_ok(copies@, winners@, n as int),
            p <= winners@.len(),
            out@.len() == p,
            forall|q: int|
                0 <= q < p ==> {
                    &&& (#[trigger] out@[q]).copy == winners@[q]
                    &&& out@[q].key@ == copy_key(copies@[winners@[q] as int].shard, copies@[winners@[q] as int].index as nat)
                },
        decreases winners@.len() - p,
    {
        let c = winners[p];
        let key = format_copy_key(copies[c].shard, copies[c].index);
        out.push(Chosen { key, copy: c });
        p = p + 1;
    }
    let k = out.len();
    let ghost wout = out@;
    let mut a: usize = 0;
    while a < anon.len()
        invariant
            n == copies@.len(),
            k == winners@.len(),
            a <= anon@.len(),
            out@.len() == k + a,
            anon@.len() == anonymous(copies@).len(),
            forall|b: int| 0 <= b < anon@.len() ==> #[trigger] anon@[b] as int == anonymous(copies@)[b],
            forall|b: int| 0 <= b < anonymous(copies@).len() ==> 0 <= #[trigger] anonymous(copies@)[b] < copies@.len(),
            wout.len() == k,
            forall|q: int| 0 <= q < k ==> #[trigger] out@[q] == wout[q],
            forall|q: int|
                0 <= q < k ==> {
                    &&& (#[trigger] wout[q]).copy == winners@[q]
                    &&& wout[q].key@ == copy_key(copies@[winners@[q] as int].shard, copies@[winners@[q] as int].index as nat)
                },
            forall|b: int|
                0 <= b < a ==> {
                    &&& (#[trigger] out@[k + b]).copy == anon@[b]
                    &&& out@[k + b].key@ == copy_key(copies@[anon@[b] as int].shard, copies@[anon@[b] as int].index as nat)
                },
        decreases anon@.len() - a,
    {
        let c = anon[a];
        let key = format_copy_key(copies[c].shard, copies[c].index);
        out.push(Chosen { key, copy: c });
        a = a + 1;
    }
    proof {
        assert(chosen_copies(out@, k as int) =~= winners@) by {
            assert forall|q: int| 0 <= q < k implies #[trigger] chosen_copies(out@, k as int)[q] == winners@[q] by {
                assert(out@[q] == wout[q]);
            }
        }
        assert forall|p: int| 0 <= p < out@.len() implies (#[trigger] out@[p]).key@ == copy_key(
            copies@[out@[p].copy as int].shard,
            copies@[out@[p].copy as int].index as nat,
        ) by {
            if p < k {
                assert(out@[p] == wout[p]);
            } else {
                assert(out@[k + (p - k)] == out@[p]);
            }
        }
        assert forall|b: int| 0 <= b < anon@.len() implies #[trigger] out@[k + b].copy == anonymous(copies@)[b] by {
            assert(out@[k + b].copy == anon@[b]);
        }
        assert forall|p: int| 0 <= p < out@.len() implies (#[trigger] out@[p]).copy < copies@.len() by {
            if p < k {
                assert(out@[p] == wout[p]);
                assert(wins_in(copies@, winners@[p] as int, n as int));
            } else {
                assert(out@[k + (p - k)] == out@[p]);
            }
        }
    }
    out
}

/// `j` is the first copy of `uid` in its shard: the one an edit looks at
/// there.
pub open spec fn first_in_shard(copies: Seq<Found>, uid: Seq<char>, j: int) -> bool {
    &&& 0 <= j < copies.len()
    &&& copies[j].uid@ == uid
    &&& forall|k: int| 0 <= k < j && copies[k].shard == copies[j].shard ==> #[trigger] copies[k].uid@ != uid
}

/// `c` is the copy of `uid` that an edit is addressed to, judged among the
/// first `n` copies: the first copy in its shard, outranked by no other such
/// copy, and strictly above every earlier one.
pub open spec fn located_in(copies: Seq<Found>, uid: Seq<char>, c: int, n: int) -> bool {
    &&& c < n <= copies.len()
    &&& first_in_shard(copies, uid, c)
    &&& forall|j: int|
        #![trigger first_in_shard(copies, uid, j)]
        j < n && first_in_shard(copies, uid, j) ==> !rank_lt(copies[c].rank, copies[j].rank) && (j < c
            ==> rank_lt(copies[j].rank, copies[c].rank))
}

pub open spec fn located(copies: Seq<Found>, uid: Seq<char>, c: int) -> bool {
    located_in(copies, uid, c, copies.len() as int)
}

/// No copy carries `uid`.
pub open spec fn absent(copies: Seq<Found>, uid: Seq<char>) -> bool {
    forall|j: int| 0 <= j < copies.len() ==> #[trigger] copies[j].uid@ != uid
}

fn is_first_in_shard(copies: &Vec<Found>, j: usize) -> (r: bool)
    requires
        j < copies@.len(),
    ensures
        r == first_in_shard(copies@, copies@[j as int].uid@, j as int),
{
    let mut k: usize = 0;
    while k < j
        invariant
            j < copies@.len(),
            k <= j,
            forall|m: int|
                0 <= m < k && copies@[m].shard == copies@[j as int].shard ==> #[trigger] copies@[m].uid@
                    != copies@[j as int].uid@,
        decreases j - k,
    {
        if copies[k].shard == copies[j].shard && copies[k].uid == copies[j].uid {
            return false;
        }
        k = k + 1;
    }
    true
}

/// The copy of `uid` an edit lands on: among the first copy of it in each
/// shard, the highest ranked, the oldest shard winning a tie.
pub fn locate(copies: &Vec<Found>, uid: &str) -> (r: Option<usize>)
    ensures
        match r {
            Some(c) => uid@.len() > 0 && located(copies@, uid@, c as int),
            None => uid@.len() == 0 || absent(copies@, uid@),
        },
{
    if uid.is_empty() {
        return None;
    }
    let mut best: Option<usize> = None;
    let mut j: usize = 0;
    while j < copies.len()
        invariant
            j <= copies@.len(),
            uid@.len() > 0,
            match best {
                Some(c) => located_in(copies@, uid@, c as int, j as int),
                None => forall|k: int| 0 <= k < j ==> #[trigger] copies@[k].uid@ != uid@,
            },
        decreases copies@.len() - j,
    {
        if str_eq(copies[j].uid.as_str(), uid) && is_first_in_shard(copies, j) {
            match best {
                None => {
                    best = Some(j);
                    proof {
                        lemma_rank_order(copies@[j as int].rank, copies@[j as int].rank, copies@[j as int].rank);
                    }
                },
                Some(c) => {
                    if rank_below(&copies[c].rank, &copies[j].rank) {
                        proof {
                            assert forall|m: int|
                                #![trigger first_in_shard(copies@, uid@, m)]
                                m < j + 1 && first_in_shard(copies@, uid@, m) implies !rank_lt(
                                copies@[j as int].rank,
                                copies@[m].rank,
                            ) && (m < j ==> rank_lt(copies@[m].rank, copies@[j as int].rank)) by {
                                lemma_rank_order(copies@[m].rank, copies@[c as int].rank, copies@[j as int].rank);
                                lemma_rank_order(copies@[j as int].rank, copies@[m].rank, copies@[j as int].rank);
                                lemma_rank_order(copies@[c as int].rank, copies@[m].rank, copies@[j as int].rank);
                            }
                        }
                        best = Some(j);
                    }
                },
            }
        } else {
            proof {
                if copies@[j as int].uid@ == uid@ {
                    assert(!first_in_shard(copies@, uid@, j as int));
                }
            }
        }
        j = j + 1;
    }
    best
}

/// No shard holds two copies of one UID.
pub open spec fn one_copy_per_shard(copies: Seq<Found>) -> bool {
    forall|j: int, k: int|
        #![trigger copies[j], copies[k]]
        0 <= j < k < copies.len() && copies[j].uid@ == copies[k].uid@ ==> copies[j].shard != copies[k].shard
}

/// Two copies that both win for one UID are the same copy.
pub proof fn lemma_one_winner(copies: Seq<Found>, c: int, d: int)
    requires
        wins(copies, c),
        wins(copies, d),
        copies[c].uid@ == copies[d].uid@,
    ensures
        c == d,
{
    if c < d {
        assert(copies[c].uid@ == copies[d].uid@);
    } else if d < c {
        assert(copies[d].uid@ == copies[c].uid@);
    }
}

/// An edit lands on the copy the week view was showing: when no shard holds
/// two copies of one UID, the copy `locate` picks for a UID is the one
/// `canonical` draws for it.
pub proof fn an_edit_lands_on_the_copy_shown(copies: Seq<Found>, out: Seq<Chosen>, uid: Seq<char>, c: int)
    requires
        canonical_spec(copies, out),
        uid.len() > 0,
        located(copies, uid, c),
        one_copy_per_shard(copies),
    ensures
        exists|p: int| 0 <= p < out.len() - anonymous(copies).len() && #[trigger] out[p].copy == c,
{
    let k = out.len() - anonymous(copies).len();
    let w = chosen_copies(out, k);
    let ks = uid_keys(copies, w);
    assert forall|j: int| 0 <= j < copies.len() && copies[j].uid@ == uid implies first_in_shard(copies, uid, j) by {
        assert forall|m: int| 0 <= m < j && copies[m].shard == copies[j].shard implies #[trigger] copies[m].uid@ != uid by {
            if copies[m].uid@ == uid {
                assert(copies[m].shard != copies[j].shard);
            }
        }
    }
    assert(wins(copies, c)) by {
        assert forall|j: int|
            0 <= j < copies.len() && #[trigger] copies[j].uid@ == copies[c].uid@ implies !rank_lt(
            copies[c].rank,
            copies[j].rank,
        ) && (j < c ==> rank_lt(copies[j].rank, copies[c].rank)) by {
            assert(first_in_shard(copies, uid, j));
        }
    }
    assert(ks.contains(copies[c].uid@));
    let p = choose|p: int| 0 <= p < ks.len() && ks[p] == copies[c].uid@;
    assert(ks[p] == copies[w[p] as int].uid@);
    assert(wins_in(copies, w[p] as int, copies.len() as int));
    lemma_one_winner(copies, c, w[p] as int);
    assert(out[p].copy == w[p]);
}

/// How an edit that passed its checks is written.
#[derive(Debug, Clone, Copy, PartialEq, Eq, Structural)]
pub enum EditPlan {
    /// Back into its old slot in the shard it sits in, so a file the user
    /// also reads by hand does not shuffle every time a block is nudged.
    InPlace { shard: YearMonth },
    /// Out of `from` and onto the end of `to`, after dropping any stale copy
    /// of the UID there. `to` is written first: a crash between the writes
    /// leaves a copy in each shard, which `canonical` resolves, where the
    /// other order would lose the event.
    Move { from: YearMonth, to: YearMonth },
}

pub open spec fn plan_for(shard: YearMonth, target: YearMonth) -> EditPlan {
    if target == shard {
        EditPlan::InPlace { shard }
    } else {
        EditPlan::Move { from: shard, to: target }
    }
}

/// The decision behind an edit: the draft must run forwards, the UID must
/// be found, and a repeating event is refused; then the copy `locate` picks
/// stays in its shard when the new start (`target`) still falls there, and
/// moves otherwise.
pub fn plan_update(copies: &Vec<Found>, uid: &str, draft: &EventDraft, target: YearMonth) -> (r: Result<
    (usize, EditPlan),
    AppError,
>)
    ensures
        draft.end <= draft.start ==> r == Err::<(usize, EditPlan), AppError>(AppError::BackwardsEvent),
        draft.end > draft.start ==> match r {
            Err(AppError::EventNotFound(s)) => s@ == uid@ && (uid@.len() == 0 || absent(copies@, uid@)),
            Err(AppError::RecurringNotEditable) => uid@.len() > 0 && exists|c: int|
                located(copies@, uid@, c) && #[trigger] copies@[c].recurring,
            Ok((c, plan)) => uid@.len() > 0 && located(copies@, uid@, c as int) && !copies@[c as int].recurring
                && plan == plan_for(copies@[c as int].shard, target),
            _ => false,
        },
{
    match check(draft) {
        Err(e) => return Err(e),
        Ok(()) => {},
    }
    match locate(copies, uid) {
        None => Err(AppError::EventNotFound(uid.to_owned())),
        Some(c) => {
            if copies[c].recurring {
                return Err(AppError::RecurringNotEditable);
            }
            let shard = copies[c].shard;
            if target == shard {
                Ok((c, EditPlan::InPlace { shard }))
            } else {
                Ok((c, EditPlan::Move { from: shard, to: target }))
            }
        },
    }
}

/// The shards that hold a copy of `uid`, each once, in the order first met.
pub open spec fn holding_shards(copies: Seq<Found>, uid: Seq<char>) -> Seq<YearMonth>
    decreases copies.len(),
{
    if copies.len() == 0 {
        Seq::empty()
    } else {
        let prev = holding_shards(copies.drop_last(), uid);
        let c = copies.last();
        if c.uid@ == uid && !prev.contains(c.shard) {
            prev.push(c.shard)
        } else {
            prev
        }
    }
}

/// Some copy of `uid` repeats.
pub open spec fn any_recurring(copies: Seq<Found>, uid: Seq<char>) -> bool {
    exists|j: int| 0 <= j < copies.len() && #[trigger] copies[j].uid@ == uid && copies[j].recurring
}

/// The decision behind a delete: every shard that still holds the UID is
/// rewritten without it, not just the one the week view shows, so a copy a
/// crashed move left behind goes too. Decided in full before anything is
/// written, so a refusal never lands half-applied.
pub fn plan_delete(copies: &Vec<Found>, uid: &str) -> (r: Result<Vec<YearMonth>, AppError>)
    ensures
        uid@.len() == 0 || absent(copies@, uid@) ==> (r matches Err(AppError::EventNotFound(s)) && s@ == uid@),
        uid@.len() > 0 && !absent(copies@, uid@) && any_recurring(copies@, uid@) ==> r == Err::<
            Vec<YearMonth>,
            AppError,
        >(AppError::RecurringNotEditable),
        uid@.len() > 0 && !absent(copies@, uid@) && !any_recurring(copies@, uid@) ==> (r matches Ok(v) && v@
            == holding_shards(copies@, uid@)),
{
    if uid.is_empty() {
        return Err(AppError::EventNotFound(uid.to_owned()));
    }
    let mut shards: Vec<YearMonth> = Vec::new();
    let mut found = false;
    let mut j: usize = 0;
    while j < copies.len()
        invariant
            j <= copies@.len(),
            uid@.len() > 0,
            shards@ == holding_shards(copies@.subrange(0, j as int), uid@),
            found <==> exists|k: int| 0 <= k < j && #[trigger] copies@[k].uid@ == uid@,
            forall|k: int| 0 <= k < j && #[trigger] copies@[k].uid@ == uid@ ==> !copies@[k].recurring,
        decreases copies@.len() - j,
    {
        let ghost prefix = copies@.subrange(0, j + 1);
        assert(prefix.drop_last() =~= copies@.subrange(0, j as int));
        if str_eq(copies[j].uid.as_str(), uid) {
            if copies[j].recurring {
                assert(copies@[j as int].uid@ == uid@);
                return Err(AppError::RecurringNotEditable);
            }
            found = true;
            let mut seen = false;
            let mut s: usize = 0;
            while s < shards.len()
                invariant
                    j < copies@.len(),
                    s <= shards@.len(),
                    seen <==> exists|t: int| 0 <= t < s && shards@[t] == copies@[j as int].shard,
                decreases shards@.len() - s,
            {
                if shards[s] == copies[j].shard {
                    seen = true;
                }
                s = s + 1;
            }
            if !seen {
                shards.push(copies[j].shard);
            }
        }
        j = j + 1;
    }
    assert(copies@.subrange(0, j as int) =~= copies@);
    if !found {
        return Err(AppError::EventNotFound(uid.to_owned()));
    }
    Ok(shards)
}

/// `{nanos}-{pid}-{seq}@wabicalendar`: unique enough for a single-user
/// local calendar, and stable once written. It is only ever compared for
/// equality.
pub open spec fn uid_text(nanos: u128, pid: u32, seq: u64) -> Seq<char> {
    digits(nanos as nat) + seq!['-'] + digits(pid as nat) + seq!['-'] + digits(seq as nat) + "@wabicalendar"@
}

/// The UID for a new event, from the wall clock in nanoseconds, this
/// process's id, and a per-process counter.
pub fn new_uid(nanos: u128, pid: u32, seq: u64) -> (r: String)
    ensures
        r@ == uid_text(nanos, pid, seq),
{
    let mut out = String::new();
    push_wide_digits(&mut out, nanos);
    push_char(&mut out, '-');
    push_digits(&mut out, pid as u64);
    push_char(&mut out, '-');
    push_digits(&mut out, seq);
    crate::text::push_str(&mut out, "@wabicalendar");
    out
}

/// No shard is listed twice.
pub proof fn lemma_holding_shards_distinct(copies: Seq<Found>, uid: Seq<char>)
    ensures
        forall|i: int, j: int|
            0 <= i < j < holding_shards(copies, uid).len() ==> #[trigger] holding_shards(copies, uid)[i]
                != #[trigger] holding_shards(copies, uid)[j],
    decreases copies.len(),
{
    if copies.len() > 0 {
        lemma_holding_shards_distinct(copies.drop_last(), uid);
        let prev = holding_shards(copies.drop_last(), uid);
        let c = copies.last();
        if c.uid@ == uid && !prev.contains(c.shard) {
            let cur = prev.push(c.shard);
            assert forall|i: int, j: int| 0 <= i < j < cur.len() implies #[trigger] cur[i] != #[trigger] cur[j] by {
                if j == cur.len() - 1 {
                    assert(cur[i] == prev[i]);
                    assert(prev.contains(prev[i]));
                } else {
                    assert(cur[i] == prev[i] && cur[j] == prev[j]);
                }
            }
        }
    }
}

/// A UID some copy carries has a shard holding it.
pub proof fn lemma_holding_shards_nonempty(copies: Seq<Found>, uid: Seq<char>)
    ensures
        !absent(copies, uid) ==> holding_shards(copies, uid).len() > 0,
    decreases copies.len(),
{
    if copies.len() > 0 {
        lemma_holding_shards_nonempty(copies.drop_last(), uid);
        let prev = holding_shards(copies.drop_last(), uid);
        if !absent(copies, uid) && copies.last().uid@ != uid {
            let j = choose|j: int| 0 <= j < copies.len() && copies[j].uid@ == uid;
            assert(copies.drop_last()[j] == copies[j]);
        }
    }
}

} // verus!
