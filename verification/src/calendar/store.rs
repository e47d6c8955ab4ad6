//! The `calendar/YYYY-MM.ics` shards: which month file is which, and the
//! order they are read in.

use vstd::prelude::*;

use crate::text::{
    lemma_zero_padded, pow10, chars_of, digits_value, is_ascii_digit, push_char, push_str, push_zero_padded, zero_padded,
};

verus! {

/// Which month file an event lives in.
#[derive(Debug, Clone, Copy, PartialEq, Eq, PartialOrd, Ord, Structural)]
pub struct YearMonth {
    pub year: i32,
    pub month: u32,
}

/// Chronological order on months.
pub open spec fn ym_le(a: YearMonth, b: YearMonth) -> bool {
    a.year < b.year || (a.year == b.year && a.month <= b.month)
}

impl YearMonth {
    /// `self` comes after `other`.
    pub fn is_after(&self, other: &YearMonth) -> (r: bool)
        ensures
            r == !ym_le(*self, *other),
    {
        self.year > other.year || (self.year == other.year && self.month > other.month)
    }
}

/// `n` zero-filled to `width` the way `format!("{:0width$}")` does it: the
/// sign, when there is one, counts towards the width.
pub open spec fn signed_padded(n: int, width: nat) -> Seq<char> {
    if n < 0 {
        seq!['-'] + zero_padded((-n) as nat, if width >= 1 {
            (width - 1) as nat
        } else {
            0
        })
    } else {
        zero_padded(n as nat, width)
    }
}

pub fn push_signed_padded(out: &mut String, n: i32, width: usize)
    requires
        width >= 1,
    ensures
        final(out)@ == old(out)@ + signed_padded(n as int, width as nat),
{
    if n < 0 {
        push_char(out, '-');
        let m: u64 = (-(n as i64)) as u64;
        push_zero_padded(out, m, width - 1);
        assert(final(out)@ =~= old(out)@ + signed_padded(n as int, width as nat));
    } else {
        push_zero_padded(out, n as u64, width);
    }
}

pub open spec fn ics_suffix() -> Seq<char> {
    seq!['.', 'i', 'c', 's']
}

/// `YYYY-MM.ics`: the name of a month's shard.
pub open spec fn shard_name(ym: YearMonth) -> Seq<char> {
    signed_padded(ym.year as int, 4) + seq!['-'] + zero_padded(ym.month as nat, 2) + ics_suffix()
}

/// The file name of the shard for `year`/`month`.
pub fn calendar_file_name(year: i32, month: u32) -> (r: String)
    ensures
        r@ == shard_name(YearMonth { year, month }),
{
    let mut out = String::new();
    push_signed_padded(&mut out, year, 4);
    push_char(&mut out, '-');
    push_zero_padded(&mut out, month as u64, 2);
    push_char(&mut out, '.');
    push_char(&mut out, 'i');
    push_char(&mut out, 'c');
    push_char(&mut out, 's');
    assert(out@ =~= shard_name(YearMonth { year, month }));
    out
}

/// Where `c` first occurs in `s`.
pub open spec fn first_index(s: Seq<char>, c: char) -> Option<int>
    decreases s.len(),
{
    if s.len() == 0 {
        None
    } else if s[0] == c {
        Some(0)
    } else {
        match first_index(s.drop_first(), c) {
            Some(i) => Some(i + 1),
            None => None,
        }
    }
}

pub open spec fn all_digits(s: Seq<char>) -> bool {
    s.len() > 0 && forall|i: int| 0 <= i < s.len() ==> is_ascii_digit(#[trigger] s[i])
}

/// `2026-07.ics` is July 2026; anything else is not a shard.
///
/// The name must end in `.ics`; the year is everything before the first `-`,
/// exactly four ASCII digits, and the month everything after it, exactly
/// two ASCII digits making 1 to 12. No sign, no space.
pub open spec fn shard_of_name(name: Seq<char>) -> Option<YearMonth> {
    if name.len() < 4 || name.subrange(name.len() - 4, name.len() as int) != ics_suffix() {
        None
    } else {
        let stem = name.subrange(0, name.len() - 4);
        match first_index(stem, '-') {
            None => None,
            Some(i) => {
                let y = stem.subrange(0, i);
                let m = stem.subrange(i + 1, stem.len() as int);
                if y.len() != 4 || m.len() != 2 || !all_digits(y) || !all_digits(m) {
                    None
                } else if 1 <= digits_value(m) <= 12 {
                    Some(YearMonth { year: digits_value(y) as i32, month: digits_value(m) as u32 })
                } else {
                    None
                }
            },
        }
    }
}

proof fn lemma_first_index(s: Seq<char>, c: char, i: int)
    requires
        0 <= i <= s.len(),
        forall|j: int| 0 <= j < i ==> s[j] != c,
    ensures
        i < s.len() && s[i] == c ==> first_index(s, c) == Some(i),
        i == s.len() ==> first_index(s, c) is None,
    decreases i,
{
    if i > 0 {
        assert forall|j: int| 0 <= j < i - 1 implies s.drop_first()[j] != c by {
            assert(s.drop_first()[j] == s[j + 1]);
        }
        lemma_first_index(s.drop_first(), c, i - 1);
        if i < s.len() {
            assert(s.drop_first()[i - 1] == s[i]);
        }
    }
}

/// Reads `v[from..to]`, at most four characters, as a number written in
/// ASCII digits alone.
fn parse_digits(v: &Vec<char>, from: usize, to: usize) -> (r: Option<u32>)
    requires
        from <= to <= v@.len(),
        to - from <= 4,
    ensures
        all_digits(v@.subrange(from as int, to as int)) ==> r == Some(
            digits_value(v@.subrange(from as int, to as int)) as u32,
        ) && digits_value(v@.subrange(from as int, to as int)) < 10000,
        !all_digits(v@.subrange(from as int, to as int)) ==> r is None,
{
    let ghost d = v@.subrange(from as int, to as int);
    if from == to {
        return None;
    }
    let mut i = from;
    let mut value: u32 = 0;
    while i < to
        invariant
            from <= i <= to <= v@.len(),
            to - from <= 4,
            d == v@.subrange(from as int, to as int),
            forall|j: int| from <= j < i ==> is_ascii_digit(#[trigger] v@[j]),
            value == digits_value(v@.subrange(from as int, i as int)),
            value < pow10((i - from) as nat),
        decreases to - i,
    {
        if !('0' <= v[i] && v[i] <= '9') {
            assert(d[i - from] == v@[i as int]);
            assert(!is_ascii_digit(d[i - from]));
            return None;
        }
        let ghost p = v@.subrange(from as int, i + 1);
        assert(p.drop_last() == v@.subrange(from as int, i as int));
        assert(pow10((i - from) as nat) <= 1000) by {
            reveal_with_fuel(pow10, 4);
        }
        assert(pow10((i + 1 - from) as nat) == 10 * pow10((i - from) as nat));
        value = value * 10 + (v[i] as u32 - 48);
        i = i + 1;
    }
    assert(v@.subrange(from as int, i as int) == d);
    assert forall|j: int| 0 <= j < d.len() implies is_ascii_digit(#[trigger] d[j]) by {
        assert(d[j] == v@[from + j]);
    }
    assert(pow10((i - from) as nat) <= 10000) by {
        reveal_with_fuel(pow10, 5);
    }
    Some(value)
}

impl YearMonth {
    /// `2026-07.ics` -> July 2026; anything else -> `None`.
    ///
    /// Non-matching names are simply not shards, which is what keeps the temp
    /// files an interrupted write leaves behind out of the calendar.
    pub fn parse(file_name: &str) -> (r: Option<YearMonth>)
        ensures
            r == shard_of_name(file_name@),
    {
        let v = chars_of(file_name);
        let n = v.len();
        if n < 4 || v[n - 4] != '.' || v[n - 3] != 'i' || v[n - 2] != 'c' || v[n - 1] != 's' {
            proof {
                if n >= 4 {
                    let tail = v@.subrange(n - 4, n as int);
                    assert(tail[0] == v@[n - 4]);
                    assert(tail[1] == v@[n - 3]);
                    assert(tail[2] == v@[n - 2]);
                    assert(tail[3] == v@[n - 1]);
                    assert(tail != ics_suffix());
                }
            }
            return None;
        }
        assert(v@.subrange(n - 4, n as int) =~= ics_suffix());
        let stem_len = n - 4;
        let ghost stem = v@.subrange(0, stem_len as int);
        let mut i: usize = 0;
        while i < stem_len && v[i] != '-'
            invariant
                i <= stem_len <= v@.len(),
                stem == v@.subrange(0, stem_len as int),
                forall|j: int| 0 <= j < i ==> stem[j] != '-',
            decreases stem_len - i,
        {
            i = i + 1;
        }
        proof {
            lemma_first_index(stem, '-', i as int);
        }
        if i == stem_len {
            return None;
        }
        let ghost y = stem.subrange(0, i as int);
        let ghost m = stem.subrange(i + 1, stem.len() as int);
        assert(y =~= v@.subrange(0, i as int));
        assert(m =~= v@.subrange(i + 1, stem_len as int));
        if i != 4 || stem_len - i - 1 != 2 {
            return None;
        }
        let year = parse_digits(&v, 0, 4);
        let month = parse_digits(&v, 5, stem_len);
        match (year, month) {
            (Some(yv), Some(mv)) => {
                if 1 <= mv && mv <= 12 {
                    Some(YearMonth { year: yv as i32, month: mv })
                } else {
                    None
                }
            },
            _ => None,
        }
    }
}

/// Oldest first.
pub open spec fn sorted_ym(s: Seq<YearMonth>) -> bool {
    forall|a: int, b: int| 0 <= a < b < s.len() ==> ym_le(#[trigger] s[a], #[trigger] s[b])
}

/// Chronological order, kept as a sorted insertion.
fn insert_sorted(v: &mut Vec<YearMonth>, ym: YearMonth)
    requires
        sorted_ym(old(v)@),
    ensures
        sorted_ym(final(v)@),
        final(v)@.to_multiset() == old(v)@.to_multiset().insert(ym),
{
    let mut pos: usize = 0;
    while pos < v.len() && !v[pos].is_after(&ym)
        invariant
            pos <= v@.len(),
            forall|j: int| 0 <= j < pos ==> ym_le(#[trigger] v@[j], ym),
        decreases v@.len() - pos,
    {
        pos = pos + 1;
    }
    let ghost before = v@;
    let ghost at_end = pos == v@.len();
    assert(!at_end ==> !ym_le(v@[pos as int], ym));
    v.insert(pos, ym);
    proof {
        assert(v@ =~= before.subrange(0, pos as int).push(ym) + before.subrange(
            pos as int,
            before.len() as int,
        ));
        assert(before =~= before.subrange(0, pos as int) + before.subrange(
            pos as int,
            before.len() as int,
        ));
        vstd::seq_lib::lemma_multiset_commutative(
            before.subrange(0, pos as int).push(ym),
            before.subrange(pos as int, before.len() as int),
        );
        vstd::seq_lib::lemma_multiset_commutative(
            before.subrange(0, pos as int),
            before.subrange(pos as int, before.len() as int),
        );
        vstd::seq_lib::to_multiset_build(before.subrange(0, pos as int), ym);
        assert(v@.to_multiset() =~= before.to_multiset().insert(ym));
        assert forall|a: int, b: int| 0 <= a < b < v@.len() implies ym_le(#[trigger] v@[a], #[trigger] v@[b]) by {
            if b < pos {
                assert(v@[a] == before[a]);
                assert(v@[b] == before[b]);
            } else if b == pos {
                assert(v@[a] == before[a]);
            } else if a < pos {
                assert(v@[a] == before[a]);
                assert(v@[b] == before[b - 1]);
                assert(ym_le(before[a], before[b - 1]));
            } else if a == pos {
                assert(v@[b] == before[b - 1]);
                if pos < b - 1 {
                    assert(ym_le(before[pos as int], before[b - 1]));
                }
            } else {
                assert(v@[a] == before[a - 1]);
                assert(v@[b] == before[b - 1]);
            }
        }
    }
}

pub open spec fn shards_of_names(names: Seq<Seq<char>>) -> Seq<YearMonth>
    decreases names.len(),
{
    if names.len() == 0 {
        Seq::empty()
    } else {
        let rest = shards_of_names(names.drop_last());
        match shard_of_name(names.last()) {
            Some(ym) => rest.push(ym),
            None => rest,
        }
    }
}

/// Every shard among the file names of `calendar/`, oldest first. Names that
/// are not shards are skipped.
pub fn sorted_shards(names: &Vec<String>) -> (r: Vec<YearMonth>)
    ensures
        sorted_ym(r@),
        r@.to_multiset() == shards_of_names(names@.map_values(|s: String| s@)).to_multiset(),
{
    let ghost views = names@.map_values(|s: String| s@);
    let mut out: Vec<YearMonth> = Vec::new();
    let mut i: usize = 0;
    while i < names.len()
        invariant
            i <= names@.len(),
            views == names@.map_values(|s: String| s@),
            sorted_ym(out@),
            out@.to_multiset() == shards_of_names(views.subrange(0, i as int)).to_multiset(),
        decreases names@.len() - i,
    {
        assert(views.subrange(0, i + 1).drop_last() == views.subrange(0, i as int));
        match YearMonth::parse(names[i].as_str()) {
            Some(ym) => {
                proof {
                    vstd::seq_lib::to_multiset_build(shards_of_names(views.subrange(0, i as int)), ym);
                }
                insert_sorted(&mut out, ym);
            },
            None => {},
        }
        i = i + 1;
    }
    assert(views.subrange(0, i as int) == views);
    out
}

/// A shard's own file name reads back as that shard, for every year a
/// four-digit name can hold.
pub proof fn shard_names_read_back(ym: YearMonth)
    requires
        0 <= ym.year <= 9999,
        1 <= ym.month <= 12,
    ensures
        shard_of_name(shard_name(ym)) == Some(ym),
{
    let y = zero_padded(ym.year as nat, 4);
    let m = zero_padded(ym.month as nat, 2);
    assert(pow10(4) == 10000) by {
        reveal_with_fuel(pow10, 5);
    }
    assert(pow10(2) == 100) by {
        reveal_with_fuel(pow10, 3);
    }
    lemma_zero_padded(ym.year as nat, 4);
    lemma_zero_padded(ym.month as nat, 2);
    let name = shard_name(ym);
    assert(name == y + seq!['-'] + m + ics_suffix());
    assert(name.subrange(name.len() - 4, name.len() as int) =~= ics_suffix());
    let stem = name.subrange(0, name.len() - 4);
    assert(stem =~= y + seq!['-'] + m);
    assert forall|j: int| 0 <= j < 4 implies stem[j] != '-' by {
        assert(stem[j] == y[j]);
        assert(is_ascii_digit(y[j]));
    }
    lemma_first_index(stem, '-', 4);
    assert(stem.subrange(0, 4) =~= y);
    assert(stem.subrange(5, stem.len() as int) =~= m);
    assert(is_ascii_digit(y[0]));
    assert(is_ascii_digit(m[0]));
    assert(all_digits(y));
    assert(all_digits(m));
}

/// Nothing that does not end in `.ics` is ever read as a shard.
pub proof fn only_ics_files_are_shards(name: Seq<char>)
    requires
        name.len() == 0 || name.last() != 's',
    ensures
        shard_of_name(name) is None,
{
    if name.len() >= 4 {
        let tail = name.subrange(name.len() - 4, name.len() as int);
        assert(tail[3] == name.last());
        assert(tail != ics_suffix());
    }
}

proof fn lemma_first_index_found(s: Seq<char>, c: char)
    ensures
        first_index(s, c) matches Some(i) ==> 0 <= i < s.len() && s[i] == c,
    decreases s.len(),
{
    if s.len() > 0 && s[0] != c {
        lemma_first_index_found(s.drop_first(), c);
    }
}

proof fn lemma_digits_value_below(s: Seq<char>)
    requires
        forall|i: int| 0 <= i < s.len() ==> is_ascii_digit(#[trigger] s[i]),
    ensures
        digits_value(s) < pow10(s.len()),
    decreases s.len(),
{
    if s.len() > 0 {
        lemma_digits_value_below(s.drop_last());
        assert(is_ascii_digit(s.last()));
        let a = digits_value(s.drop_last());
        let p = pow10((s.len() - 1) as nat);
        assert(a * 10 + 9 < p * 10) by (nonlinear_arith)
            requires
                a < p,
        ;
    }
}

/// Two runs of ASCII digits of one length with one value are one run.
proof fn lemma_digits_value_injective(a: Seq<char>, b: Seq<char>)
    requires
        a.len() == b.len(),
        forall|i: int| 0 <= i < a.len() ==> is_ascii_digit(#[trigger] a[i]),
        forall|i: int| 0 <= i < b.len() ==> is_ascii_digit(#[trigger] b[i]),
        digits_value(a) == digits_value(b),
    ensures
        a == b,
    decreases a.len(),
{
    if a.len() > 0 {
        assert(is_ascii_digit(a.last()) && is_ascii_digit(b.last()));
        let x = digits_value(a.drop_last());
        let y = digits_value(b.drop_last());
        let da = a.last() as int - 48;
        let db = b.last() as int - 48;
        assert(x == y && da == db) by (nonlinear_arith)
            requires
                x * 10 + da == y * 10 + db,
                0 <= da < 10,
                0 <= db < 10,
                x >= 0,
                y >= 0,
        ;
        lemma_digits_value_injective(a.drop_last(), b.drop_last());
        assert(a =~= a.drop_last().push(a.last()));
        assert(b =~= b.drop_last().push(b.last()));
    } else {
        assert(a =~= b);
    }
}

/// A name is a shard exactly when it is the name of its month: four digits
/// of year, a dash, two digits of month from 01 to 12, and `.ics`. So each
/// month has one file name, and every shard name reads back as written.
pub proof fn shard_names_are_canonical(name: Seq<char>, ym: YearMonth)
    ensures
        shard_of_name(name) == Some(ym) <==> (0 <= ym.year <= 9999 && 1 <= ym.month <= 12 && name == shard_name(ym)),
{
    if 0 <= ym.year <= 9999 && 1 <= ym.month <= 12 && name == shard_name(ym) {
        shard_names_read_back(ym);
    }
    if shard_of_name(name) == Some(ym) {
        let stem = name.subrange(0, name.len() - 4);
        lemma_first_index_found(stem, '-');
        let i = first_index(stem, '-')->0;
        let y = stem.subrange(0, i);
        let m = stem.subrange(i + 1, stem.len() as int);
        assert(name =~= y + seq!['-'] + m + ics_suffix());
        assert forall|k: int| 0 <= k < y.len() implies is_ascii_digit(#[trigger] y[k]) by {}
        assert forall|k: int| 0 <= k < m.len() implies is_ascii_digit(#[trigger] m[k]) by {}
        lemma_digits_value_below(y);
        assert(pow10(4) == 10000) by {
            reveal_with_fuel(pow10, 5);
        }
        assert(pow10(2) == 100) by {
            reveal_with_fuel(pow10, 3);
        }
        let yv = digits_value(y);
        let mv = digits_value(m);
        lemma_zero_padded(yv, 4);
        lemma_zero_padded(mv, 2);
        lemma_digits_value_injective(zero_padded(yv, 4), y);
        lemma_digits_value_injective(zero_padded(mv, 2), m);
        assert(ym.year as int == yv);
        assert(shard_name(ym) =~= y + seq!['-'] + m + ics_suffix());
    }
}

} // verus!
