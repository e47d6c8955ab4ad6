//! What the JSONL files look like, byte by byte.
//!
//! A record counts as committed only once its terminating newline is on disk,
//! so a process that dies mid-append leaves a tail that readers skip. Appends
//! first break a line left unterminated, so a new record is never spliced onto
//! an old fragment.

use vstd::prelude::*;

use crate::calendar::store::{only_ics_files_are_shards, shard_of_name};
use crate::text::{digits, lemma_digits_end_in_a_digit, push_char, push_digits, push_str, push_wide_digits};

verus! {

pub const NEWLINE: u8 = 10;

pub const CARRIAGE_RETURN: u8 = 13;

/// A line that was on disk, terminated, and still could not be decoded.
#[derive(Debug, Clone, PartialEq, Eq)]
pub struct CorruptLine {
    /// 1-based, counting terminated lines from the top of the file.
    pub line_no: usize,
    pub reason: String,
}

/// What a JSONL file held.
#[derive(Debug)]
pub struct JsonlRead<T> {
    pub records: Vec<T>,
    /// Damaged lines are reported rather than fatal.
    pub corrupt: Vec<CorruptLine>,
    /// The file did not end in a newline: its last record was still being
    /// written when the process died, and those bytes are ignored.
    pub truncated_tail: bool,
}

impl<T> JsonlRead<T> {
    /// An empty read, which is what a file that does not exist reads as.
    pub fn empty() -> (r: JsonlRead<T>)
        ensures
            r.records@.len() == 0,
            r.corrupt@.len() == 0,
            !r.truncated_tail,
    {
        JsonlRead { records: Vec::new(), corrupt: Vec::new(), truncated_tail: false }
    }
}

/// Where `c` first occurs in `b`.
pub open spec fn first_byte(b: Seq<u8>, c: u8) -> Option<int>
    decreases b.len(),
{
    if b.len() == 0 {
        None
    } else if b[0] == c {
        Some(0)
    } else {
        match first_byte(b.drop_first(), c) {
            Some(i) => Some(i + 1),
            None => None,
        }
    }
}

/// The terminated lines of `b`, in order, without their newlines. Whatever
/// follows the last newline is not a line.
pub open spec fn committed_lines(b: Seq<u8>) -> Seq<Seq<u8>>
    decreases b.len(),
{
    match first_byte(b, NEWLINE) {
        None => Seq::empty(),
        Some(i) => {
            proof {
                lemma_first_byte_in_range(b, NEWLINE);
            }
            seq![b.subrange(0, i)] + committed_lines(b.subrange(i + 1, b.len() as int))
        },
    }
}

pub proof fn lemma_first_byte_in_range(b: Seq<u8>, c: u8)
    ensures
        first_byte(b, c) matches Some(i) ==> 0 <= i < b.len() && b[i] == c,
    decreases b.len(),
{
    if b.len() > 0 && b[0] != c {
        lemma_first_byte_in_range(b.drop_first(), c);
    }
}

/// `u8::is_ascii_whitespace`.
pub open spec fn is_ascii_ws(c: u8) -> bool {
    c == 0x20 || c == 0x09 || c == 0x0a || c == 0x0c || c == 0x0d
}

pub open spec fn blank(l: Seq<u8>) -> bool {
    forall|i: int| 0 <= i < l.len() ==> is_ascii_ws(#[trigger] l[i])
}

/// One `\r` before the newline is tolerated, for files edited on Windows.
pub open spec fn strip_cr(l: Seq<u8>) -> Seq<u8> {
    if l.len() > 0 && l.last() == CARRIAGE_RETURN {
        l.drop_last()
    } else {
        l
    }
}

/// The lines worth decoding, numbered from `first_no`: blank ones are
/// skipped, though they still count.
pub open spec fn numbered(lines: Seq<Seq<u8>>, first_no: nat) -> Seq<(nat, Seq<u8>)>
    decreases lines.len(),
{
    if lines.len() == 0 {
        Seq::empty()
    } else {
        let l = strip_cr(lines[0]);
        let rest = numbered(lines.drop_first(), first_no + 1);
        if blank(l) {
            rest
        } else {
            seq![(first_no, l)] + rest
        }
    }
}

/// A committed, non-blank line of a JSONL file, ready to decode.
#[derive(Debug, Clone, PartialEq, Eq)]
pub struct FramedLine {
    /// 1-based, counting terminated lines from the top of the file.
    pub line_no: usize,
    pub bytes: Vec<u8>,
}

/// The records of a JSONL file, before decoding.
#[derive(Debug, Clone, PartialEq, Eq)]
pub struct Framed {
    pub lines: Vec<FramedLine>,
    /// The file did not end in a newline.
    pub truncated_tail: bool,
}

pub open spec fn framed_view(lines: Seq<FramedLine>) -> Seq<(nat, Seq<u8>)> {
    Seq::new(lines.len(), |i: int| (lines[i].line_no as nat, lines[i].bytes@))
}

proof fn lemma_numbered_push(lines: Seq<Seq<u8>>, first_no: nat, l: Seq<u8>)
    ensures
        numbered(lines.push(l), first_no) == numbered(lines, first_no) + (if blank(strip_cr(l)) {
            Seq::<(nat, Seq<u8>)>::empty()
        } else {
            seq![((first_no + lines.len()) as nat, strip_cr(l))]
        }),
    decreases lines.len(),
{
    if lines.len() == 0 {
        assert(lines.push(l).drop_first() =~= Seq::<Seq<u8>>::empty());
        assert(numbered(Seq::<Seq<u8>>::empty(), first_no + 1) =~= Seq::<(nat, Seq<u8>)>::empty());
        assert(numbered(lines, first_no) =~= Seq::<(nat, Seq<u8>)>::empty());
        if blank(strip_cr(l)) {
        } else {
            assert(numbered(lines.push(l), first_no) =~= seq![(first_no, strip_cr(l))]);
        }
    } else {
        lemma_numbered_push(lines.drop_first(), first_no + 1, l);
        assert(lines.push(l).drop_first() =~= lines.drop_first().push(l));
        assert(lines.push(l)[0] == lines[0]);
        if blank(strip_cr(lines[0])) {
        } else {
            let head = seq![(first_no, strip_cr(lines[0]))];
            assert(numbered(lines.push(l), first_no) =~= head + numbered(
                lines.drop_first().push(l),
                first_no + 1,
            ));
        }
    }
}

proof fn lemma_committed_step(b: Seq<u8>, start: int, i: int)
    requires
        0 <= start <= i < b.len(),
        b[i] == NEWLINE,
        forall|j: int| start <= j < i ==> b[j] != NEWLINE,
    ensures
        committed_lines(b.subrange(start, b.len() as int)) == seq![b.subrange(start, i)]
            + committed_lines(b.subrange(i + 1, b.len() as int)),
{
    let s = b.subrange(start, b.len() as int);
    lemma_first_byte(s, NEWLINE, i - start);
    assert(s.subrange(0, i - start) =~= b.subrange(start, i));
    assert(s.subrange(i - start + 1, s.len() as int) =~= b.subrange(i + 1, b.len() as int));
}

proof fn lemma_first_byte(s: Seq<u8>, c: u8, i: int)
    requires
        0 <= i <= s.len(),
        forall|j: int| 0 <= j < i ==> s[j] != c,
    ensures
        i < s.len() && s[i] == c ==> first_byte(s, c) == Some(i),
        i == s.len() ==> first_byte(s, c) is None,
    decreases i,
{
    if i > 0 {
        assert forall|j: int| 0 <= j < i - 1 implies s.drop_first()[j] != c by {
            assert(s.drop_first()[j] == s[j + 1]);
        }
        lemma_first_byte(s.drop_first(), c, i - 1);
        if i < s.len() {
            assert(s.drop_first()[i - 1] == s[i]);
        }
    }
}

fn is_blank(b: &Vec<u8>, from: usize, to: usize) -> (r: bool)
    requires
        from <= to <= b@.len(),
    ensures
        r == blank(b@.subrange(from as int, to as int)),
{
    let mut i = from;
    while i < to
        invariant
            from <= i <= to <= b@.len(),
            forall|j: int| from <= j < i ==> is_ascii_ws(#[trigger] b@[j]),
        decreases to - i,
    {
        let c = b[i];
        if !(c == 0x20 || c == 0x09 || c == 0x0a || c == 0x0c || c == 0x0d) {
            assert(b@.subrange(from as int, to as int)[i - from] == c);
            return false;
        }
        i = i + 1;
    }
    assert forall|j: int| 0 <= j < to - from implies is_ascii_ws(
        #[trigger] b@.subrange(from as int, to as int)[j],
    ) by {
        assert(b@.subrange(from as int, to as int)[j] == b@[from + j]);
    }
    true
}

fn copy_range(b: &Vec<u8>, from: usize, to: usize) -> (r: Vec<u8>)
    requires
        from <= to <= b@.len(),
    ensures
        r@ == b@.subrange(from as int, to as int),
{
    let mut out: Vec<u8> = Vec::new();
    let mut i = from;
    while i < to
        invariant
            from <= i <= to <= b@.len(),
            out@ == b@.subrange(from as int, i as int),
        decreases to - i,
    {
        out.push(b[i]);
        assert(b@.subrange(from as int, i + 1) == b@.subrange(from as int, i as int).push(b@[i as int]));
        i = i + 1;
    }
    out
}

/// Split a JSONL file into the lines worth decoding.
///
/// Only terminated lines count; a `\r` before the newline is dropped; blank
/// lines are skipped but still numbered.
pub fn frame_jsonl(bytes: &Vec<u8>) -> (r: Framed)
    requires
        bytes@.len() < usize::MAX,
    ensures
        framed_view(r.lines@) == numbered(committed_lines(bytes@), 1),
        r.truncated_tail == (bytes@.len() > 0 && bytes@.last() != NEWLINE),
{
    let n = bytes.len();
    let mut out: Vec<FramedLine> = Vec::new();
    let mut start: usize = 0;
    let mut i: usize = 0;
    let mut count: usize = 0;
    let ghost mut done: Seq<Seq<u8>> = Seq::empty();
    assert(bytes@.subrange(0, n as int) =~= bytes@);
    while i < n
        invariant
            n == bytes@.len(),
            n < usize::MAX,
            start <= i <= n,
            forall|j: int| start <= j < i ==> bytes@[j] != NEWLINE,
            committed_lines(bytes@) == done + committed_lines(bytes@.subrange(start as int, n as int)),
            framed_view(out@) == numbered(done, 1),
            done.len() <= start,
            count == done.len(),
        decreases n - i,
    {
        if bytes[i] == NEWLINE {
            proof {
                lemma_committed_step(bytes@, start as int, i as int);
                lemma_numbered_push(done, 1, bytes@.subrange(start as int, i as int));
            }
            let ghost line = bytes@.subrange(start as int, i as int);
            let mut end = i;
            if end > start && bytes[end - 1] == CARRIAGE_RETURN {
                end = end - 1;
            }
            assert(bytes@.subrange(start as int, end as int) =~= strip_cr(line));
            if !is_blank(bytes, start, end) {
                let content = copy_range(bytes, start, end);
                let ghost before = out@;
                out.push(FramedLine { line_no: count + 1, bytes: content });
                assert(framed_view(out@) =~= framed_view(before) + seq![((1 + done.len()) as nat, strip_cr(line))]);
            }
            proof {
                done = done.push(line);
            }
            count = count + 1;
            assert(committed_lines(bytes@) =~= done + committed_lines(bytes@.subrange(i + 1, n as int)));
            start = i + 1;
        }
        i = i + 1;
    }
    proof {
        lemma_first_byte(bytes@.subrange(start as int, n as int), NEWLINE, (n - start) as int);
        assert(committed_lines(bytes@.subrange(start as int, n as int)) =~= Seq::<Seq<u8>>::empty());
        assert(done + Seq::<Seq<u8>>::empty() =~= done);
    }
    let truncated_tail = n > 0 && bytes[n - 1] != NEWLINE;
    Framed { lines: out, truncated_tail }
}

/// The values of the lines that decoded, in order.
pub open spec fn decoded<T>(results: Seq<Result<T, String>>) -> Seq<T>
    decreases results.len(),
{
    if results.len() == 0 {
        Seq::empty()
    } else {
        let prev = decoded(results.drop_last());
        match results.last() {
            Ok(v) => prev.push(v),
            Err(_) => prev,
        }
    }
}

/// The lines that did not decode: each one's number and what was said of it.
pub open spec fn rejected<T>(results: Seq<Result<T, String>>, lines: Seq<FramedLine>) -> Seq<(nat, Seq<char>)>
    decreases results.len(),
{
    if results.len() == 0 {
        Seq::empty()
    } else {
        let prev = rejected(results.drop_last(), lines);
        match results.last() {
            Ok(_) => prev,
            Err(reason) => prev.push((lines[results.len() - 1].line_no as nat, reason@)),
        }
    }
}

pub open spec fn corrupt_view(c: Seq<CorruptLine>) -> Seq<(nat, Seq<char>)> {
    Seq::new(c.len(), |i: int| (c[i].line_no as nat, c[i].reason@))
}

/// Read a JSONL file's bytes, tolerating the damage a crash can leave
/// behind: only terminated lines count, blank ones are skipped, and a line
/// `decode` refuses is reported by its number rather than ending the read.
/// One bad line in the middle must not cost the user a whole day of
/// records.
pub fn read_jsonl<T, D: Fn(&Vec<u8>) -> Result<T, String>>(bytes: &Vec<u8>, decode: D) -> (r: JsonlRead<T>)
    requires
        bytes@.len() < usize::MAX,
        forall|l: &Vec<u8>| #[trigger] decode.requires((l,)),
    ensures
        r.truncated_tail == (bytes@.len() > 0 && bytes@.last() != NEWLINE),
        exists|lines: Seq<FramedLine>, results: Seq<Result<T, String>>|
            #![trigger framed_view(lines), decoded(results)]
            {
                &&& framed_view(lines) == numbered(committed_lines(bytes@), 1)
                &&& results.len() == lines.len()
                &&& forall|i: int| 0 <= i < lines.len() ==> #[trigger] decode.ensures((&lines[i].bytes,), results[i])
                &&& r.records@ == decoded(results)
                &&& corrupt_view(r.corrupt@) == rejected(results, lines)
            },
{
    let framed = frame_jsonl(bytes);
    let mut records: Vec<T> = Vec::new();
    let mut corrupt: Vec<CorruptLine> = Vec::new();
    let ghost mut results: Seq<Result<T, String>> = Seq::empty();
    let mut i: usize = 0;
    while i < framed.lines.len()
        invariant
            i <= framed.lines@.len(),
            results.len() == i,
            forall|k: int| 0 <= k < i ==> #[trigger] decode.ensures((&framed.lines@[k].bytes,), results[k]),
            records@ == decoded(results),
            corrupt_view(corrupt@) == rejected(results, framed.lines@),
            forall|l: &Vec<u8>| #[trigger] decode.requires((l,)),
        decreases framed.lines@.len() - i,
    {
        let line = &framed.lines[i];
        let result = decode(&line.bytes);
        let ghost before = results;
        proof {
            results = results.push(result);
            assert(results.drop_last() =~= before);
        }
        match result {
            Ok(v) => {
                records.push(v);
            },
            Err(reason) => {
                let ghost old_corrupt = corrupt@;
                corrupt.push(CorruptLine { line_no: line.line_no, reason });
                assert(corrupt_view(corrupt@) =~= corrupt_view(old_corrupt).push((line.line_no as nat, reason@)));
            },
        }
        assert forall|k: int| 0 <= k < i + 1 implies #[trigger] decode.ensures((&framed.lines@[k].bytes,), results[k]) by {
            if k < i {
                assert(results[k] == before[k]);
            }
        }
        i = i + 1;
    }
    assert(decoded(results) == records@);
    JsonlRead { records, corrupt, truncated_tail: framed.truncated_tail }
}

/// Whatever follows the last newline of `b`: the record still being written
/// when a process died, if any.
pub open spec fn uncommitted(b: Seq<u8>) -> Seq<u8>
    decreases b.len(),
{
    match first_byte(b, NEWLINE) {
        None => b,
        Some(i) => {
            proof {
                lemma_first_byte_in_range(b, NEWLINE);
            }
            uncommitted(b.subrange(i + 1, b.len() as int))
        },
    }
}

/// The bytes an append leaves behind: a newline first when the file ends
/// mid-line, then the record and its own newline.
pub open spec fn appended(existing: Seq<u8>, record: Seq<u8>) -> Seq<u8> {
    let gap = if existing.len() > 0 && existing.last() != NEWLINE {
        seq![NEWLINE]
    } else {
        Seq::empty()
    };
    existing + gap + record + seq![NEWLINE]
}

/// Whether a file whose last byte is `last` ends mid-line, so that an append
/// has to break the line first.
pub fn ends_mid_line(last: Option<u8>) -> (r: bool)
    ensures
        r == (last matches Some(b) && b != NEWLINE),
{
    match last {
        Some(b) => b != NEWLINE,
        None => false,
    }
}

/// What an append writes after a file whose last byte is `last`: a newline
/// first when the file ends mid-line, then the record and its own newline.
/// Written after the file's bytes, that leaves exactly [`appended`].
pub fn append_bytes(last: Option<u8>, record: &Vec<u8>) -> (r: Vec<u8>)
    ensures
        r@ == (if last matches Some(b) && b != NEWLINE {
            seq![NEWLINE]
        } else {
            Seq::<u8>::empty()
        }) + record@ + seq![NEWLINE],
        forall|existing: Seq<u8>|
            #![trigger appended(existing, record@)]
            (if existing.len() == 0 {
                last is None
            } else {
                last == Some(existing.last())
            }) ==> existing + r@ == appended(existing, record@),
{
    let mut out: Vec<u8> = Vec::new();
    if ends_mid_line(last) {
        out.push(NEWLINE);
    }
    let ghost gap = out@;
    let mut i: usize = 0;
    while i < record.len()
        invariant
            i <= record@.len(),
            out@ == gap + record@.subrange(0, i as int),
        decreases record@.len() - i,
    {
        out.push(record[i]);
        assert(record@.subrange(0, i + 1) =~= record@.subrange(0, i as int).push(record@[i as int]));
        i = i + 1;
    }
    assert(record@.subrange(0, record@.len() as int) =~= record@);
    out.push(NEWLINE);
    assert forall|existing: Seq<u8>|
        #![trigger appended(existing, record@)]
        (if existing.len() == 0 {
            last is None
        } else {
            last == Some(existing.last())
        }) implies existing + out@ == appended(existing, record@) by {
        assert(existing + out@ =~= appended(existing, record@));
    }
    out
}

proof fn lemma_committed_concat(x: Seq<u8>, y: Seq<u8>)
    ensures
        committed_lines(x + y) == committed_lines(x) + committed_lines(uncommitted(x) + y),
    decreases x.len(),
{
    lemma_first_byte_in_range(x, NEWLINE);
    match first_byte(x, NEWLINE) {
        None => {
            assert(committed_lines(x) =~= Seq::<Seq<u8>>::empty());
            assert(Seq::<Seq<u8>>::empty() + committed_lines(x + y) =~= committed_lines(x + y));
        },
        Some(i) => {
            assert forall|j: int| 0 <= j < i implies (x + y)[j] != NEWLINE by {
                assert((x + y)[j] == x[j]);
                if x[j] == NEWLINE {
                    lemma_first_byte_min(x, NEWLINE, j);
                }
            }
            assert(forall|j: int| 0 <= j < i ==> x[j] != NEWLINE) by {
                assert forall|j: int| 0 <= j < i implies x[j] != NEWLINE by {
                    if x[j] == NEWLINE {
                        lemma_first_byte_min(x, NEWLINE, j);
                    }
                }
            }
            lemma_first_byte(x + y, NEWLINE, i);
            let rest = x.subrange(i + 1, x.len() as int);
            lemma_committed_concat(rest, y);
            assert((x + y).subrange(0, i) =~= x.subrange(0, i));
            assert((x + y).subrange(i + 1, (x + y).len() as int) =~= rest + y);
            assert(committed_lines(x + y) =~= seq![x.subrange(0, i)] + committed_lines(rest + y));
            assert(committed_lines(x) =~= seq![x.subrange(0, i)] + committed_lines(rest));
        },
    }
}

proof fn lemma_single_line(r: Seq<u8>)
    requires
        forall|j: int| 0 <= j < r.len() ==> r[j] != NEWLINE,
    ensures
        committed_lines(r + seq![NEWLINE]) == seq![r],
{
    let s = r + seq![NEWLINE];
    assert forall|j: int| 0 <= j < r.len() implies s[j] != NEWLINE by {
        assert(s[j] == r[j]);
    }
    lemma_first_byte(s, NEWLINE, r.len() as int);
    assert(s.subrange(0, r.len() as int) =~= r);
    let rest = s.subrange(r.len() as int + 1, s.len() as int);
    assert(rest =~= Seq::<u8>::empty());
    assert(first_byte(rest, NEWLINE) is None);
    assert(committed_lines(rest) =~= Seq::<Seq<u8>>::empty());
}

proof fn lemma_uncommitted(b: Seq<u8>)
    ensures
        forall|j: int| 0 <= j < uncommitted(b).len() ==> uncommitted(b)[j] != NEWLINE,
        uncommitted(b).len() > 0 <==> (b.len() > 0 && b.last() != NEWLINE),
        uncommitted(b).len() > 0 ==> uncommitted(b).last() == b.last(),
    decreases b.len(),
{
    lemma_first_byte_in_range(b, NEWLINE);
    match first_byte(b, NEWLINE) {
        None => {
            assert forall|j: int| 0 <= j < b.len() implies b[j] != NEWLINE by {
                if b[j] == NEWLINE {
                    lemma_first_byte_min(b, NEWLINE, j);
                }
            }
        },
        Some(i) => {
            let rest = b.subrange(i + 1, b.len() as int);
            lemma_uncommitted(rest);
            if rest.len() > 0 {
                assert(rest.last() == b.last());
            }
        },
    }
}

proof fn lemma_first_byte_min(b: Seq<u8>, c: u8, k: int)
    requires
        0 <= k < b.len(),
        b[k] == c,
    ensures
        first_byte(b, c) matches Some(i) && i <= k,
    decreases k,
{
    if k > 0 && b[0] != c {
        assert(b.drop_first()[k - 1] == b[k]);
        lemma_first_byte_min(b.drop_first(), c, k - 1);
    }
}

/// Appending a record keeps every line that was already committed, turns a
/// fragment a crash left behind into a line of its own rather than splicing
/// the record onto it, and commits the record as the last line.
pub proof fn appending_never_splices(existing: Seq<u8>, record: Seq<u8>)
    requires
        forall|j: int| 0 <= j < record.len() ==> record[j] != NEWLINE,
    ensures
        committed_lines(appended(existing, record)) == committed_lines(existing) + (if uncommitted(
            existing,
        ).len() > 0 {
            seq![uncommitted(existing)]
        } else {
            Seq::empty()
        }) + seq![record],
{
    lemma_uncommitted(existing);
    let t = uncommitted(existing);
    let gap: Seq<u8> = if existing.len() > 0 && existing.last() != NEWLINE {
        seq![NEWLINE]
    } else {
        Seq::empty()
    };
    let tail = gap + record + seq![NEWLINE];
    assert(appended(existing, record) =~= existing + tail);
    lemma_committed_concat(existing, tail);
    lemma_single_line(record);
    if t.len() > 0 {
        lemma_single_line(t);
        assert(t + tail =~= (t + seq![NEWLINE]) + (record + seq![NEWLINE]));
        lemma_committed_concat(t + seq![NEWLINE], record + seq![NEWLINE]);
        assert(uncommitted(t + seq![NEWLINE]) =~= Seq::<u8>::empty()) by {
            lemma_uncommitted(t + seq![NEWLINE]);
        }
        assert(Seq::<u8>::empty() + (record + seq![NEWLINE]) =~= record + seq![NEWLINE]);
    } else {
        assert(t + tail =~= record + seq![NEWLINE]);
    }
}

/// `.{name}.tmp-{pid}-{nanos}-{seq}`: the sibling a write is staged in,
/// so the rename stays inside one filesystem. It is dotted and ends in a
/// number rather than `.ics` or `.jsonl`, so one abandoned by a crash is
/// never mistaken for vault data by code that scans a directory by
/// extension.
pub open spec fn temp_name_text(name: Seq<char>, pid: u32, nanos: u128, seq: u64) -> Seq<char> {
    seq!['.'] + name + ".tmp-"@ + digits(pid as nat) + seq!['-'] + digits(nanos as nat) + seq!['-'] + digits(
        seq as nat,
    )
}

/// The name of the file a write to `name` is staged in, from this process's
/// id, the wall clock in nanoseconds, and a per-process counter.
pub fn temp_name(name: &str, pid: u32, nanos: u128, seq: u64) -> (r: String)
    ensures
        r@ == temp_name_text(name@, pid, nanos, seq),
{
    let mut out = String::new();
    push_char(&mut out, '.');
    push_str(&mut out, name);
    push_str(&mut out, ".tmp-");
    push_digits(&mut out, pid as u64);
    push_char(&mut out, '-');
    push_wide_digits(&mut out, nanos);
    push_char(&mut out, '-');
    push_digits(&mut out, seq);
    out
}

/// A staged write is never read as a month shard, whatever it was staged
/// for.
pub proof fn a_staged_write_is_never_a_shard(name: Seq<char>, pid: u32, nanos: u128, seq: u64)
    ensures
        shard_of_name(temp_name_text(name, pid, nanos, seq)) is None,
{
    lemma_digits_end_in_a_digit(seq as nat);
    let t = temp_name_text(name, pid, nanos, seq);
    assert(t.last() == digits(seq as nat).last());
    only_ics_files_are_shards(t);
}

} // verus!
