//! `calpo start`: the line it prints once a segment is over, and how it reads
//! the length the user asked for.

use vstd::prelude::*;

use crate::cli::report::{duration_text, format_duration};
use crate::text::{
    ascii_lower, chars_of, debug_quoted, digit_prefix_len, digits, digits_value, is_ascii_digit,
    pad_left, pad_right, push_char, push_digits, push_line, push_padded_left, push_padded_right,
    push_str, quote, to_ascii_lowercase, trim, trim_end, trim_start, trim_str, is_whitespace,
};
use crate::error::AppError;
use crate::ipc::Response;
use crate::timer::{
    lengths_fit, readings_ok, spec_observe, spec_reset, state_at, wf, Clock, Ended, Outcome, Phase, Timer, TimerModel,
    TimerState, MAX_SEGMENT_NANOS, NANOS_PER_SEC,
};

verus! {

/// The longest a single segment may be asked to run, in seconds: a typo
/// (`50h`) is refused instead of parking the terminal until next week.
pub const MAX_SEGMENT_SECS: u64 = 24 * 60 * 60;

pub open spec fn outcome_word_text(outcome: Outcome) -> Seq<char> {
    match outcome {
        Outcome::Completed => "completed"@,
        Outcome::Aborted => "stopped"@,
        Outcome::Invalidated => "voided"@,
    }
}

/// How a segment ended, as this command reports it.
pub fn outcome_word(outcome: Outcome) -> (r: &'static str)
    ensures
        r@ == outcome_word_text(outcome),
{
    match outcome {
        Outcome::Completed => "completed",
        Outcome::Aborted => "stopped",
        Outcome::Invalidated => "voided",
    }
}

pub open spec fn phase_word_text(phase: Phase) -> Seq<char> {
    match phase {
        Phase::Work => "work"@,
        Phase::Break => "break"@,
    }
}

pub fn phase_word(phase: Phase) -> (r: &'static str)
    ensures
        r@ == phase_word_text(phase),
{
    match phase {
        Phase::Work => "work",
        Phase::Break => "break",
    }
}

/// A single segment's length: seconds under a minute, the report's
/// rounded-down minutes otherwise.
pub open spec fn brief_text(secs: u64) -> Seq<char> {
    if secs < 60 {
        digits(secs as nat) + seq!['s']
    } else {
        duration_text((secs as i64) as int)
    }
}

/// A length for a single segment, in seconds when it is under a minute: a
/// pomodoro stopped after forty seconds must not read "0m".
pub fn brief(secs: u64) -> (r: String)
    ensures
        r@ == brief_text(secs),
{
    if secs < 60 {
        let mut out = String::new();
        push_digits(&mut out, secs);
        push_char(&mut out, 's');
        out
    } else {
        format_duration(secs as i64)
    }
}

pub open spec fn label_text(label: Option<Seq<char>>) -> Seq<char> {
    match label {
        Some(l) => l,
        None => Seq::empty(),
    }
}

/// One line: fixed-width columns first, the user's own text last, no
/// trailing whitespace.
pub open spec fn summary_text(
    state: Seq<char>,
    secs: u64,
    phase: Phase,
    label: Option<Seq<char>>,
) -> Seq<char> {
    trim_end(
        pad_right(state, 9) + seq![' ', ' '] + pad_left(brief_text(secs), 6) + seq![' ', ' ']
            + pad_right(phase_word_text(phase), 5) + seq![' ', ' '] + label_text(label),
    ) + seq!['\n']
}

pub open spec fn label_view(label: Option<&str>) -> Option<Seq<char>> {
    match label {
        Some(l) => Some(l@),
        None => None,
    }
}

/// One line, in the shape `calpo today` uses for a session.
pub fn summary(state: &str, secs: u64, phase: Phase, label: Option<&str>) -> (r: String)
    ensures
        r@ == summary_text(state@, secs, phase, label_view(label)),
{
    let mut line = String::new();
    push_padded_right(&mut line, state, 9);
    push_char(&mut line, ' ');
    push_char(&mut line, ' ');
    let b = brief(secs);
    push_padded_left(&mut line, b.as_str(), 6);
    push_char(&mut line, ' ');
    push_char(&mut line, ' ');
    push_padded_right(&mut line, phase_word(phase), 5);
    push_char(&mut line, ' ');
    push_char(&mut line, ' ');
    match label {
        Some(l) => push_str(&mut line, l),
        None => {},
    }
    assert(line@ =~= pad_right(state@, 9) + seq![' ', ' '] + pad_left(brief_text(secs), 6) + seq![
        ' ',
        ' ',
    ] + pad_right(phase_word_text(phase), 5) + seq![' ', ' '] + label_text(label_view(label)));
    let mut out = String::new();
    push_line(&mut out, line.as_str());
    out
}

pub open spec fn string_label(label: Option<String>) -> Option<Seq<char>> {
    match label {
        Some(l) => Some(l@),
        None => None,
    }
}

/// What to print once it is over: the last segment that was recorded, or a
/// note that a slip left nothing behind.
pub open spec fn report_text(ended: Seq<Ended>) -> Seq<char> {
    if ended.len() == 0 {
        "nothing recorded\n"@
    } else {
        let last = ended.last();
        summary_text(
            outcome_word_text(last.outcome),
            last.actual_sec,
            last.phase,
            string_label(last.label),
        )
    }
}

pub fn report_of(ended: &[Ended]) -> (r: String)
    ensures
        r@ == report_text(ended@),
{
    if ended.len() == 0 {
        return "nothing recorded\n".to_owned();
    }
    let segment = &ended[ended.len() - 1];
    let label: Option<&str> = match &segment.label {
        Some(l) => Some(l.as_str()),
        None => None,
    };
    summary(outcome_word(segment.outcome), segment.actual_sec, segment.phase, label)
}

/// Seconds per unit for the spellings `parse_duration` accepts; a bare
/// number is minutes.
pub open spec fn unit_seconds(unit: Seq<char>) -> Option<u64> {
    if unit == ""@ || unit == "m"@ || unit == "min"@ || unit == "mins"@ || unit == "minute"@
        || unit == "minutes"@ {
        Some(60)
    } else if unit == "s"@ || unit == "sec"@ || unit == "secs"@ || unit == "second"@ || unit
        == "seconds"@ {
        Some(1)
    } else if unit == "h"@ || unit == "hr"@ || unit == "hrs"@ || unit == "hour"@ || unit
        == "hours"@ {
        Some(3600)
    } else {
        None
    }
}

pub open spec fn not_a_length(t: Seq<char>) -> Seq<char> {
    debug_quoted(t) + " is not a length like 25m"@
}

/// `25m`, `90s`, `1h`, or a bare `25` meaning minutes, as nanoseconds: a
/// count, then one unit, and nothing else.
pub open spec fn parse_duration_result(text: Seq<char>) -> Result<u128, Seq<char>> {
    let t = trim(text);
    let k = digit_prefix_len(t);
    let count = t.subrange(0, k as int);
    let unit = ascii_lower(trim(t.subrange(k as int, t.len() as int)));
    match unit_seconds(unit) {
        None => Err(not_a_length(t)),
        Some(per) => if count.len() == 0 || digits_value(count) > u64::MAX || digits_value(count)
            * per > u64::MAX {
            Err(not_a_length(t))
        } else if digits_value(count) * per == 0 {
            Err("a pomodoro has to be longer than nothing"@)
        } else if digits_value(count) * per > MAX_SEGMENT_SECS {
            Err(debug_quoted(t) + " is longer than a day, which is almost certainly a typo"@)
        } else {
            Ok((digits_value(count) * per * NANOS_PER_SEC) as u128)
        },
    }
}

fn is_word(u: &Vec<char>, w: &str) -> (r: bool)
    ensures
        r == (u@ == w@),
{
    let wc = chars_of(w);
    if u.len() != wc.len() {
        return false;
    }
    let mut i: usize = 0;
    while i < u.len()
        invariant
            u@.len() == wc@.len(),
            wc@ == w@,
            i <= u@.len(),
            forall|j: int| 0 <= j < i ==> u@[j] == wc@[j],
        decreases u@.len() - i,
    {
        if u[i] != wc[i] {
            assert(u@[i as int] != wc@[i as int]);
            return false;
        }
        i = i + 1;
    }
    assert(u@ == wc@);
    true
}

fn seconds_per_unit(u: &Vec<char>) -> (r: Option<u64>)
    ensures
        r == unit_seconds(u@),
{
    if is_word(u, "") || is_word(u, "m") || is_word(u, "min") || is_word(u, "mins") || is_word(
        u,
        "minute",
    ) || is_word(u, "minutes") {
        Some(60)
    } else if is_word(u, "s") || is_word(u, "sec") || is_word(u, "secs") || is_word(u, "second")
        || is_word(u, "seconds") {
        Some(1)
    } else if is_word(u, "h") || is_word(u, "hr") || is_word(u, "hrs") || is_word(u, "hour")
        || is_word(u, "hours") {
        Some(3600)
    } else {
        None
    }
}

proof fn lemma_digit_prefix(s: Seq<char>, i: int)
    requires
        0 <= i <= digit_prefix_len(s),
    ensures
        digit_prefix_len(s) <= s.len(),
        forall|j: int| 0 <= j < i ==> is_ascii_digit(#[trigger] s[j]),
        i < s.len() && i == digit_prefix_len(s) ==> !is_ascii_digit(s[i]),
    decreases s.len(),
{
    if s.len() > 0 && is_ascii_digit(s[0]) {
        if i > 0 {
            lemma_digit_prefix(s.drop_first(), i - 1);
            assert forall|j: int| 0 <= j < i implies is_ascii_digit(#[trigger] s[j]) by {
                if j > 0 {
                    assert(s[j] == s.drop_first()[j - 1]);
                }
            }
            if i < s.len() && i == digit_prefix_len(s) {
                assert(s[i] == s.drop_first()[i - 1]);
            }
        } else {
            lemma_digit_prefix(s.drop_first(), 0);
        }
    }
}

proof fn lemma_digit_prefix_is_first_non_digit(s: Seq<char>, i: int)
    requires
        0 <= i <= s.len(),
        forall|j: int| 0 <= j < i ==> is_ascii_digit(#[trigger] s[j]),
        i == s.len() || !is_ascii_digit(s[i]),
    ensures
        digit_prefix_len(s) == i,
    decreases s.len(),
{
    if i > 0 {
        assert(is_ascii_digit(s[0]));
        assert forall|j: int| 0 <= j < i - 1 implies is_ascii_digit(#[trigger] s.drop_first()[j]) by {
            assert(s.drop_first()[j] == s[j + 1]);
        }
        if i < s.len() {
            assert(s.drop_first()[i - 1] == s[i]);
        }
        lemma_digit_prefix_is_first_non_digit(s.drop_first(), i - 1);
    } else if s.len() > 0 {
        assert(!is_ascii_digit(s[0]));
    }
}

/// A word that neither starts nor ends in whitespace and has no capital
/// letters is its own trimmed, lowered form.
proof fn lemma_plain_word(w: Seq<char>)
    requires
        w.len() > 0,
        !is_whitespace(w[0]),
        !is_whitespace(w.last()),
        forall|i: int| 0 <= i < w.len() ==> !('A' <= #[trigger] w[i] <= 'Z'),
    ensures
        trim(w) == w,
        ascii_lower(w) == w,
{
    assert(trim_start(w) == w);
    assert(ascii_lower(w) =~= w);
}

/// A count of `per`-second units, written as `count` then the unit `w`,
/// reads as that many seconds, in nanoseconds.
proof fn lemma_count_then_unit(count: Seq<char>, w: Seq<char>, per: u64)
    requires
        count.len() > 0,
        forall|i: int| 0 <= i < count.len() ==> is_ascii_digit(#[trigger] count[i]),
        !is_ascii_digit(w[0]) && !is_whitespace(w.last()) || w.len() == 0,
        unit_seconds(ascii_lower(trim(w))) == Some(per),
        0 < digits_value(count) * per <= MAX_SEGMENT_SECS,
    ensures
        parse_duration_result(count + w) == Ok::<u128, Seq<char>>((digits_value(count) * per * NANOS_PER_SEC) as u128),
{
    let t = count + w;
    let n = count.len() as int;
    assert(!is_whitespace(t[0]));
    assert(trim_start(t) == t);
    if w.len() > 0 {
        assert(t.last() == w.last());
    } else {
        assert(t.last() == count.last());
    }
    assert(trim(t) == t);
    assert forall|j: int| 0 <= j < n implies is_ascii_digit(#[trigger] t[j]) by {
        assert(t[j] == count[j]);
    }
    if w.len() > 0 {
        assert(t[n] == w[0]);
    }
    lemma_digit_prefix_is_first_non_digit(t, n);
    assert(t.subrange(0, n) =~= count);
    assert(t.subrange(n, t.len() as int) =~= w);
    assert(digits_value(count) <= u64::MAX);
}

/// Minutes, however spelled, are sixty seconds each, and a bare count is
/// minutes: `25`, `25m`, `25min`, `25 minutes` are all the same length.
pub proof fn minutes_are_sixty_seconds_however_spelled(count: Seq<char>)
    requires
        count.len() > 0,
        forall|i: int| 0 <= i < count.len() ==> is_ascii_digit(#[trigger] count[i]),
        0 < digits_value(count),
        digits_value(count) * 60 <= MAX_SEGMENT_SECS,
    ensures
        ({
            let length = Ok::<u128, Seq<char>>((digits_value(count) * 60 * 1_000_000_000) as u128);
            &&& parse_duration_result(count) == length
            &&& parse_duration_result(count + "m"@) == length
            &&& parse_duration_result(count + "min"@) == length
            &&& parse_duration_result(count + "mins"@) == length
            &&& parse_duration_result(count + "minute"@) == length
            &&& parse_duration_result(count + "minutes"@) == length
            &&& parse_duration_result(count + " minutes"@) == length
            &&& parse_duration_result(count + "M"@) == length
        }),
{
    reveal_strlit("");
    reveal_strlit("m");
    reveal_strlit("min");
    reveal_strlit("mins");
    reveal_strlit("minute");
    reveal_strlit("minutes");
    reveal_strlit(" minutes");
    reveal_strlit("M");
    assert(count + ""@ =~= count);
    assert(trim(""@) =~= ""@);
    assert(ascii_lower(""@) =~= ""@);
    lemma_count_then_unit(count, ""@, 60);
    lemma_plain_word("m"@);
    lemma_count_then_unit(count, "m"@, 60);
    lemma_plain_word("min"@);
    lemma_count_then_unit(count, "min"@, 60);
    lemma_plain_word("mins"@);
    lemma_count_then_unit(count, "mins"@, 60);
    lemma_plain_word("minute"@);
    lemma_count_then_unit(count, "minute"@, 60);
    lemma_plain_word("minutes"@);
    lemma_count_then_unit(count, "minutes"@, 60);
    assert(trim_start(" minutes"@) == trim_start("minutes"@)) by {
        assert(" minutes"@.drop_first() =~= "minutes"@);
    }
    assert(trim_end("minutes"@) == "minutes"@);
    lemma_count_then_unit(count, " minutes"@, 60);
    assert(trim("M"@) == "M"@);
    assert(ascii_lower("M"@) =~= "m"@);
    lemma_count_then_unit(count, "M"@, 60);
}

/// Seconds, however spelled, are one second each: `90s`, `90sec`,
/// `90 seconds` are all the same length.
pub proof fn seconds_are_one_second_however_spelled(count: Seq<char>)
    requires
        count.len() > 0,
        forall|i: int| 0 <= i < count.len() ==> is_ascii_digit(#[trigger] count[i]),
        0 < digits_value(count),
        digits_value(count) * 1 <= MAX_SEGMENT_SECS,
    ensures
        ({
            let length = Ok::<u128, Seq<char>>((digits_value(count) * 1 * 1_000_000_000) as u128);
            &&& parse_duration_result(count + "s"@) == length
            &&& parse_duration_result(count + "sec"@) == length
            &&& parse_duration_result(count + "secs"@) == length
            &&& parse_duration_result(count + "second"@) == length
            &&& parse_duration_result(count + "seconds"@) == length
            &&& parse_duration_result(count + " seconds"@) == length
        }),
{
    reveal_strlit("");
    reveal_strlit("m");
    reveal_strlit("min");
    reveal_strlit("mins");
    reveal_strlit("minute");
    reveal_strlit("minutes");
    reveal_strlit("s");
    reveal_strlit("sec");
    reveal_strlit("secs");
    reveal_strlit("second");
    reveal_strlit("seconds");
    reveal_strlit("h");
    reveal_strlit("hr");
    reveal_strlit("hrs");
    reveal_strlit("hour");
    reveal_strlit("hours");
    reveal_strlit("s");
    reveal_strlit("sec");
    reveal_strlit("secs");
    reveal_strlit("second");
    reveal_strlit("seconds");
    reveal_strlit(" seconds");
    lemma_plain_word("s"@);
    lemma_count_then_unit(count, "s"@, 1);
    lemma_plain_word("sec"@);
    lemma_count_then_unit(count, "sec"@, 1);
    lemma_plain_word("secs"@);
    lemma_count_then_unit(count, "secs"@, 1);
    lemma_plain_word("second"@);
    lemma_count_then_unit(count, "second"@, 1);
    lemma_plain_word("seconds"@);
    lemma_count_then_unit(count, "seconds"@, 1);
    assert(trim_start(" seconds"@) == trim_start("seconds"@)) by {
        assert(" seconds"@.drop_first() =~= "seconds"@);
    }
    assert(trim_end("seconds"@) == "seconds"@);
    lemma_count_then_unit(count, " seconds"@, 1);
}

/// Hours, however spelled, are 3600 seconds each: `1h`, `1hr`, `1 hour`
/// are all the same length.
pub proof fn hours_are_an_hour_however_spelled(count: Seq<char>)
    requires
        count.len() > 0,
        forall|i: int| 0 <= i < count.len() ==> is_ascii_digit(#[trigger] count[i]),
        0 < digits_value(count),
        digits_value(count) * 3600 <= MAX_SEGMENT_SECS,
    ensures
        ({
            let length = Ok::<u128, Seq<char>>((digits_value(count) * 3600 * 1_000_000_000) as u128);
            &&& parse_duration_result(count + "h"@) == length
            &&& parse_duration_result(count + "hr"@) == length
            &&& parse_duration_result(count + "hrs"@) == length
            &&& parse_duration_result(count + "hour"@) == length
            &&& parse_duration_result(count + "hours"@) == length
            &&& parse_duration_result(count + " hours"@) == length
        }),
{
    reveal_strlit("");
    reveal_strlit("m");
    reveal_strlit("min");
    reveal_strlit("mins");
    reveal_strlit("minute");
    reveal_strlit("minutes");
    reveal_strlit("s");
    reveal_strlit("sec");
    reveal_strlit("secs");
    reveal_strlit("second");
    reveal_strlit("seconds");
    reveal_strlit("h");
    reveal_strlit("hr");
    reveal_strlit("hrs");
    reveal_strlit("hour");
    reveal_strlit("hours");
    reveal_strlit("h");
    reveal_strlit("hr");
    reveal_strlit("hrs");
    reveal_strlit("hour");
    reveal_strlit("hours");
    reveal_strlit(" hours");
    lemma_plain_word("h"@);
    lemma_count_then_unit(count, "h"@, 3600);
    lemma_plain_word("hr"@);
    lemma_count_then_unit(count, "hr"@, 3600);
    lemma_plain_word("hrs"@);
    lemma_count_then_unit(count, "hrs"@, 3600);
    lemma_plain_word("hour"@);
    lemma_count_then_unit(count, "hour"@, 3600);
    lemma_plain_word("hours"@);
    lemma_count_then_unit(count, "hours"@, 3600);
    assert(trim_start(" hours"@) == trim_start("hours"@)) by {
        assert(" hours"@.drop_first() =~= "hours"@);
    }
    assert(trim_end("hours"@) == "hours"@);
    lemma_count_then_unit(count, " hours"@, 3600);
}

/// Whatever was typed, a length that is accepted is whole seconds, more than
/// nothing and no more than a day.
pub proof fn an_accepted_length_is_whole_seconds_up_to_a_day(text: Seq<char>)
    ensures
        parse_duration_result(text) matches Ok(n) ==> 0 < n <= MAX_SEGMENT_SECS * 1_000_000_000 && n
            % 1_000_000_000 == 0,
{
    let t = trim(text);
    let k = digit_prefix_len(t);
    let count = t.subrange(0, k as int);
    let unit = ascii_lower(trim(t.subrange(k as int, t.len() as int)));
    if let Some(per) = unit_seconds(unit) {
        let secs = digits_value(count) * per;
        if 0 < secs <= MAX_SEGMENT_SECS {
            assert((secs * 1_000_000_000) % 1_000_000_000 == 0) by (nonlinear_arith);
            assert(secs * 1_000_000_000 <= MAX_SEGMENT_SECS * 1_000_000_000) by (nonlinear_arith)
                requires
                    secs <= MAX_SEGMENT_SECS,
            ;
        }
    }
}

/// Extending a run of digits never lowers its value.
proof fn lemma_digits_value_grows(s: Seq<char>, i: int)
    requires
        0 <= i <= s.len(),
    ensures
        digits_value(s.subrange(0, i)) <= digits_value(s),
    decreases s.len() - i,
{
    if i < s.len() {
        lemma_digits_value_grows(s, i + 1);
        let p = s.subrange(0, i + 1);
        assert(p.drop_last() == s.subrange(0, i));
        assert(digits_value(p) == digits_value(s.subrange(0, i)) * 10 + ((p.last() as int
            - 48) as nat));
    } else {
        assert(s.subrange(0, i) == s);
    }
}

/// `25m`, `90s`, `1h`, or a bare `25` meaning minutes, as nanoseconds.
///
/// One unit and no arithmetic: a pomodoro is a round number of minutes. Zero
/// and anything longer than a day are refused.
pub fn parse_duration(text: &str) -> (r: Result<u128, String>)
    ensures
        match r {
            Ok(n) => parse_duration_result(text@) == Ok::<u128, Seq<char>>(n),
            Err(e) => parse_duration_result(text@) == Err::<u128, Seq<char>>(e@),
        },
{
    let trimmed = trim_str(text);
    let t = trimmed.as_str();
    let chars = chars_of(t);
    let mut k: usize = 0;
    while k < chars.len() && '0' <= chars[k] && chars[k] <= '9'
        invariant
            k <= chars@.len(),
            forall|j: int| 0 <= j < k ==> is_ascii_digit(#[trigger] chars@[j]),
        decreases chars@.len() - k,
    {
        k = k + 1;
    }
    proof {
        lemma_digit_prefix_is_first_non_digit(chars@, k as int);
    }
    let mut unit_raw = String::new();
    let mut i = k;
    while i < chars.len()
        invariant
            k <= i <= chars@.len(),
            unit_raw@ == chars@.subrange(k as int, i as int),
        decreases chars@.len() - i,
    {
        push_char(&mut unit_raw, chars[i]);
        assert(chars@.subrange(k as int, i + 1) == chars@.subrange(k as int, i as int).push(
            chars@[i as int],
        ));
        i = i + 1;
    }
    let unit_text = to_ascii_lowercase(trim_str(unit_raw.as_str()).as_str());
    let unit = chars_of(unit_text.as_str());
    let per = match seconds_per_unit(&unit) {
        Some(per) => per,
        None => {
            let mut e = quote(t);
            push_str(&mut e, " is not a length like 25m");
            return Err(e);
        },
    };
    let ghost count = chars@.subrange(0, k as int);
    let mut value: u64 = 0;
    let mut j: usize = 0;
    let mut overflow = false;
    while j < k
        invariant
            j <= k <= chars@.len(),
            count == chars@.subrange(0, k as int),
            forall|m: int| 0 <= m < k ==> is_ascii_digit(#[trigger] chars@[m]),
            !overflow ==> value == digits_value(chars@.subrange(0, j as int)),
            overflow ==> digits_value(count) > u64::MAX,
        decreases k - j,
    {
        if !overflow {
            let d = (chars[j] as u32 - 48) as u64;
            let ghost p = chars@.subrange(0, j + 1);
            assert(p.drop_last() == chars@.subrange(0, j as int));
            if value > (u64::MAX - d) / 10 {
                overflow = true;
                proof {
                    assert(digits_value(p) > u64::MAX);
                    lemma_digits_value_grows(count, j + 1);
                    assert(count.subrange(0, j + 1) == p);
                }
            } else {
                value = value * 10 + d;
            }
        }
        j = j + 1;
    }
    if k == 0 || overflow || value > u64::MAX / per {
        proof {
            if !overflow && k > 0 {
                assert(chars@.subrange(0, k as int) == count);
            }
        }
        let mut e = quote(t);
        push_str(&mut e, " is not a length like 25m");
        return Err(e);
    }
    assert(chars@.subrange(0, j as int) == count);
    let total = value * per;
    if total == 0 {
        return Err("a pomodoro has to be longer than nothing".to_owned());
    }
    if total > MAX_SEGMENT_SECS {
        let mut e = quote(t);
        push_str(&mut e, " is longer than a day, which is almost certainly a typo");
        return Err(e);
    }
    Ok(total as u128 * NANOS_PER_SEC)
}

/// Where a start request ends up.
pub enum StartRoute {
    /// The app is open and keeping the time; this line says what it started.
    Handed(String),
    /// Nobody took the request: run the countdown in this process.
    RunHere,
}

/// What to do with the app's answer to a start request. An app that is
/// counting reports what it started; one that refused is an error, since
/// running a timer here anyway would produce exactly the double count the
/// socket exists to prevent; no answer at all, or an app that could not be
/// reached, means running the countdown here.
pub fn route_start(reply: Result<Option<Response>, AppError>) -> (r: Result<StartRoute, AppError>)
    ensures
        match reply {
            Ok(Some(Response::Started { planned_sec, label })) => r matches Ok(StartRoute::Handed(line))
                && line@ == summary_text("started"@, planned_sec, Phase::Work, string_label(label)),
            Ok(Some(Response::Refused { reason })) => r == Err::<StartRoute, AppError>(
                AppError::IpcRefused(reason),
            ),
            _ => r matches Ok(StartRoute::RunHere),
        },
{
    match reply {
        Ok(Some(Response::Started { planned_sec, label })) => {
            let l: Option<&str> = match &label {
                Some(t) => Some(t.as_str()),
                None => None,
            };
            Ok(StartRoute::Handed(summary("started", planned_sec, Phase::Work, l)))
        },
        Ok(Some(Response::Refused { reason })) => Err(AppError::IpcRefused(reason)),
        _ => Ok(StartRoute::RunHere),
    }
}

/// One look at a countdown running in this process: the reading to draw,
/// and, once it is over, the segments to write. It is over when a segment
/// ended by itself (ran out, or was voided by a suspend), or when the user
/// interrupted it, which resets the timer so that the work done so far is
/// recorded rather than lost.
#[verifier::spinoff_prover]
#[verifier::rlimit(40)]
pub fn countdown_step<C: Clock>(timer: &mut Timer<C>, interrupted: bool) -> (r: (TimerState, Option<Vec<Ended>>))
    requires
        wf(old(timer)@),
        lengths_fit(old(timer)@),
    ensures
        wf(final(timer)@),
        final(timer)@.work == old(timer)@.work,
        final(timer)@.brk == old(timer)@.brk,
        exists|mono: u128, wall: i128|
            #![trigger readings_ok(mono, wall)]
            {
                let observed = spec_observe(old(timer)@, mono, wall).0;
                &&& readings_ok(mono, wall)
                &&& r.0 == state_at(observed, mono)
                &&& observed.ended.len() > 0 ==> (r.1 matches Some(v) && v@ == observed.ended
                    && final(timer)@ == (TimerModel { ended: Seq::empty(), ..observed }))
                &&& observed.ended.len() == 0 && !interrupted ==> (r.1 is None && final(timer)@ == observed)
                &&& observed.ended.len() == 0 && interrupted ==> (r.1 matches Some(v) && exists|m: u128, w: i128|
                    #![trigger readings_ok(m, w)]
                    readings_ok(m, w) && v@ == spec_reset(observed, m, w).ended && final(timer)@ == (TimerModel {
                        ended: Seq::empty(),
                        ..spec_reset(observed, m, w)
                    }))
            },
{
    let ghost before = timer@;
    let (state, _) = timer.observe();
    let ghost observed = timer@;
    let ghost (mono, wall) = choose|mono: u128, wall: i128|
        #![trigger readings_ok(mono, wall)]
        readings_ok(mono, wall) && observed == spec_observe(before, mono, wall).0 && state == state_at(observed, mono);
    let ended = timer.take_ended();
    if ended.len() > 0 {
        assert(readings_ok(mono, wall));
        return (state, Some(ended));
    }
    assert(observed.ended =~= Seq::<Ended>::empty());
    if interrupted {
        let ghost cleared = timer@;
        assert(cleared == observed);
        timer.reset();
        let ghost (m, w) = choose|m: u128, w: i128|
            #![trigger readings_ok(m, w)]
            readings_ok(m, w) && timer@ == spec_reset(cleared, m, w);
        let rest = timer.take_ended();
        assert(readings_ok(m, w));
        assert(readings_ok(mono, wall));
        return (state, Some(rest));
    }
    assert(timer@ == observed);
    assert(readings_ok(mono, wall));
    (state, None)
}

/// The width of the live countdown line, in ASCII columns, for erasing it.
pub const COUNTDOWN_WIDTH: usize = 20;

/// The live countdown, redrawn in place: a carriage return, the time left
/// as `M:SS` right-aligned in six columns, and the phase. ASCII and a fixed
/// width, so erasing it is exact; the label is not on it, since nothing here
/// can know how wide a CJK glyph is drawn.
pub open spec fn countdown_text(remaining_sec: u64, phase: Phase) -> Seq<char> {
    "\r  "@ + pad_left(digits((remaining_sec / 60) as nat) + seq![':'] + crate::text::zero_padded(
        (remaining_sec % 60) as nat,
        2,
    ), 6) + "  "@ + pad_right(phase_word_text(phase), 5) + " "@
}

pub fn countdown_line(remaining_sec: u64, phase: Phase) -> (r: String)
    ensures
        r@ == countdown_text(remaining_sec, phase),
{
    let mut clock = String::new();
    push_digits(&mut clock, remaining_sec / 60);
    push_char(&mut clock, ':');
    crate::text::push_zero_padded(&mut clock, remaining_sec % 60, 2);
    let mut out = String::new();
    push_str(&mut out, "\r  ");
    push_padded_left(&mut out, clock.as_str(), 6);
    push_str(&mut out, "  ");
    push_padded_right(&mut out, phase_word(phase), 5);
    push_str(&mut out, " ");
    out
}

/// The two lengths a countdown run in this process uses: the one asked
/// for, else the work length from the settings, and the break length from
/// the settings, each at least a second.
pub fn segment_lengths(work_secs: u64, break_secs: u64, asked: Option<u128>) -> (r: (u128, u128))
    ensures
        r.0 == match asked {
            Some(n) => n as int,
            None => (if work_secs == 0 {
                1
            } else {
                work_secs as int
            }) * NANOS_PER_SEC,
        },
        r.1 == (if break_secs == 0 {
            1
        } else {
            break_secs as int
        }) * NANOS_PER_SEC,
        r.1 <= MAX_SEGMENT_NANOS,
        asked is None ==> r.0 <= MAX_SEGMENT_NANOS,
{
    let work: u128 = if work_secs == 0 {
        1
    } else {
        work_secs as u128
    };
    let brk: u128 = if break_secs == 0 {
        1
    } else {
        break_secs as u128
    };
    let w = match asked {
        Some(n) => n,
        None => work * NANOS_PER_SEC,
    };
    (w, brk * NANOS_PER_SEC)
}

pub open spec fn label_copy(label: Option<String>) -> Option<Seq<char>> {
    match label {
        Some(s) => Some(s@),
        None => None,
    }
}

fn copy_label(label: &Option<String>) -> (r: Option<String>)
    ensures
        label_copy(r) == label_copy(*label),
{
    match label {
        Some(s) => Some(s.clone()),
        None => None,
    }
}

/// The segments that ended, each carrying the label the run was started
/// with, in order and otherwise as they were.
pub fn labelled(ended: Vec<Ended>, label: &Option<String>) -> (r: Vec<Ended>)
    ensures
        r@.len() == ended@.len(),
        forall|i: int|
            0 <= i < r@.len() ==> {
                &&& label_copy((#[trigger] r@[i]).label) == label_copy(*label)
                &&& r@[i].phase == ended@[i].phase
                &&& r@[i].planned_sec == ended@[i].planned_sec
                &&& r@[i].actual_sec == ended@[i].actual_sec
                &&& r@[i].started_at == ended@[i].started_at
                &&& r@[i].ended_at == ended@[i].ended_at
                &&& r@[i].outcome == ended@[i].outcome
            },
{
    let mut rest = ended;
    let mut out: Vec<Ended> = Vec::new();
    while rest.len() > 0
        invariant
            out@.len() + rest@.len() == ended@.len(),
            rest@ == ended@.subrange(out@.len() as int, ended@.len() as int),
            forall|i: int|
                0 <= i < out@.len() ==> {
                    &&& label_copy((#[trigger] out@[i]).label) == label_copy(*label)
                    &&& out@[i].phase == ended@[i].phase
                    &&& out@[i].planned_sec == ended@[i].planned_sec
                    &&& out@[i].actual_sec == ended@[i].actual_sec
                    &&& out@[i].started_at == ended@[i].started_at
                    &&& out@[i].ended_at == ended@[i].ended_at
                    &&& out@[i].outcome == ended@[i].outcome
                },
        decreases rest@.len(),
    {
        let e = rest.remove(0);
        assert(e == ended@[out@.len() as int]);
        let ghost before = out@;
        out.push(Ended {
            phase: e.phase,
            planned_sec: e.planned_sec,
            actual_sec: e.actual_sec,
            started_at: e.started_at,
            ended_at: e.ended_at,
            outcome: e.outcome,
            label: copy_label(label),
        });
        assert(rest@ =~= ended@.subrange(out@.len() as int, ended@.len() as int));
        assert forall|i: int| 0 <= i < before.len() implies out@[i] == before[i] by {}
    }
    out
}

} // verus!
