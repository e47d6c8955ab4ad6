//! Building text: decimal numbers, padded columns, trailing whitespace.
//!
//! The report columns are padded by character count, which is what `format!`
//! does with a width: a CJK character counts as one.

use vstd::prelude::*;

verus! {

/// Calls `String::push`, which appends one character.
#[verifier::external_body]
pub(crate) fn push_char(s: &mut String, c: char)
    ensures
        final(s)@ == old(s)@.push(c),
{
    s.push(c)
}

/// The characters of `s` in order.
pub(crate) fn chars_of(s: &str) -> (r: Vec<char>)
    ensures
        r@ == s@,
{
    let mut out: Vec<char> = Vec::new();
    for c in it: s.chars()
        invariant
            it.seq() == s@,
            out@ == it.seq().take(it.index() as int),
    {
        out.push(c);
    }
    out
}

pub open spec fn digit_char(d: int) -> char {
    if d <= 0 {
        '0'
    } else if d == 1 {
        '1'
    } else if d == 2 {
        '2'
    } else if d == 3 {
        '3'
    } else if d == 4 {
        '4'
    } else if d == 5 {
        '5'
    } else if d == 6 {
        '6'
    } else if d == 7 {
        '7'
    } else if d == 8 {
        '8'
    } else {
        '9'
    }
}

/// The decimal digits of `n`, without leading zeros.
pub open spec fn digits(n: nat) -> Seq<char>
    decreases n,
{
    if n < 10 {
        seq![digit_char(n as int)]
    } else {
        digits(n / 10).push(digit_char((n % 10) as int))
    }
}

/// `n` in decimal, with a leading `-` when negative.
pub open spec fn decimal(n: int) -> Seq<char> {
    if n < 0 {
        seq!['-'] + digits((-n) as nat)
    } else {
        digits(n as nat)
    }
}

pub open spec fn repeat(c: char, n: nat) -> Seq<char> {
    Seq::new(n, |_i: int| c)
}

/// `n` in decimal, zero-filled on the left to at least `width` characters.
pub open spec fn zero_padded(n: nat, width: nat) -> Seq<char> {
    let d = digits(n);
    if d.len() >= width {
        d
    } else {
        repeat('0', (width - d.len()) as nat) + d
    }
}

/// Right-aligned in a column of `width`: `format!("{:>width$}")`.
pub open spec fn pad_left(s: Seq<char>, width: nat) -> Seq<char> {
    if s.len() >= width {
        s
    } else {
        repeat(' ', (width - s.len()) as nat) + s
    }
}

/// Left-aligned in a column of `width`: `format!("{:<width$}")`.
pub open spec fn pad_right(s: Seq<char>, width: nat) -> Seq<char> {
    if s.len() >= width {
        s
    } else {
        s + repeat(' ', (width - s.len()) as nat)
    }
}

/// Unicode's `White_Space` property, which is what `char::is_whitespace`
/// tests.
pub open spec fn is_whitespace(c: char) -> bool {
    let u = c as u32;
    ||| 0x9 <= u <= 0xd
    ||| u == 0x20
    ||| u == 0x85
    ||| u == 0xa0
    ||| u == 0x1680
    ||| 0x2000 <= u <= 0x200a
    ||| u == 0x2028
    ||| u == 0x2029
    ||| u == 0x202f
    ||| u == 0x205f
    ||| u == 0x3000
}

/// `s` without the whitespace at its end: `str::trim_end`.
pub open spec fn trim_end(s: Seq<char>) -> Seq<char>
    decreases s.len(),
{
    if s.len() > 0 && is_whitespace(s.last()) {
        trim_end(s.drop_last())
    } else {
        s
    }
}

pub fn is_whitespace_char(c: char) -> (r: bool)
    ensures
        r == is_whitespace(c),
{
    let u = c as u32;
    (0x9 <= u && u <= 0xd) || u == 0x20 || u == 0x85 || u == 0xa0 || u == 0x1680 || (0x2000 <= u
        && u <= 0x200a) || u == 0x2028 || u == 0x2029 || u == 0x202f || u == 0x205f || u == 0x3000
}

fn digit(d: u64) -> (c: char)
    requires
        d < 10,
    ensures
        c == digit_char(d as int),
{
    match d {
        0 => '0',
        1 => '1',
        2 => '2',
        3 => '3',
        4 => '4',
        5 => '5',
        6 => '6',
        7 => '7',
        8 => '8',
        _ => '9',
    }
}

/// Append `n` in decimal.
pub fn push_digits(out: &mut String, n: u64)
    ensures
        final(out)@ == old(out)@ + digits(n as nat),
    decreases n,
{
    if n >= 10 {
        push_digits(out, n / 10);
    }
    push_char(out, digit(n % 10));
    proof {
        if n >= 10 {
            assert(digits(n as nat) == digits((n / 10) as nat).push(digit_char((n % 10) as int)));
        }
    }
}

/// Append `n`, which may be wider than a `u64`, in decimal.
pub fn push_wide_digits(out: &mut String, n: u128)
    ensures
        final(out)@ == old(out)@ + digits(n as nat),
    decreases n,
{
    if n >= 10 {
        push_wide_digits(out, n / 10);
    }
    push_char(out, digit((n % 10) as u64));
    proof {
        if n >= 10 {
            assert(digits(n as nat) == digits((n / 10) as nat).push(digit_char((n % 10) as int)));
        }
    }
}

/// The last character of a decimal number is a digit.
pub proof fn lemma_digits_end_in_a_digit(n: nat)
    ensures
        digits(n).len() > 0,
        '0' <= digits(n).last() <= '9',
    decreases n,
{
    if n >= 10 {
        lemma_digits_end_in_a_digit(n / 10);
    }
}

/// The number of decimal digits of `n`.
pub fn digit_count(n: u64) -> (r: usize)
    ensures
        r == digits(n as nat).len(),
    decreases n,
{
    if n >= 10 {
        let r = digit_count(n / 10);
        proof {
            lemma_digits_len_small((n / 10) as nat);
        }
        r + 1
    } else {
        1
    }
}

pub open spec fn pow10(k: nat) -> nat
    decreases k,
{
    if k == 0 {
        1
    } else {
        10 * pow10((k - 1) as nat)
    }
}

/// A number below `10^k` has at most `k` digits.
pub proof fn lemma_digits_bound(n: nat, k: nat)
    requires
        k >= 1,
        n < pow10(k),
    ensures
        1 <= digits(n).len() <= k,
    decreases n,
{
    if n >= 10 {
        if k == 1 {
            assert(pow10(1) == 10) by {
                reveal_with_fuel(pow10, 2);
            }
        } else {
            assert(n / 10 < pow10((k - 1) as nat));
            lemma_digits_bound(n / 10, (k - 1) as nat);
        }
    }
}

pub proof fn lemma_digits_len_small(n: nat)
    requires
        n <= u64::MAX,
    ensures
        1 <= digits(n).len() <= 20,
{
    assert(pow10(20) == 100_000_000_000_000_000_000) by {
        reveal_with_fuel(pow10, 21);
    }
    lemma_digits_bound(n, 20);
}

/// Append `c` `n` times.
pub fn push_repeat(out: &mut String, c: char, n: usize)
    ensures
        final(out)@ == old(out)@ + repeat(c, n as nat),
{
    let mut i: usize = 0;
    while i < n
        invariant
            i <= n,
            out@ == old(out)@ + repeat(c, i as nat),
        decreases n - i,
    {
        push_char(out, c);
        i = i + 1;
        assert(repeat(c, i as nat) == repeat(c, (i - 1) as nat).push(c));
    }
}

/// Append `n` zero-filled to `width` digits.
pub fn push_zero_padded(out: &mut String, n: u64, width: usize)
    ensures
        final(out)@ == old(out)@ + zero_padded(n as nat, width as nat),
{
    let len = digit_count(n);
    if len < width {
        push_repeat(out, '0', width - len);
    }
    push_digits(out, n);
}

/// Append `n` in decimal, signed.
pub fn push_decimal(out: &mut String, n: i64)
    ensures
        final(out)@ == old(out)@ + decimal(n as int),
{
    if n < 0 {
        push_char(out, '-');
        let m: u64 = if n == i64::MIN {
            9_223_372_036_854_775_808
        } else {
            (-n) as u64
        };
        push_digits(out, m);
    } else {
        push_digits(out, n as u64);
    }
}

/// Append `s`.
pub fn push_str(out: &mut String, s: &str)
    ensures
        final(out)@ == old(out)@ + s@,
{
    out.append(s);
}

/// Append `s` left-aligned in a column of `width`.
pub fn push_padded_right(out: &mut String, s: &str, width: usize)
    ensures
        final(out)@ == old(out)@ + pad_right(s@, width as nat),
{
    let len = s.unicode_len();
    out.append(s);
    if len < width {
        push_repeat(out, ' ', width - len);
    }
}

/// Append `s` right-aligned in a column of `width`.
pub fn push_padded_left(out: &mut String, s: &str, width: usize)
    ensures
        final(out)@ == old(out)@ + pad_left(s@, width as nat),
{
    let len = s.unicode_len();
    if len < width {
        push_repeat(out, ' ', width - len);
    }
    out.append(s);
}

/// The index just past the last character of `s` that is not whitespace.
fn trimmed_len(s: &Vec<char>) -> (r: usize)
    ensures
        r <= s@.len(),
        trim_end(s@) == s@.subrange(0, r as int),
{
    let mut n = s.len();
    assert(s@.subrange(0, n as int) == s@);
    while n > 0 && is_whitespace_char(s[n - 1])
        invariant
            n <= s@.len(),
            trim_end(s@) == trim_end(s@.subrange(0, n as int)),
        decreases n,
    {
        assert(s@.subrange(0, n as int).drop_last() == s@.subrange(0, n - 1));
        n = n - 1;
    }
    n
}

/// Append `text` without its trailing whitespace, then a newline.
pub fn push_line(out: &mut String, text: &str)
    ensures
        final(out)@ == old(out)@ + trim_end(text@) + seq!['\n'],
{
    let chars = chars_of(text);
    let n = trimmed_len(&chars);
    let mut i: usize = 0;
    let ghost start = out@;
    while i < n
        invariant
            i <= n,
            n <= chars@.len(),
            out@ == start + chars@.subrange(0, i as int),
        decreases n - i,
    {
        push_char(out, chars[i]);
        assert(chars@.subrange(0, i + 1) == chars@.subrange(0, i as int).push(chars@[i as int]));
        i = i + 1;
    }
    push_char(out, '\n');
}


/// `s` without the whitespace at its start: `str::trim_start`.
pub open spec fn trim_start(s: Seq<char>) -> Seq<char>
    decreases s.len(),
{
    if s.len() > 0 && is_whitespace(s[0]) {
        trim_start(s.drop_first())
    } else {
        s
    }
}

/// `str::trim`.
pub open spec fn trim(s: Seq<char>) -> Seq<char> {
    trim_end(trim_start(s))
}

/// `s` without leading or trailing whitespace, as `str::trim` gives it.
pub(crate) fn trim_str(s: &str) -> (r: String)
    ensures
        r@ == trim(s@),
{
    let chars = chars_of(s);
    let mut a: usize = 0;
    assert(s@.subrange(0, s@.len() as int) =~= s@);
    while a < chars.len() && is_whitespace_char(chars[a])
        invariant
            a <= chars@.len(),
            chars@ == s@,
            trim_start(s@) == trim_start(s@.subrange(a as int, s@.len() as int)),
        decreases chars@.len() - a,
    {
        assert(s@.subrange(a as int, s@.len() as int).drop_first() =~= s@.subrange(a + 1, s@.len() as int));
        a = a + 1;
    }
    let mut rest: Vec<char> = Vec::new();
    let mut i = a;
    while i < chars.len()
        invariant
            a <= i <= chars@.len(),
            rest@ == chars@.subrange(a as int, i as int),
        decreases chars@.len() - i,
    {
        rest.push(chars[i]);
        assert(rest@ =~= chars@.subrange(a as int, i + 1));
        i = i + 1;
    }
    assert(trim_start(s@) == rest@);
    let n = trimmed_len(&rest);
    let mut out = String::new();
    let mut j: usize = 0;
    while j < n
        invariant
            j <= n <= rest@.len(),
            out@ == rest@.subrange(0, j as int),
        decreases n - j,
    {
        push_char(&mut out, rest[j]);
        assert(out@ =~= rest@.subrange(0, j + 1));
        j = j + 1;
    }
    out
}

pub open spec fn lower_char(c: char) -> char {
    if 'A' <= c <= 'Z' {
        ((c as u32) + 32) as char
    } else {
        c
    }
}

/// `str::to_ascii_lowercase`: ASCII capitals lowered, everything else kept.
pub open spec fn ascii_lower(s: Seq<char>) -> Seq<char> {
    Seq::new(s.len(), |i: int| lower_char(s[i]))
}

/// `s` with its ASCII capitals lowered, as `str::to_ascii_lowercase` does.
pub(crate) fn to_ascii_lowercase(s: &str) -> (r: String)
    ensures
        r@ == ascii_lower(s@),
{
    let v = chars_of(s);
    let mut out = String::new();
    let mut i: usize = 0;
    while i < v.len()
        invariant
            i <= v@.len(),
            v@ == s@,
            out@ == ascii_lower(s@).take(i as int),
        decreases v@.len() - i,
    {
        let c = v[i];
        let lowered = if 'A' <= c && c <= 'Z' {
            ((c as u32 + 32) as u8) as char
        } else {
            c
        };
        assert(lowered == lower_char(c));
        push_char(&mut out, lowered);
        assert(out@ =~= ascii_lower(s@).take(i + 1));
        i = i + 1;
    }
    assert(out@ =~= ascii_lower(s@));
    out
}

/// What `format!("{:?}", s)` writes for a string: the text in double quotes,
/// with characters escaped as `str`'s `Debug` escapes them.
pub uninterp spec fn debug_quoted(s: Seq<char>) -> Seq<char>;

/// Calls `<str as Debug>::fmt` through `format!`.
#[verifier::external_body]
pub(crate) fn quote(s: &str) -> (r: String)
    ensures
        r@ == debug_quoted(s@),
{
    format!("{s:?}")
}

pub open spec fn is_ascii_digit(c: char) -> bool {
    '0' <= c <= '9'
}

/// The value of a run of ASCII digits.
pub open spec fn digits_value(s: Seq<char>) -> nat
    decreases s.len(),
{
    if s.len() == 0 {
        0
    } else {
        digits_value(s.drop_last()) * 10 + ((s.last() as int - 48) as nat)
    }
}

/// How many ASCII digits `s` starts with.
pub open spec fn digit_prefix_len(s: Seq<char>) -> nat
    decreases s.len(),
{
    if s.len() > 0 && is_ascii_digit(s[0]) {
        1 + digit_prefix_len(s.drop_first())
    } else {
        0
    }
}

} // verus!

verus! {

pub proof fn lemma_digit_char(d: int)
    ensures
        is_ascii_digit(digit_char(d)),
        0 <= d <= 9 ==> digit_char(d) as int - 48 == d,
{
}

/// Every character of `digits(n)` is an ASCII digit.
pub proof fn lemma_digits_are_digits(n: nat)
    ensures
        forall|i: int| 0 <= i < digits(n).len() ==> is_ascii_digit(#[trigger] digits(n)[i]),
    decreases n,
{
    lemma_digit_char((n % 10) as int);
    lemma_digit_char(n as int);
    if n >= 10 {
        lemma_digits_are_digits(n / 10);
        let d = digits(n);
        assert forall|i: int| 0 <= i < d.len() implies is_ascii_digit(#[trigger] d[i]) by {
            if i < d.len() - 1 {
                assert(d[i] == digits(n / 10)[i]);
            }
        }
    }
}

/// Reading `digits(n)` back gives `n`.
pub proof fn lemma_digits_value_of_digits(n: nat)
    ensures
        digits_value(digits(n)) == n,
    decreases n,
{
    lemma_digit_char((n % 10) as int);
    lemma_digit_char(n as int);
    if n >= 10 {
        lemma_digits_value_of_digits(n / 10);
        assert(digits(n).drop_last() == digits(n / 10));
        assert(digits(n).last() == digit_char((n % 10) as int));
        assert(digits_value(digits(n)) == digits_value(digits(n / 10)) * 10 + (n % 10));
    } else {
        assert(digits(n).drop_last() =~= Seq::<char>::empty());
        assert(digits_value(Seq::<char>::empty()) == 0);
        assert(digits(n).last() == digit_char(n as int));
    }
}

/// Leading zeros do not change the value.
pub proof fn lemma_leading_zeros(k: nat, d: Seq<char>)
    ensures
        digits_value(repeat('0', k) + d) == digits_value(d),
    decreases d.len(),
{
    if d.len() == 0 {
        lemma_zeros_value(k);
        assert(repeat('0', k) + d =~= repeat('0', k));
    } else {
        lemma_leading_zeros(k, d.drop_last());
        assert((repeat('0', k) + d).drop_last() =~= repeat('0', k) + d.drop_last());
    }
}

pub proof fn lemma_zeros_value(k: nat)
    ensures
        digits_value(repeat('0', k)) == 0,
    decreases k,
{
    if k > 0 {
        lemma_zeros_value((k - 1) as nat);
        assert(repeat('0', k).drop_last() =~= repeat('0', (k - 1) as nat));
    }
}

/// `zero_padded(n, width)` is all digits, reads back as `n`, and is `width`
/// long when `n` has no more digits than that.
pub proof fn lemma_zero_padded(n: nat, width: nat)
    ensures
        digits_value(zero_padded(n, width)) == n,
        forall|i: int|
            0 <= i < zero_padded(n, width).len() ==> is_ascii_digit(
                #[trigger] zero_padded(n, width)[i],
            ),
        zero_padded(n, width).len() >= 1,
        width >= 1 && n < pow10(width) ==> zero_padded(n, width).len() == width,
{
    lemma_digits_are_digits(n);
    lemma_digits_value_of_digits(n);
    let d = digits(n);
    if d.len() < width {
        lemma_leading_zeros((width - d.len()) as nat, d);
        let z = zero_padded(n, width);
        assert forall|i: int| 0 <= i < z.len() implies is_ascii_digit(#[trigger] z[i]) by {
            if i >= width - d.len() {
                assert(z[i] == d[i - (width - d.len())]);
            }
        }
    }
    if width >= 1 && n < pow10(width) {
        lemma_digits_bound(n, width);
    }
}

} // verus!

verus! {

/// `a` sorts before `b`: lexicographic order by character, which is the
/// order `String`'s `Ord` gives, UTF-8 preserving the order of code points.
pub open spec fn seq_lt(a: Seq<char>, b: Seq<char>) -> bool
    decreases a.len(),
{
    if b.len() == 0 {
        false
    } else if a.len() == 0 {
        true
    } else if a[0] != b[0] {
        (a[0] as int) < (b[0] as int)
    } else {
        seq_lt(a.drop_first(), b.drop_first())
    }
}

/// Whether `a` and `b` hold the same characters.
pub fn str_eq(a: &str, b: &str) -> (r: bool)
    ensures
        r == (a@ == b@),
{
    let x = chars_of(a);
    let y = chars_of(b);
    if x.len() != y.len() {
        return false;
    }
    let mut i: usize = 0;
    while i < x.len()
        invariant
            i <= x@.len(),
            x@.len() == y@.len(),
            x@ == a@,
            y@ == b@,
            forall|j: int| 0 <= j < i ==> x@[j] == y@[j],
        decreases x@.len() - i,
    {
        if x[i] != y[i] {
            return false;
        }
        i = i + 1;
    }
    assert(x@ =~= y@);
    true
}

/// Whether `a` sorts before `b`.
pub fn str_lt(a: &str, b: &str) -> (r: bool)
    ensures
        r == seq_lt(a@, b@),
{
    let x = chars_of(a);
    let y = chars_of(b);
    let mut i: usize = 0;
    assert(x@.subrange(0, x@.len() as int) =~= a@);
    assert(y@.subrange(0, y@.len() as int) =~= b@);
    while i < x.len() && i < y.len() && x[i] == y[i]
        invariant
            i <= x@.len(),
            i <= y@.len(),
            x@ == a@,
            y@ == b@,
            forall|j: int| 0 <= j < i ==> x@[j] == y@[j],
            seq_lt(a@, b@) == seq_lt(x@.subrange(i as int, x@.len() as int), y@.subrange(i as int, y@.len() as int)),
        decreases x@.len() - i,
    {
        assert(x@.subrange(i as int, x@.len() as int).drop_first() =~= x@.subrange(i + 1, x@.len() as int));
        assert(y@.subrange(i as int, y@.len() as int).drop_first() =~= y@.subrange(i + 1, y@.len() as int));
        i = i + 1;
    }
    let ghost xs = x@.subrange(i as int, x@.len() as int);
    let ghost ys = y@.subrange(i as int, y@.len() as int);
    if i == y.len() {
        false
    } else if i == x.len() {
        true
    } else {
        assert(xs[0] == x@[i as int]);
        assert(ys[0] == y@[i as int]);
        x[i] < y[i]
    }
}

/// Nothing sorts before itself.
pub proof fn lemma_seq_lt_irreflexive(a: Seq<char>)
    ensures
        !seq_lt(a, a),
    decreases a.len(),
{
    if a.len() > 0 {
        lemma_seq_lt_irreflexive(a.drop_first());
    }
}

/// Of two different texts exactly one sorts first.
pub proof fn lemma_seq_lt_total(a: Seq<char>, b: Seq<char>)
    ensures
        seq_lt(a, b) ==> !seq_lt(b, a),
        a != b ==> seq_lt(a, b) || seq_lt(b, a),
    decreases a.len(),
{
    if a.len() > 0 && b.len() > 0 {
        if a[0] == b[0] {
            lemma_seq_lt_total(a.drop_first(), b.drop_first());
            if a.drop_first() == b.drop_first() {
                assert(a =~= seq![a[0]] + a.drop_first());
                assert(b =~= seq![b[0]] + b.drop_first());
            }
        } else {
            assert(a[0] as int != b[0] as int);
        }
    } else if a.len() == 0 && b.len() == 0 {
        assert(a =~= b);
    }
}

pub proof fn lemma_seq_lt_transitive(a: Seq<char>, b: Seq<char>, c: Seq<char>)
    requires
        seq_lt(a, b),
        seq_lt(b, c),
    ensures
        seq_lt(a, c),
    decreases a.len(),
{
    if a.len() > 0 && a[0] == b[0] && b[0] == c[0] {
        lemma_seq_lt_transitive(a.drop_first(), b.drop_first(), c.drop_first());
    }
}

} // verus!
