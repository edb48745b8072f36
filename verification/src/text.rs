//! Text helpers: conversions between strings and character vectors, on
//! which the library does its text processing, decimal numbers, trimming.

use vstd::prelude::*;

verus! {

/// The characters of `s`, in order.
///
/// Trusted: wraps `str::chars` collected into a vector; the result holds
/// exactly the characters of the string.
#[verifier::external_body]
pub(crate) fn chars_of(s: &str) -> (r: Vec<char>)
    ensures
        r@ == s@,
{
    s.chars().collect()
}

/// The string made of the characters of `v`, in order.
///
/// Trusted: wraps collecting a character iterator into a `String`; the
/// result holds exactly the given characters.
#[verifier::external_body]
pub(crate) fn string_of(v: &Vec<char>) -> (r: String)
    ensures
        r@ == v@,
{
    v.iter().collect()
}

/// Whether two strings hold the same characters.
///
/// Trusted: wraps `==` on `str`, which compares the two texts.
#[verifier::external_body]
pub(crate) fn str_eq(a: &str, b: &str) -> (r: bool)
    ensures
        r == (a@ == b@),
{
    a == b
}

/// Whether two character vectors hold the same text.
pub fn chars_eq(a: &Vec<char>, b: &Vec<char>) -> (r: bool)
    ensures
        r == (a@ == b@),
{
    if a.len() != b.len() {
        return false;
    }
    let mut i: usize = 0;
    while i < a.len()
        invariant
            i <= a.len(),
            a.len() == b.len(),
            forall|j: int| 0 <= j < i ==> a[j] == b[j],
        decreases a.len() - i,
    {
        if a[i] != b[i] {
            return false;
        }
        i += 1;
    }
    assert(a@ =~= b@);
    true
}

/// Appends the characters of `s` to `out`.
pub fn push_str(out: &mut Vec<char>, s: &str)
    ensures
        final(out)@ == old(out)@ + s@,
{
    let mut piece = chars_of(s);
    out.append(&mut piece);
}

/// Appends a copy of `piece` to `out`.
pub fn push_chars(out: &mut Vec<char>, piece: &Vec<char>)
    ensures
        final(out)@ == old(out)@ + piece@,
{
    let mut i: usize = 0;
    while i < piece.len()
        invariant
            i <= piece.len(),
            out@ == old(out)@ + piece@.take(i as int),
        decreases piece.len() - i,
    {
        out.push(piece[i]);
        assert(piece@.take(i + 1) =~= piece@.take(i as int).push(piece[i as int]));
        i += 1;
    }
    assert(piece@.take(i as int) =~= piece@);
}

/// The characters of `v` from `from` up to, not including, `to`.
pub fn slice_chars(v: &Vec<char>, from: usize, to: usize) -> (r: Vec<char>)
    requires
        from <= to <= v.len(),
    ensures
        r@ == v@.subrange(from as int, to as int),
{
    let mut out: Vec<char> = Vec::new();
    let mut i: usize = from;
    while i < to
        invariant
            from <= i <= to <= v.len(),
            out@ == v@.subrange(from as int, i as int),
        decreases to - i,
    {
        out.push(v[i]);
        assert(v@.subrange(from as int, i + 1) =~= v@.subrange(from as int, i as int).push(
            v[i as int],
        ));
        i += 1;
    }
    out
}

// ── Decimal numbers ──────────────────────────────────────────────────────

/// The character of a decimal digit.
pub open spec fn digit_char(d: int) -> char {
    if d == 0 {
        '0'
    } else if d == 1 {
        '1'
    } else if d == 2 {
        '2'
    } else if d == 3 {
        '3'
    } else if d == 4 {
        '4'
    } else if d == 5 {
        '5'
    } else if d == 6 {
        '6'
    } else if d == 7 {
        '7'
    } else if d == 8 {
        '8'
    } else {
        '9'
    }
}

/// The value of a decimal digit character, if it is one.
pub open spec fn digit_value(c: char) -> Option<int> {
    if c == '0' {
        Some(0)
    } else if c == '1' {
        Some(1)
    } else if c == '2' {
        Some(2)
    } else if c == '3' {
        Some(3)
    } else if c == '4' {
        Some(4)
    } else if c == '5' {
        Some(5)
    } else if c == '6' {
        Some(6)
    } else if c == '7' {
        Some(7)
    } else if c == '8' {
        Some(8)
    } else if c == '9' {
        Some(9)
    } else {
        None
    }
}

/// The decimal numeral of a natural number, without leading zeros.
pub open spec fn decimal(n: nat) -> Seq<char>
    decreases n,
{
    if n < 10 {
        seq![digit_char(n as int)]
    } else {
        decimal(n / 10).push(digit_char((n % 10) as int))
    }
}

/// The decimal numeral of an integer, with `-` before a negative one.
pub open spec fn signed_decimal(i: int) -> Seq<char> {
    if i < 0 {
        seq!['-'] + decimal((-i) as nat)
    } else {
        decimal(i as nat)
    }
}

/// Whether every character is a decimal digit.
pub open spec fn all_digits(s: Seq<char>) -> bool {
    forall|i: int| 0 <= i < s.len() ==> digit_value(#[trigger] s[i]) is Some
}

/// The number that a run of decimal digits spells.
pub open spec fn digits_number(s: Seq<char>) -> nat
    decreases s.len(),
{
    if s.len() == 0 {
        0
    } else {
        (digits_number(s.drop_last()) * 10 + digit_value(s.last()).unwrap_or(0)) as nat
    }
}

/// The integer that `s` spells: an optional sign (`-` only where
/// `allow_minus`), then at least one decimal digit and nothing else.
pub open spec fn parse_integer(s: Seq<char>, allow_minus: bool) -> Option<int> {
    let signed = s.len() > 0 && (s[0] == '+' || (s[0] == '-' && allow_minus));
    let digits = if signed {
        s.skip(1)
    } else {
        s
    };
    if digits.len() == 0 || !all_digits(digits) {
        None
    } else if signed && s[0] == '-' {
        Some(-(digits_number(digits) as int))
    } else {
        Some(digits_number(digits) as int)
    }
}

/// The `i32` that `s` spells, if it spells one that fits.
pub open spec fn parse_i32_spec(s: Seq<char>) -> Option<i32> {
    match parse_integer(s, true) {
        Some(v) if i32::MIN <= v <= i32::MAX => Some(v as i32),
        _ => None,
    }
}

/// The `usize` that `s` spells, if it spells one that fits.
pub open spec fn parse_usize_spec(s: Seq<char>) -> Option<usize> {
    match parse_integer(s, false) {
        Some(v) if v <= usize::MAX => Some(v as usize),
        _ => None,
    }
}

fn digit_to_char(d: u64) -> (c: char)
    requires
        d < 10,
    ensures
        c == digit_char(d as int),
{
    if d == 0 {
        '0'
    } else if d == 1 {
        '1'
    } else if d == 2 {
        '2'
    } else if d == 3 {
        '3'
    } else if d == 4 {
        '4'
    } else if d == 5 {
        '5'
    } else if d == 6 {
        '6'
    } else if d == 7 {
        '7'
    } else if d == 8 {
        '8'
    } else {
        '9'
    }
}

fn char_to_digit(c: char) -> (d: Option<u64>)
    ensures
        match digit_value(c) {
            Some(v) => d == Some(v as u64) && 0 <= v <= 9,
            None => d is None,
        },
{
    if c == '0' {
        Some(0)
    } else if c == '1' {
        Some(1)
    } else if c == '2' {
        Some(2)
    } else if c == '3' {
        Some(3)
    } else if c == '4' {
        Some(4)
    } else if c == '5' {
        Some(5)
    } else if c == '6' {
        Some(6)
    } else if c == '7' {
        Some(7)
    } else if c == '8' {
        Some(8)
    } else if c == '9' {
        Some(9)
    } else {
        None
    }
}

/// Appends the decimal numeral of `n` to `out`.
pub fn push_decimal(out: &mut Vec<char>, n: u64)
    ensures
        final(out)@ == old(out)@ + decimal(n as nat),
    decreases n,
{
    if n < 10 {
        out.push(digit_to_char(n));
        assert(out@ =~= old(out)@ + decimal(n as nat));
    } else {
        push_decimal(out, n / 10);
        out.push(digit_to_char(n % 10));
        assert(out@ =~= old(out)@ + decimal(n as nat));
    }
}

/// Appends the decimal numeral of `i` to `out`, with `-` if it is negative.
pub fn push_signed_decimal(out: &mut Vec<char>, i: i64)
    ensures
        final(out)@ == old(out)@ + signed_decimal(i as int),
{
    if i < 0 {
        out.push('-');
        let magnitude: u64 = if i == i64::MIN {
            9223372036854775808u64
        } else {
            (-i) as u64
        };
        push_decimal(out, magnitude);
        assert(out@ =~= old(out)@ + signed_decimal(i as int));
    } else {
        push_decimal(out, i as u64);
    }
}

/// The decimal numeral of `n`.
pub fn decimal_string(n: u64) -> (r: String)
    ensures
        r@ == decimal(n as nat),
{
    let mut out: Vec<char> = Vec::new();
    push_decimal(&mut out, n);
    assert(out@ =~= decimal(n as nat));
    string_of(&out)
}

/// The decimal numeral of `i`, with `-` if it is negative.
pub fn signed_decimal_string(i: i64) -> (r: String)
    ensures
        r@ == signed_decimal(i as int),
{
    let mut out: Vec<char> = Vec::new();
    push_signed_decimal(&mut out, i);
    assert(out@ =~= signed_decimal(i as int));
    string_of(&out)
}

/// A run of digits spells at least what any of its prefixes spells.
proof fn lemma_digits_number_grows(s: Seq<char>, k: int)
    requires
        0 <= k <= s.len(),
    ensures
        digits_number(s.take(k)) <= digits_number(s),
    decreases s.len() - k,
{
    if k < s.len() {
        lemma_digits_number_grows(s, k + 1);
        assert(s.take(k + 1).drop_last() =~= s.take(k));
        assert(digits_number(s.take(k + 1)) >= digits_number(s.take(k)) * 10) by {
            assert(digits_number(s.take(k + 1)) == (digits_number(s.take(k)) * 10 + digit_value(
                s.take(k + 1).last(),
            ).unwrap_or(0)) as nat);
        }
    } else {
        assert(s.take(k) =~= s);
    }
}

/// Reads the digits of `v` from `start` on: the number they spell, if
/// there is at least one, all are decimal digits, and it does not exceed
/// `limit`.
fn read_digits(v: &Vec<char>, start: usize, limit: u64) -> (r: Option<u64>)
    requires
        start <= v.len(),
    ensures
        ({
            let digits = v@.skip(start as int);
            if digits.len() > 0 && all_digits(digits) && digits_number(digits) <= limit {
                r == Some(digits_number(digits) as u64)
            } else {
                r is None
            }
        }),
{
    let ghost digits = v@.skip(start as int);
    if start == v.len() {
        return None;
    }
    let mut acc: u64 = 0;
    let mut i: usize = start;
    while i < v.len()
        invariant
            start <= i <= v.len(),
            digits == v@.skip(start as int),
            all_digits(digits.take(i - start)),
            acc == digits_number(digits.take(i - start)),
            acc <= limit,
        decreases v.len() - i,
    {
        let ghost k = i - start;
        proof {
            assert(digits.take(k + 1).drop_last() =~= digits.take(k));
            assert(digits.take(k + 1).last() == v[i as int]);
            lemma_digits_number_grows(digits, k + 1);
        }
        match char_to_digit(v[i]) {
            None => {
                assert(digits[k] == v[i as int]);
                return None;
            },
            Some(d) => {
                if limit < d || acc > (limit - d) / 10 {
                    assert(digits_number(digits.take(k + 1)) > limit) by {
                        assert(digits_number(digits.take(k + 1)) == acc * 10 + d);
                        if limit >= d {
                            assert(acc >= (limit - d) / 10 + 1);
                            assert(acc * 10 >= ((limit - d) / 10 + 1) * 10) by (nonlinear_arith)
                                requires
                                    acc >= (limit - d) / 10 + 1,
                            ;
                        }
                    }
                    return None;
                }
                assert(acc * 10 + d <= limit) by {
                    assert(acc <= (limit - d) / 10);
                    assert(acc * 10 <= ((limit - d) / 10) * 10) by (nonlinear_arith)
                        requires
                            acc <= (limit - d) / 10,
                    ;
                }
                acc = acc * 10 + d;
                assert forall|j: int| 0 <= j < k + 1 implies digit_value(
                    #[trigger] digits.take(k + 1)[j],
                ) is Some by {
                    if j < k {
                        assert(digits.take(k + 1)[j] == digits.take(k)[j]);
                    }
                }
            },
        }
        i += 1;
    }
    assert(digits.take(i - start) =~= digits);
    Some(acc)
}

/// Reads a decimal `i32`: an optional `+` or `-`, then digits.
pub fn parse_i32(s: &str) -> (r: Option<i32>)
    ensures
        r == parse_i32_spec(s@),
{
    let v = chars_of(s);
    if v.len() > 0 && v[0] == '-' {
        match read_digits(&v, 1, 2147483648) {
            Some(m) => {
                if m == 2147483648 {
                    Some(i32::MIN)
                } else {
                    Some(-(m as i32))
                }
            },
            None => None,
        }
    } else if v.len() > 0 && v[0] == '+' {
        match read_digits(&v, 1, 2147483647) {
            Some(m) => Some(m as i32),
            None => None,
        }
    } else {
        assert(v@.skip(0) =~= v@);
        match read_digits(&v, 0, 2147483647) {
            Some(m) => Some(m as i32),
            None => None,
        }
    }
}

/// Reads a decimal `usize`: an optional `+`, then digits.
pub fn parse_usize(s: &Vec<char>) -> (r: Option<usize>)
    ensures
        r == parse_usize_spec(s@),
{
    let start: usize = if s.len() > 0 && s[0] == '+' {
        1
    } else {
        0
    };
    assert(s@.skip(0) =~= s@);
    match read_digits(s, start, usize::MAX as u64) {
        Some(m) => Some(m as usize),
        None => None,
    }
}

// ── Whitespace ───────────────────────────────────────────────────────────

/// Whether `c` is white space in the sense of Unicode's `White_Space`
/// property, which is what trimming a string goes by.
pub open spec fn is_whitespace(c: char) -> bool {
    let u = c as u32;
    (0x09 <= u <= 0x0d) || u == 0x20 || u == 0x85 || u == 0xa0 || u == 0x1680 || (0x2000 <= u
        <= 0x200a) || u == 0x2028 || u == 0x2029 || u == 0x202f || u == 0x205f || u == 0x3000
}

/// Number of white-space characters at the start of `s`.
pub open spec fn leading_whitespace(s: Seq<char>) -> nat
    decreases s.len(),
{
    if s.len() > 0 && is_whitespace(s[0]) {
        1 + leading_whitespace(s.skip(1))
    } else {
        0
    }
}

/// Number of white-space characters at the end of `s`.
pub open spec fn trailing_whitespace(s: Seq<char>) -> nat
    decreases s.len(),
{
    if s.len() > 0 && is_whitespace(s.last()) {
        1 + trailing_whitespace(s.drop_last())
    } else {
        0
    }
}

/// `s` without the white space at its start.
pub open spec fn trim_start(s: Seq<char>) -> Seq<char> {
    s.skip(leading_whitespace(s) as int)
}

/// `s` without the white space at its end.
pub open spec fn trim_end(s: Seq<char>) -> Seq<char> {
    s.take(s.len() - trailing_whitespace(s))
}

/// `s` without the white space at both ends.
pub open spec fn trim(s: Seq<char>) -> Seq<char> {
    trim_end(trim_start(s))
}

pub fn whitespace(c: char) -> (r: bool)
    ensures
        r == is_whitespace(c),
{
    let u = c as u32;
    (0x09 <= u && u <= 0x0d) || u == 0x20 || u == 0x85 || u == 0xa0 || u == 0x1680 || (0x2000 <= u
        && u <= 0x200a) || u == 0x2028 || u == 0x2029 || u == 0x202f || u == 0x205f || u == 0x3000
}

/// Where the white space at the start of `s` ends, counted from `k`.
proof fn lemma_leading_whitespace_from(s: Seq<char>, k: int)
    requires
        0 <= k <= s.len(),
        forall|j: int| 0 <= j < k ==> is_whitespace(s[j]),
    ensures
        leading_whitespace(s) == k + leading_whitespace(s.skip(k)),
    decreases k,
{
    if k > 0 {
        lemma_leading_whitespace_from(s, k - 1);
        assert(s.skip(k - 1).skip(1) =~= s.skip(k));
        assert(s.skip(k - 1)[0] == s[k - 1]);
    } else {
        assert(s.skip(0) =~= s);
    }
}

proof fn lemma_trailing_whitespace_from(s: Seq<char>, k: int)
    requires
        0 <= k <= s.len(),
        forall|j: int| k <= j < s.len() ==> is_whitespace(s[j]),
    ensures
        trailing_whitespace(s) == (s.len() - k) + trailing_whitespace(s.take(k)),
    decreases s.len() - k,
{
    if k < s.len() {
        lemma_trailing_whitespace_from(s, k + 1);
        assert(s.take(k + 1).drop_last() =~= s.take(k));
        assert(s.take(k + 1).last() == s[k]);
    } else {
        assert(s.take(k) =~= s);
    }
}

/// Removes the white space at both ends.
pub fn trim_chars(v: &Vec<char>) -> (r: Vec<char>)
    ensures
        r@ == trim(v@),
{
    let mut start: usize = 0;
    while start < v.len() && whitespace(v[start])
        invariant
            start <= v.len(),
            forall|j: int| 0 <= j < start ==> is_whitespace(v[j]),
        decreases v.len() - start,
    {
        start += 1;
    }
    proof {
        lemma_leading_whitespace_from(v@, start as int);
        let rest = v@.skip(start as int);
        if rest.len() > 0 {
            assert(rest[0] == v[start as int]);
        }
        assert(leading_whitespace(v@) == start);
    }
    let mut end: usize = v.len();
    while end > start && whitespace(v[end - 1])
        invariant
            start <= end <= v.len(),
            forall|j: int| end <= j < v.len() ==> is_whitespace(v[j]),
        decreases end,
    {
        end -= 1;
    }
    proof {
        let t = v@.skip(start as int);
        assert forall|j: int| end - start <= j < t.len() implies is_whitespace(t[j]) by {
            assert(t[j] == v[j + start]);
        }
        lemma_trailing_whitespace_from(t, end - start);
        let kept = t.take(end - start);
        if kept.len() > 0 {
            assert(kept.last() == v[end - 1]);
        }
        assert(trailing_whitespace(t) == v.len() - end);
        assert(v@.subrange(start as int, end as int) =~= trim(v@));
    }
    slice_chars(v, start, end)
}

} // verus!
