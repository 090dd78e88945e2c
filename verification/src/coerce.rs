//! Coercion of the text of a cell to the type that a field asks for.
//!
//! A number is an optional sign, digits, and optionally a point followed by
//! digits. A date is written `YYYY-MM-DD` and names a day of the proleptic
//! Gregorian calendar. Blanks around a number or a date are dropped; text is
//! taken as it is.

use vstd::prelude::*;
use crate::config::TypeHint;
use crate::json::{is_space, is_space_char, skip_spaces, skip_whitespace};
use crate::json::hex_digit_char;
use crate::text::{chars_of, code_of, digit_char};

verus! {

/// Whether `t` holds nothing but blanks.
pub open spec fn is_blank(t: Seq<char>) -> bool {
    forall|i: int| 0 <= i < t.len() ==> is_space(#[trigger] t[i])
}

/// `t` without the blanks it ends with.
pub open spec fn trim_end(t: Seq<char>) -> Seq<char>
    decreases t.len(),
{
    if t.len() > 0 && is_space(t.last()) {
        trim_end(t.drop_last())
    } else {
        t
    }
}

/// `t` without the blanks around it.
pub open spec fn trimmed(t: Seq<char>) -> Seq<char> {
    trim_end(skip_spaces(t))
}

/// Whether `c` is a decimal digit.
pub open spec fn is_digit(c: char) -> bool {
    '0' <= c <= '9'
}

/// The value of the decimal digit `c`.
pub open spec fn digit_value(c: char) -> int {
    c as int - '0' as int
}

/// Whether `t` is digits, or digits, a point and digits.
pub open spec fn is_unsigned_decimal(t: Seq<char>) -> bool {
    &&& t.len() > 0
    &&& t[0] != '.'
    &&& t[t.len() - 1] != '.'
    &&& forall|i: int| 0 <= i < t.len() ==> is_digit(#[trigger] t[i]) || t[i] == '.'
    &&& forall|i: int, j: int|
        0 <= i < j < t.len() ==> !(#[trigger] t[i] == '.' && #[trigger] t[j] == '.')
}

/// Whether `t` is a decimal number, with or without a sign.
pub open spec fn is_decimal(t: Seq<char>) -> bool {
    if t.len() > 0 && (t[0] == '-' || t[0] == '+') {
        is_unsigned_decimal(t.skip(1))
    } else {
        is_unsigned_decimal(t)
    }
}

/// Whether `year` has a 29th of February.
pub open spec fn is_leap_year(year: int) -> bool {
    year % 4 == 0 && (year % 100 != 0 || year % 400 == 0)
}

/// The number of days of a month.
pub open spec fn days_in_month(year: int, month: int) -> int {
    if month == 2 {
        if is_leap_year(year) {
            29
        } else {
            28
        }
    } else if month == 4 || month == 6 || month == 9 || month == 11 {
        30
    } else {
        31
    }
}

/// The number that the two digits at `i` spell.
pub open spec fn two_digits(t: Seq<char>, i: int) -> int {
    digit_value(t[i]) * 10 + digit_value(t[i + 1])
}

/// Whether `t` is a date, written `YYYY-MM-DD`.
pub open spec fn is_date(t: Seq<char>) -> bool {
    &&& t.len() == 10
    &&& is_digit(t[0]) && is_digit(t[1]) && is_digit(t[2]) && is_digit(t[3])
    &&& t[4] == '-'
    &&& is_digit(t[5]) && is_digit(t[6])
    &&& t[7] == '-'
    &&& is_digit(t[8]) && is_digit(t[9])
    &&& 1 <= two_digits(t, 5) <= 12
    &&& 1 <= two_digits(t, 8) <= days_in_month(
        two_digits(t, 0) * 100 + two_digits(t, 2),
        two_digits(t, 5),
    )
}

/// The value that a field of type `hint` takes from the text `cell`, or
/// `None` where the text cannot be coerced to that type.
pub open spec fn coerced(hint: TypeHint, cell: Seq<char>) -> Option<Seq<char>> {
    match hint {
        TypeHint::Text => Some(cell),
        TypeHint::Number => if is_decimal(trimmed(cell)) {
            Some(trimmed(cell))
        } else {
            None
        },
        TypeHint::Date => if is_date(trimmed(cell)) {
            Some(trimmed(cell))
        } else {
            None
        },
    }
}

/// Whether `c` is a decimal digit.
pub fn is_digit_char(c: char) -> (b: bool)
    ensures
        b == is_digit(c),
{
    c >= '0' && c <= '9'
}

/// Whether `s` holds nothing but blanks.
pub fn is_blank_text(s: &str) -> (b: bool)
    ensures
        b == is_blank(s@),
{
    let chars = chars_of(s);
    let mut i: usize = 0;
    while i < chars.len()
        invariant
            i <= chars.len(),
            chars@ == s@,
            forall|k: int| 0 <= k < i ==> is_space(#[trigger] chars@[k]),
        decreases chars.len() - i,
    {
        if !is_space_char(chars[i]) {
            assert(!is_space(s@[i as int]));
            return false;
        }
        i += 1;
    }
    true
}

/// Where `s` starts and ends once the blanks around it are dropped.
pub fn trim_bounds(s: &Vec<char>) -> (b: (usize, usize))
    ensures
        b.0 <= b.1 <= s.len(),
        s@.subrange(b.0 as int, b.1 as int) == trimmed(s@),
{
    proof {
        assert(s@.skip(0) =~= s@);
    }
    let start = skip_whitespace(s, 0);
    let mut end: usize = s.len();
    proof {
        assert(s@.subrange(start as int, end as int) =~= s@.skip(start as int));
    }
    while end > start && is_space_char(s[end - 1])
        invariant
            start <= end <= s.len(),
            trim_end(s@.subrange(start as int, end as int)) == trimmed(s@),
        decreases end,
    {
        proof {
            assert(s@.subrange(start as int, end as int).drop_last() =~= s@.subrange(
                start as int,
                end - 1,
            ));
        }
        end -= 1;
    }
    (start, end)
}

/// Whether the characters from `a` up to `b` are digits, or digits, a point
/// and digits.
fn is_unsigned_decimal_range(s: &Vec<char>, a: usize, b: usize) -> (r: bool)
    requires
        a <= b <= s.len(),
    ensures
        r == is_unsigned_decimal(s@.subrange(a as int, b as int)),
{
    let ghost t = s@.subrange(a as int, b as int);
    if a == b {
        return false;
    }
    if s[a] == '.' || s[b - 1] == '.' {
        return false;
    }
    let mut seen_point = false;
    let ghost mut point_at: int = 0;
    let mut i: usize = a;
    while i < b
        invariant
            a <= i <= b <= s.len(),
            t == s@.subrange(a as int, b as int),
            forall|k: int| 0 <= k < i - a ==> is_digit(#[trigger] t[k]) || t[k] == '.',
            seen_point ==> 0 <= point_at < i - a && t[point_at] == '.',
            forall|k: int| 0 <= k < i - a && t[k] == '.' ==> seen_point && k == point_at,
        decreases b - i,
    {
        let c = s[i];
        assert(t[i - a] == c);
        if c == '.' {
            if seen_point {
                assert(t[point_at] == '.' && t[i - a] == '.');
                return false;
            }
            seen_point = true;
            proof {
                point_at = i - a;
            }
        } else if !is_digit_char(c) {
            return false;
        }
        i += 1;
    }
    true
}

/// Whether the characters from `a` up to `b` are a decimal number.
fn is_decimal_range(s: &Vec<char>, a: usize, b: usize) -> (r: bool)
    requires
        a <= b <= s.len(),
    ensures
        r == is_decimal(s@.subrange(a as int, b as int)),
{
    if a < b && (s[a] == '-' || s[a] == '+') {
        proof {
            assert(s@.subrange(a as int, b as int).skip(1) =~= s@.subrange(a + 1, b as int));
        }
        is_unsigned_decimal_range(s, a + 1, b)
    } else {
        is_unsigned_decimal_range(s, a, b)
    }
}

/// The value of the digit `c`.
fn digit_of(c: char) -> (v: u32)
    requires
        is_digit(c),
    ensures
        v == digit_value(c),
        v <= 9,
{
    code_of(c) - 48
}

/// Whether `year` has a 29th of February.
pub fn leap_year(year: u32) -> (b: bool)
    ensures
        b == is_leap_year(year as int),
{
    year % 4 == 0 && (year % 100 != 0 || year % 400 == 0)
}

/// The number of days of a month.
pub fn month_length(year: u32, month: u32) -> (days: u32)
    ensures
        days == days_in_month(year as int, month as int),
{
    if month == 2 {
        if leap_year(year) {
            29
        } else {
            28
        }
    } else if month == 4 || month == 6 || month == 9 || month == 11 {
        30
    } else {
        31
    }
}

/// Whether the characters from `a` up to `b` are a date.
fn is_date_range(s: &Vec<char>, a: usize, b: usize) -> (r: bool)
    requires
        a <= b <= s.len(),
    ensures
        r == is_date(s@.subrange(a as int, b as int)),
{
    let ghost t = s@.subrange(a as int, b as int);
    if b - a != 10 {
        return false;
    }
    assert(forall|k: int| 0 <= k < 10 ==> t[k] == s@[a + k]);
    if !(is_digit_char(s[a]) && is_digit_char(s[a + 1]) && is_digit_char(s[a + 2])
        && is_digit_char(s[a + 3]) && s[a + 4] == '-' && is_digit_char(s[a + 5])
        && is_digit_char(s[a + 6]) && s[a + 7] == '-' && is_digit_char(s[a + 8])
        && is_digit_char(s[a + 9])) {
        return false;
    }
    let year: u32 = digit_of(s[a]) * 1000 + digit_of(s[a + 1]) * 100 + digit_of(s[a + 2]) * 10
        + digit_of(s[a + 3]);
    let month: u32 = digit_of(s[a + 5]) * 10 + digit_of(s[a + 6]);
    let day: u32 = digit_of(s[a + 8]) * 10 + digit_of(s[a + 9]);
    assert(year == two_digits(t, 0) * 100 + two_digits(t, 2));
    assert(month == two_digits(t, 5));
    assert(day == two_digits(t, 8));
    1 <= month && month <= 12 && 1 <= day && day <= month_length(year, month)
}

/// The string that holds the characters of `s` from `a` up to `b`.
pub(crate) fn text_between(s: &Vec<char>, a: usize, b: usize) -> (t: String)
    requires
        a <= b <= s.len(),
    ensures
        t@ == s@.subrange(a as int, b as int),
{
    let mut t = String::new();
    let mut i: usize = a;
    while i < b
        invariant
            a <= i <= b <= s.len(),
            t@ == s@.subrange(a as int, i as int),
        decreases b - i,
    {
        t.push(s[i]);
        proof {
            assert(s@.subrange(a as int, i + 1) =~= s@.subrange(a as int, i as int).push(
                s@[i as int],
            ));
        }
        i += 1;
    }
    t
}

/// Coerces the text of a cell to the type `hint`.
///
/// Text is taken as it is. A number or a date is returned without the blanks
/// around it; where what is left is no number or no date, the result is
/// `None`.
pub fn coerce(hint: TypeHint, cell: &str) -> (r: Option<String>)
    ensures
        match r {
            Some(v) => coerced(hint, cell@) == Some(v@),
            None => coerced(hint, cell@) is None,
        },
{
    let chars = chars_of(cell);
    match hint {
        TypeHint::Text => Some(text_between(&chars, 0, chars.len())),
        TypeHint::Number => {
            let (a, b) = trim_bounds(&chars);
            if is_decimal_range(&chars, a, b) {
                Some(text_between(&chars, a, b))
            } else {
                None
            }
        },
        TypeHint::Date => {
            let (a, b) = trim_bounds(&chars);
            if is_date_range(&chars, a, b) {
                Some(text_between(&chars, a, b))
            } else {
                None
            }
        },
    }
}

/// Whether the three numbers name a day of the calendar, in a year of no
/// more than four digits.
pub open spec fn is_calendar_day(year: int, month: int, day: int) -> bool {
    0 <= year <= 9999 && 1 <= month <= 12 && 1 <= day <= days_in_month(year, month)
}

/// How a day of the calendar is written: `YYYY-MM-DD`.
pub open spec fn date_string(year: int, month: int, day: int) -> Seq<char> {
    seq![
        digit_char(year / 1000),
        digit_char(year / 100 % 10),
        digit_char(year / 10 % 10),
        digit_char(year % 10),
        '-',
        digit_char(month / 10),
        digit_char(month % 10),
        '-',
        digit_char(day / 10),
        digit_char(day % 10),
    ]
}

/// The digit for a value below ten is a digit of that value.
pub proof fn lemma_digit_char(d: int)
    requires
        0 <= d < 10,
    ensures
        is_digit(digit_char(d)),
        digit_value(digit_char(d)) == d,
{
}

/// A day of the calendar is written as a date.
pub proof fn lemma_date_string_is_date(year: int, month: int, day: int)
    requires
        is_calendar_day(year, month, day),
    ensures
        is_date(date_string(year, month, day)),
{
    let t = date_string(year, month, day);
    lemma_digit_char(year / 1000);
    lemma_digit_char(year / 100 % 10);
    lemma_digit_char(year / 10 % 10);
    lemma_digit_char(year % 10);
    lemma_digit_char(month / 10);
    lemma_digit_char(month % 10);
    lemma_digit_char(day / 10);
    lemma_digit_char(day % 10);
    assert(two_digits(t, 0) == year / 100);
    assert(two_digits(t, 2) == year % 100);
    assert(two_digits(t, 5) == month);
    assert(two_digits(t, 8) == day);
}

/// The text of a day of the calendar, as a field of type date takes it, or
/// `None` where the three numbers name no day.
pub fn date_text(year: u16, month: u8, day: u8) -> (r: Option<String>)
    ensures
        match r {
            Some(t) => is_calendar_day(year as int, month as int, day as int) && t@
                == date_string(year as int, month as int, day as int) && is_date(t@),
            None => !is_calendar_day(year as int, month as int, day as int),
        },
{
    if year > 9999 || month < 1 || month > 12 || day < 1 || (day as u32) > month_length(
        year as u32,
        month as u32,
    ) {
        return None;
    }
    let y: u32 = year as u32;
    let m: u32 = month as u32;
    let d: u32 = day as u32;
    let mut t = String::new();
    t.push(hex_digit_char(y / 1000));
    t.push(hex_digit_char(y / 100 % 10));
    t.push(hex_digit_char(y / 10 % 10));
    t.push(hex_digit_char(y % 10));
    t.push('-');
    t.push(hex_digit_char(m / 10));
    t.push(hex_digit_char(m % 10));
    t.push('-');
    t.push(hex_digit_char(d / 10));
    t.push(hex_digit_char(d % 10));
    proof {
        assert(t@ =~= date_string(year as int, month as int, day as int));
        lemma_date_string_is_date(year as int, month as int, day as int);
    }
    Some(t)
}

} // verus!
