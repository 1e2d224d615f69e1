//! What a value has to look like to satisfy the kind its declaration names.
//!
//! A kind's lexical form is the whole of its meaning, so it is checked against
//! the bytes the note wrote and nothing is coerced. `1` satisfies `integer`
//! and not `float`; `1.0` the reverse; `NO` is a string. `date` is an RFC 3339
//! `full-date`, `datetime` an RFC 3339 `date-time` with a mandatory offset, and
//! a `boolean` is `true` or `false`.

use vstd::prelude::*;

use crate::chars::{chars_of, same, slice};
use crate::contract::ScalarKind;

verus! {

/// The first position of `a` or `b` in `s`, or `-1`.
pub open spec fn first_of(s: Seq<char>, a: char, b: char) -> int
    decreases s.len(),
{
    if s.len() == 0 {
        -1
    } else if s[0] == a || s[0] == b {
        0
    } else {
        let rest = first_of(s.drop_first(), a, b);
        if rest < 0 {
            -1
        } else {
            rest + 1
        }
    }
}

/// The last position of `a` or `b` in `s`, or `-1`.
pub open spec fn last_of(s: Seq<char>, a: char, b: char) -> int
    decreases s.len(),
{
    if s.len() == 0 {
        -1
    } else if s.last() == a || s.last() == b {
        s.len() - 1
    } else {
        last_of(s.drop_last(), a, b)
    }
}

/// Whether `c` is an ASCII digit.
pub open spec fn is_digit(c: char) -> bool {
    '0' <= c && c <= '9'
}

/// One or more ASCII digits.
pub open spec fn digits(s: Seq<char>) -> bool {
    s.len() > 0 && forall|i: int| 0 <= i < s.len() ==> is_digit(#[trigger] s[i])
}

/// The value of a run of digits.
pub open spec fn number(s: Seq<char>) -> nat
    decreases s.len(),
{
    if s.len() == 0 {
        0
    } else {
        number(s.drop_last()) * 10 + ((s.last() as u32) - ('0' as u32)) as nat
    }
}

/// The same characters without one leading sign.
pub open spec fn unsigned(s: Seq<char>) -> Seq<char> {
    if s.len() > 0 && (s[0] == '-' || s[0] == '+') {
        s.drop_first()
    } else {
        s
    }
}

/// An optional sign and one or more digits.
pub open spec fn integer_form(s: Seq<char>) -> bool {
    digits(unsigned(s))
}

/// Digits, a `.`, and digits.
pub open spec fn fractional_form(s: Seq<char>) -> bool {
    let dot = first_of(s, '.', '.');
    dot >= 0 && digits(s.take(dot)) && digits(s.skip(dot + 1))
}

/// An optional sign and digits, with a fractional part, an exponent, or both.
pub open spec fn float_form(s: Seq<char>) -> bool {
    let body = unsigned(s);
    let e = first_of(body, 'e', 'E');
    if e >= 0 {
        let mantissa = body.take(e);
        (fractional_form(mantissa) || digits(mantissa)) && integer_form(body.skip(e + 1))
    } else {
        fractional_form(body)
    }
}

/// `true` or `false`, written out.
pub open spec fn boolean_form(s: Seq<char>) -> bool {
    s == "true"@ || s == "false"@
}

/// Exactly `width` digits.
pub open spec fn fixed(s: Seq<char>, width: nat) -> bool {
    s.len() == width && digits(s)
}

/// Exactly `width` digits, reading no higher than `maximum`.
pub open spec fn within(s: Seq<char>, width: nat, maximum: nat) -> bool {
    fixed(s, width) && number(s) <= maximum
}

/// Whether `year` is a Gregorian leap year.
pub open spec fn leap_year(year: nat) -> bool {
    year % 4 == 0 && (year % 100 != 0 || year % 400 == 0)
}

/// How many days `month` has in `year`.
pub open spec fn month_length(year: nat, month: nat) -> nat {
    if month == 2 && leap_year(year) {
        29
    } else if month == 2 {
        28
    } else if month == 4 || month == 6 || month == 9 || month == 11 {
        30
    } else {
        31
    }
}

/// The Gregorian calendar: January, March, May, July, August, October and
/// December have 31 days; April, June, September and November 30;
/// February 29 in a leap year and 28 otherwise; and the twelve months make
/// a year of 366 days in a leap year and 365 otherwise.
pub proof fn law_gregorian_months(year: nat)
    ensures
        forall|m: nat|
            1 <= m <= 12 && m != 2 ==> #[trigger] month_length(year, m) == seq![31nat, 28, 31, 30, 31, 30, 31, 31, 30, 31, 30, 31][m - 1],
        month_length(year, 2) == if year % 4 == 0 && (year % 100 != 0 || year % 400 == 0) { 29nat } else { 28nat },
        month_length(year, 1) + month_length(year, 2) + month_length(year, 3) + month_length(year, 4) + month_length(year, 5)
            + month_length(year, 6) + month_length(year, 7) + month_length(year, 8) + month_length(year, 9) + month_length(
            year,
            10,
        ) + month_length(year, 11) + month_length(year, 12) == if year % 4 == 0 && (year % 100 != 0 || year % 400 == 0) {
            366nat
        } else {
            365nat
        },
{
    assert forall|m: nat|
        1 <= m <= 12 && m != 2 implies #[trigger] month_length(year, m) == seq![31nat, 28, 31, 30, 31, 30, 31, 31, 30, 31, 30, 31][m - 1] by {
        assert(m == 1 || m == 3 || m == 4 || m == 5 || m == 6 || m == 7 || m == 8 || m == 9 || m == 10 || m == 11 || m == 12);
    }
}

/// Every day of every month of the Gregorian calendar is a calendar day,
/// and no day past the month's end is: the last day of August, of any year,
/// is the 31st.
pub proof fn law_calendar_days(year: nat, month: nat, day: nat)
    requires
        1 <= month <= 12,
        1 <= day,
    ensures
        calendar_day(year, month, day) <== day <= 28,
        (month != 2 && day <= 30) ==> calendar_day(year, month, day),
        (month == 1 || month == 3 || month == 5 || month == 7 || month == 8 || month == 10 || month == 12) ==> (
        calendar_day(year, month, day) <==> day <= 31),
        (month == 4 || month == 6 || month == 9 || month == 11) ==> (calendar_day(year, month, day) <==> day <= 30),
{
    law_gregorian_months(year);
    assert(month_length(year, month) >= 28);
}

/// Whether `day` of `month` is a day `year` really has.
pub open spec fn calendar_day(year: nat, month: nat, day: nat) -> bool {
    1 <= month <= 12 && 1 <= day <= month_length(year, month)
}

/// An RFC 3339 `full-date`: `YYYY-MM-DD`, and a day the month really has.
pub open spec fn date_form(s: Seq<char>) -> bool {
    let first = first_of(s, '-', '-');
    first >= 0 && {
        let year = s.take(first);
        let rest = s.skip(first + 1);
        let second = first_of(rest, '-', '-');
        second >= 0 && {
            let month = rest.take(second);
            let day = rest.skip(second + 1);
            fixed(year, 4) && fixed(month, 2) && fixed(day, 2) && calendar_day(
                number(year),
                number(month),
                number(day),
            )
        }
    }
}

/// `HH:MM:SS`, a leap second admitted.
pub open spec fn hms_form(s: Seq<char>) -> bool {
    let first = first_of(s, ':', ':');
    first >= 0 && {
        let hour = s.take(first);
        let rest = s.skip(first + 1);
        let second = first_of(rest, ':', ':');
        second >= 0 && within(hour, 2, 23) && within(rest.take(second), 2, 59) && within(
            rest.skip(second + 1),
            2,
            60,
        )
    }
}

/// A clock, with an optional fractional part on the seconds.
pub open spec fn clock_form(s: Seq<char>) -> bool {
    let dot = first_of(s, '.', '.');
    if dot >= 0 {
        digits(s.skip(dot + 1)) && hms_form(s.take(dot))
    } else {
        hms_form(s)
    }
}

/// An offset: `HH:MM`.
pub open spec fn offset_form(s: Seq<char>) -> bool {
    let colon = first_of(s, ':', ':');
    colon >= 0 && within(s.take(colon), 2, 23) && within(s.skip(colon + 1), 2, 59)
}

/// A `full-time`: a clock, and an offset that is never optional.
pub open spec fn zoned_form(s: Seq<char>) -> bool {
    if s.len() > 0 && (s.last() == 'Z' || s.last() == 'z') {
        clock_form(s.drop_last())
    } else {
        let sign = last_of(s, '+', '-');
        sign >= 0 && clock_form(s.take(sign)) && offset_form(s.skip(sign + 1))
    }
}

/// An RFC 3339 `date-time`: a full date, a separator, and a zoned time.
pub open spec fn datetime_form(s: Seq<char>) -> bool {
    let t = first_of(s, 'T', 't');
    t >= 0 && date_form(s.take(t)) && zoned_form(s.skip(t + 1))
}

/// Whether `s` takes `kind`'s lexical form.
pub open spec fn takes_form(kind: ScalarKind, s: Seq<char>) -> bool {
    match kind {
        ScalarKind::String => true,
        ScalarKind::Integer => integer_form(s),
        ScalarKind::Float => float_form(s),
        ScalarKind::Boolean => boolean_form(s),
        ScalarKind::Date => date_form(s),
        ScalarKind::DateTime => datetime_form(s),
    }
}

/// The first position of `a` or `b` in `s`, or `-1`, found by a walk.
fn find_first(s: &[char], a: char, b: char) -> (r: Option<usize>)
    ensures
        match r {
            Some(k) => first_of(s@, a, b) == k && k < s.len(),
            None => first_of(s@, a, b) == -1,
        },
{
    let mut i: usize = 0;
    while i < s.len()
        invariant
            i <= s.len(),
            forall|k: int| 0 <= k < i ==> s@[k] != a && s@[k] != b,
        decreases s.len() - i,
    {
        if s[i] == a || s[i] == b {
            proof {
                lemma_first_of(s@, a, b, i as int);
            }
            return Some(i);
        }
        i = i + 1;
    }
    proof {
        lemma_first_of(s@, a, b, i as int);
    }
    None
}

/// The first position is in bounds, holds `a` or `b`, and nothing before it
/// does.
pub proof fn lemma_first_of_bounds(s: Seq<char>, a: char, b: char)
    ensures
        -1 <= first_of(s, a, b) < s.len(),
        first_of(s, a, b) >= 0 ==> (s[first_of(s, a, b)] == a || s[first_of(s, a, b)] == b),
        forall|k: int| 0 <= k < first_of(s, a, b) ==> s[k] != a && s[k] != b,
        first_of(s, a, b) < 0 ==> forall|k: int| 0 <= k < s.len() ==> s[k] != a && s[k] != b,
    decreases s.len(),
{
    if s.len() > 0 && s[0] != a && s[0] != b {
        lemma_first_of_bounds(s.drop_first(), a, b);
        assert forall|k: int| 1 <= k < s.len() implies s[k] == s.drop_first()[k - 1] by {}
    }
}

/// With nothing of `a` or `b` before `i`, the first is at `i` when `s[i]` is
/// one, and there is none when `i` is the end.
pub proof fn lemma_first_of(s: Seq<char>, a: char, b: char, i: int)
    requires
        0 <= i <= s.len(),
        forall|k: int| 0 <= k < i ==> s[k] != a && s[k] != b,
        i == s.len() || s[i] == a || s[i] == b,
    ensures
        first_of(s, a, b) == if i == s.len() { -1 } else { i },
    decreases i,
{
    if i > 0 {
        assert forall|k: int| 0 <= k < i - 1 implies s.drop_first()[k] != a && s.drop_first()[k] != b by {
            assert(s.drop_first()[k] == s[k + 1]);
        }
        lemma_first_of(s.drop_first(), a, b, i - 1);
    }
}

/// The last position of `a` or `b` in `s`, or `-1`, found by a walk back.
fn find_last(s: &[char], a: char, b: char) -> (r: Option<usize>)
    ensures
        match r {
            Some(k) => last_of(s@, a, b) == k && k < s.len(),
            None => last_of(s@, a, b) == -1,
        },
{
    let mut i: usize = s.len();
    assert(s@.take(i as int) =~= s@);
    while i > 0
        invariant
            i <= s.len(),
            last_of(s@, a, b) == last_of(s@.take(i as int), a, b),
        decreases i,
    {
        if s[i - 1] == a || s[i - 1] == b {
            return Some(i - 1);
        }
        assert(s@.take(i as int).drop_last() =~= s@.take(i - 1));
        i = i - 1;
    }
    None
}

/// Whether every character of `s` is a digit, and there is at least one.
fn all_digits(s: &[char]) -> (r: bool)
    ensures
        r == digits(s@),
{
    if s.len() == 0 {
        return false;
    }
    let mut i: usize = 0;
    while i < s.len()
        invariant
            i <= s.len(),
            forall|k: int| 0 <= k < i ==> is_digit(#[trigger] s@[k]),
        decreases s.len() - i,
    {
        if !('0' <= s[i] && s[i] <= '9') {
            return false;
        }
        i = i + 1;
    }
    true
}

/// The value of at most four digits.
fn value_of(s: &[char]) -> (r: u32)
    requires
        digits(s@),
        s.len() <= 4,
    ensures
        r == number(s@),
        r < 10000,
{
    let mut v: u32 = 0;
    let mut i: usize = 0;
    assert(s@.take(0) =~= Seq::<char>::empty());
    while i < s.len()
        invariant
            i <= s.len() <= 4,
            digits(s@),
            v == number(s@.take(i as int)),
            v < pow10(i as nat),
        decreases s.len() - i,
    {
        assert(s@.take(i + 1).drop_last() =~= s@.take(i as int));
        assert(is_digit(s@[i as int]));
        let d = (s[i] as u32) - ('0' as u32);
        v = v * 10 + d;
        i = i + 1;
    }
    assert(s@.take(s.len() as int) =~= s@);
    v
}

/// Ten to the `n`, for the four powers a value of four digits can need.
pub open spec fn pow10(n: nat) -> nat {
    if n == 0 {
        1
    } else if n == 1 {
        10
    } else if n == 2 {
        100
    } else if n == 3 {
        1000
    } else {
        10000
    }
}

/// The same characters without one leading sign.
fn strip_sign(s: &[char]) -> (r: Vec<char>)
    ensures
        r@ == unsigned(s@),
{
    if s.len() > 0 && (s[0] == '-' || s[0] == '+') {
        let r = slice(s, 1, s.len());
        assert(r@ =~= s@.drop_first());
        r
    } else {
        slice(s, 0, s.len())
    }
}

fn integer(s: &[char]) -> (r: bool)
    ensures
        r == integer_form(s@),
{
    let body = strip_sign(s);
    all_digits(&body)
}

fn fractional(s: &[char]) -> (r: bool)
    ensures
        r == fractional_form(s@),
{
    let d = match find_first(s, '.', '.') {
        Some(k) => k,
        None => return false,
    };
    let whole = slice(s, 0, d);
    let part = slice(s, d + 1, s.len());
    all_digits(&whole) && all_digits(&part)
}

fn float(s: &[char]) -> (r: bool)
    ensures
        r == float_form(s@),
{
    let body = strip_sign(s);
    if let Some(at) = find_first(&body, 'e', 'E') {
        let mantissa = slice(&body, 0, at);
        let exponent = slice(&body, at + 1, body.len());
        (fractional(&mantissa) || all_digits(&mantissa)) && integer(&exponent)
    } else {
        fractional(&body)
    }
}

fn boolean(s: &[char]) -> (r: bool)
    ensures
        r == boolean_form(s@),
{
    let t = ['t', 'r', 'u', 'e'];
    let f = ['f', 'a', 'l', 's', 'e'];
    proof {
        reveal_strlit("true");
        reveal_strlit("false");
    }
    assert(t@ =~= "true"@);
    assert(f@ =~= "false"@);
    same(s, &t) || same(s, &f)
}

fn is_fixed(s: &[char], width: usize) -> (r: bool)
    ensures
        r == fixed(s@, width as nat),
{
    s.len() == width && all_digits(s)
}

fn is_within(s: &[char], width: usize, maximum: u32) -> (r: bool)
    requires
        width <= 4,
    ensures
        r == within(s@, width as nat, maximum as nat),
{
    is_fixed(s, width) && value_of(s) <= maximum
}

/// Whether `year` is a Gregorian leap year.
pub fn leap(year: u32) -> (r: bool)
    ensures
        r == leap_year(year as nat),
{
    year % 4 == 0 && (year % 100 != 0 || year % 400 == 0)
}

/// How many days `month` has in `year`.
pub fn days_in(year: u32, month: u32) -> (r: u32)
    ensures
        r == month_length(year as nat, month as nat),
{
    if month == 2 && leap(year) {
        29
    } else if month == 2 {
        28
    } else if month == 4 || month == 6 || month == 9 || month == 11 {
        30
    } else {
        31
    }
}

fn date(s: &[char]) -> (r: bool)
    ensures
        r == date_form(s@),
{
    let f = match find_first(s, '-', '-') {
        Some(k) => k,
        None => return false,
    };
    let year = slice(s, 0, f);
    let rest = slice(s, f + 1, s.len());
    let g = match find_first(&rest, '-', '-') {
        Some(k) => k,
        None => return false,
    };
    let month = slice(&rest, 0, g);
    let day = slice(&rest, g + 1, rest.len());
    if !(is_fixed(&year, 4) && is_fixed(&month, 2) && is_fixed(&day, 2)) {
        return false;
    }
    let (y, m, d) = (value_of(&year), value_of(&month), value_of(&day));
    1 <= m && m <= 12 && 1 <= d && d <= days_in(y, m)
}

fn hms(s: &[char]) -> (r: bool)
    ensures
        r == hms_form(s@),
{
    let f = match find_first(s, ':', ':') {
        Some(k) => k,
        None => return false,
    };
    let hour = slice(s, 0, f);
    let rest = slice(s, f + 1, s.len());
    let g = match find_first(&rest, ':', ':') {
        Some(k) => k,
        None => return false,
    };
    let minute = slice(&rest, 0, g);
    let secs = slice(&rest, g + 1, rest.len());
    is_within(&hour, 2, 23) && is_within(&minute, 2, 59) && is_within(&secs, 2, 60)
}

fn clock(s: &[char]) -> (r: bool)
    ensures
        r == clock_form(s@),
{
    if let Some(d) = find_first(s, '.', '.') {
        let fraction = slice(s, d + 1, s.len());
        let whole = slice(s, 0, d);
        all_digits(&fraction) && hms(&whole)
    } else {
        hms(s)
    }
}

fn offset(s: &[char]) -> (r: bool)
    ensures
        r == offset_form(s@),
{
    let c = match find_first(s, ':', ':') {
        Some(k) => k,
        None => return false,
    };
    let hour = slice(s, 0, c);
    let minute = slice(s, c + 1, s.len());
    is_within(&hour, 2, 23) && is_within(&minute, 2, 59)
}

fn zoned(s: &[char]) -> (r: bool)
    ensures
        r == zoned_form(s@),
{
    if s.len() > 0 && (s[s.len() - 1] == 'Z' || s[s.len() - 1] == 'z') {
        let body = slice(s, 0, s.len() - 1);
        assert(body@ =~= s@.drop_last());
        return clock(&body);
    }
    let at = match find_last(s, '+', '-') {
        Some(k) => k,
        None => return false,
    };
    let time = slice(s, 0, at);
    let zone = slice(s, at + 1, s.len());
    clock(&time) && offset(&zone)
}

fn datetime(s: &[char]) -> (r: bool)
    ensures
        r == datetime_form(s@),
{
    let at = match find_first(s, 'T', 't') {
        Some(k) => k,
        None => return false,
    };
    let day = slice(s, 0, at);
    let time = slice(s, at + 1, s.len());
    date(&day) && zoned(&time)
}

/// Whether `text` satisfies `kind`'s lexical form.
pub fn scalar(kind: ScalarKind, text: &str) -> (r: bool)
    ensures
        r == takes_form(kind, text@),
{
    let written = chars_of(text);
    match kind {
        ScalarKind::String => true,
        ScalarKind::Integer => integer(&written),
        ScalarKind::Float => float(&written),
        ScalarKind::Boolean => boolean(&written),
        ScalarKind::Date => date(&written),
        ScalarKind::DateTime => datetime(&written),
    }
}

/// Whether `text` is one of an `enum`'s declared members, exactly.
pub fn member(values: &[String], text: &str) -> (r: bool)
    ensures
        r == exists|i: int| 0 <= i < values@.len() && #[trigger] values@[i]@ == text@,
{
    let wanted = chars_of(text);
    let mut i: usize = 0;
    while i < values.len()
        invariant
            i <= values.len(),
            wanted@ == text@,
            forall|k: int| 0 <= k < i ==> #[trigger] values@[k]@ != text@,
        decreases values.len() - i,
    {
        let here = chars_of(values[i].as_str());
        if same(&here, &wanted) {
            return true;
        }
        i = i + 1;
    }
    false
}

} // verus!
