//! Calendar dates: the record format carries one date per publication, in
//! a fixed `YYYY/MM/DD` text form. A date that does not match the form,
//! or names a day outside its month, is a hard parse failure. Dates order
//! publications on a page, most recent first.

use vstd::prelude::*;
use vstd::string::*;

use crate::chars::{ascii_digit, char_of_digit, digit_char, digit_val, digit_value, is_ascii_digit};
use crate::text::push_char;

verus! {

/// A calendar date, held as plain year, month and day numbers.
#[derive(Clone, Copy, PartialEq, Eq, Structural, Debug)]
pub struct Date {
    pub year: u32,
    pub month: u8,
    pub day: u8,
}

/// Gregorian leap years.
pub open spec fn is_leap_year(y: int) -> bool {
    y % 4 == 0 && (y % 100 != 0 || y % 400 == 0)
}

/// How many days the month `m` of year `y` has.
pub open spec fn spec_days_in_month(y: int, m: int) -> int {
    if m == 2 {
        if is_leap_year(y) {
            29
        } else {
            28
        }
    } else if m == 4 || m == 6 || m == 9 || m == 11 {
        30
    } else {
        31
    }
}

/// A well-formed date: a real calendar day, with a year the four-digit
/// text form can carry.
pub open spec fn date_valid(d: Date) -> bool {
    d.year <= 9999
    && 1 <= d.month <= 12
    && 1 <= d.day && d.day as int <= spec_days_in_month(d.year as int, d.month as int)
}

/// How many days month `m` of year `y` has.
pub fn days_in_month(y: u32, m: u8) -> (r: u8)
    requires
        1 <= m <= 12,
    ensures
        r as int == spec_days_in_month(y as int, m as int),
{
    if m == 2 {
        if y % 4 == 0 && (y % 100 != 0 || y % 400 == 0) {
            29
        } else {
            28
        }
    } else if m == 4 || m == 6 || m == 9 || m == 11 {
        30
    } else {
        31
    }
}

/// Whether `d` is a real calendar day with a four-digit year.
pub fn check_date(d: Date) -> (r: bool)
    ensures
        r == date_valid(d),
{
    d.year <= 9999 && 1 <= d.month && d.month <= 12 && 1 <= d.day
        && d.day <= days_in_month(d.year, d.month)
}

/// Dates in chronological order: `a` is no later than `b`.
pub open spec fn spec_date_le(a: Date, b: Date) -> bool {
    if a.year != b.year {
        a.year < b.year
    } else if a.month != b.month {
        a.month < b.month
    } else {
        a.day <= b.day
    }
}

/// Whether `a` is no later than `b`.
pub fn date_le(a: &Date, b: &Date) -> (r: bool)
    ensures
        r == spec_date_le(*a, *b),
{
    if a.year != b.year {
        a.year < b.year
    } else if a.month != b.month {
        a.month < b.month
    } else {
        a.day <= b.day
    }
}

/// The date text form: ten characters, `YYYY/MM/DD`, all digits.
pub open spec fn date_text_wf(s: Seq<char>) -> bool {
    s.len() == 10
    && is_ascii_digit(s[0]) && is_ascii_digit(s[1]) && is_ascii_digit(s[2])
    && is_ascii_digit(s[3]) && s[4] == '/'
    && is_ascii_digit(s[5]) && is_ascii_digit(s[6]) && s[7] == '/'
    && is_ascii_digit(s[8]) && is_ascii_digit(s[9])
}

/// The date a well-formed text names, valid or not.
pub open spec fn date_of_text(s: Seq<char>) -> Date {
    Date {
        year: (digit_val(s[0]) * 1000 + digit_val(s[1]) * 100 + digit_val(s[2]) * 10
            + digit_val(s[3])) as u32,
        month: (digit_val(s[5]) * 10 + digit_val(s[6])) as u8,
        day: (digit_val(s[8]) * 10 + digit_val(s[9])) as u8,
    }
}

/// What date parsing yields: the named date when the text has the fixed
/// form and names a real day, and nothing otherwise.
pub open spec fn spec_parse_date(s: Seq<char>) -> Option<Date> {
    if date_text_wf(s) && date_valid(date_of_text(s)) {
        Some(date_of_text(s))
    } else {
        None
    }
}

/// Parses the fixed `YYYY/MM/DD` text form.
pub fn parse_date(s: &str) -> (r: Option<Date>)
    ensures
        r == spec_parse_date(s@),
{
    let n = s.unicode_len();
    if n != 10 {
        return None;
    }
    let c0 = s.get_char(0);
    let c1 = s.get_char(1);
    let c2 = s.get_char(2);
    let c3 = s.get_char(3);
    let c4 = s.get_char(4);
    let c5 = s.get_char(5);
    let c6 = s.get_char(6);
    let c7 = s.get_char(7);
    let c8 = s.get_char(8);
    let c9 = s.get_char(9);
    if !(ascii_digit(c0) && ascii_digit(c1) && ascii_digit(c2) && ascii_digit(c3)
        && c4 == '/' && ascii_digit(c5) && ascii_digit(c6) && c7 == '/'
        && ascii_digit(c8) && ascii_digit(c9)) {
        return None;
    }
    let year: u32 = digit_value(c0) * 1000 + digit_value(c1) * 100 + digit_value(c2) * 10
        + digit_value(c3);
    let month: u8 = (digit_value(c5) * 10 + digit_value(c6)) as u8;
    let day: u8 = (digit_value(c8) * 10 + digit_value(c9)) as u8;
    let d = Date { year, month, day };
    if check_date(d) {
        Some(d)
    } else {
        None
    }
}

/// The fixed `YYYY/MM/DD` text for a date, the form the parser reads.
pub open spec fn spec_format_date(d: Date) -> Seq<char> {
    let y = d.year as int;
    let m = d.month as int;
    let dy = d.day as int;
    seq![
        digit_char(y / 1000 % 10),
        digit_char(y / 100 % 10),
        digit_char(y / 10 % 10),
        digit_char(y % 10),
        '/',
        digit_char(m / 10 % 10),
        digit_char(m % 10),
        '/',
        digit_char(dy / 10 % 10),
        digit_char(dy % 10),
    ]
}

/// Writes a date in the `YYYY/MM/DD` form.
pub fn format_date(d: &Date) -> (r: String)
    requires
        date_valid(*d),
    ensures
        r@ == spec_format_date(*d),
{
    let mut out = String::new();
    push_char(&mut out, char_of_digit(d.year / 1000 % 10));
    push_char(&mut out, char_of_digit(d.year / 100 % 10));
    push_char(&mut out, char_of_digit(d.year / 10 % 10));
    push_char(&mut out, char_of_digit(d.year % 10));
    push_char(&mut out, '/');
    push_char(&mut out, char_of_digit((d.month / 10 % 10) as u32));
    push_char(&mut out, char_of_digit((d.month % 10) as u32));
    push_char(&mut out, '/');
    push_char(&mut out, char_of_digit((d.day / 10 % 10) as u32));
    push_char(&mut out, char_of_digit((d.day % 10) as u32));
    proof {
        assert(out@ =~= spec_format_date(*d));
    }
    out
}

/// The hyphenated `YYYY-MM-DD` display text for a date.
pub open spec fn spec_date_display(d: Date) -> Seq<char> {
    let y = d.year as int;
    let m = d.month as int;
    let dy = d.day as int;
    seq![
        digit_char(y / 1000 % 10),
        digit_char(y / 100 % 10),
        digit_char(y / 10 % 10),
        digit_char(y % 10),
        '-',
        digit_char(m / 10 % 10),
        digit_char(m % 10),
        '-',
        digit_char(dy / 10 % 10),
        digit_char(dy % 10),
    ]
}

/// Writes a date in the hyphenated `YYYY-MM-DD` display form.
pub fn display_date(d: &Date) -> (r: String)
    requires
        date_valid(*d),
    ensures
        r@ == spec_date_display(*d),
{
    let mut out = String::new();
    push_char(&mut out, char_of_digit(d.year / 1000 % 10));
    push_char(&mut out, char_of_digit(d.year / 100 % 10));
    push_char(&mut out, char_of_digit(d.year / 10 % 10));
    push_char(&mut out, char_of_digit(d.year % 10));
    push_char(&mut out, '-');
    push_char(&mut out, char_of_digit((d.month / 10 % 10) as u32));
    push_char(&mut out, char_of_digit((d.month % 10) as u32));
    push_char(&mut out, '-');
    push_char(&mut out, char_of_digit((d.day / 10 % 10) as u32));
    push_char(&mut out, char_of_digit((d.day % 10) as u32));
    proof {
        assert(out@ =~= spec_date_display(*d));
    }
    out
}

/// Formatting a valid date and parsing the text back yields the date.
pub proof fn lemma_date_round_trip(d: Date)
    requires
        date_valid(d),
    ensures
        spec_parse_date(spec_format_date(d)) == Some(d),
{
    let s = spec_format_date(d);
    let y = d.year as int;
    let m = d.month as int;
    let dy = d.day as int;
    assert(date_text_wf(s));
    assert(y / 1000 % 10 * 1000 + y / 100 % 10 * 100 + y / 10 % 10 * 10 + y % 10 == y)
        by (nonlinear_arith)
        requires 0 <= y <= 9999;
    assert(m / 10 % 10 * 10 + m % 10 == m) by (nonlinear_arith)
        requires 0 <= m <= 12;
    assert(dy / 10 % 10 * 10 + dy % 10 == dy) by (nonlinear_arith)
        requires 0 <= dy <= 31;
    assert(date_of_text(s) == d);
}

} // verus!
